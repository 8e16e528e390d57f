use ckb4ibc::cell::{CellDep, CellInput, CellOutput, DepType, LiveCell, OutPoint, Script, ScriptHashType};
use ckb4ibc::draft::{
    build_outputs, contract_cell_or_error, decode_found_client, draft_create_multi_client_transaction,
    draft_update_multi_client_transaction, draft_updates_into_transaction, packed_client_query,
    spend_cells, update_cells_query, AssembleError,
};
use ckb4ibc::locator::{code_hash_of_contract, make_typeid_script, script_hash};
use ckb4ibc::record::{Client, ClientInfo, ClientTypeArgs, FormatError, RecordKind};
use ckb_types::packed;
use ckb_types::prelude::{Builder, Entity, Pack, Unpack};

const TYPE_ID: [u8; 32] = [
    0, 0, 0, 0, 0, 0, 0, 0, 0, 0, 0, 0, 0, 0, 0, 0, 0, 0, 0, 0, 0, 0, 0, 0, 0, 0x54, 0x59, 0x50,
    0x45, 0x5f, 0x49, 0x44,
];

fn plain_cell(capacity: u64, data: Vec<u8>, tx: u8, index: u32) -> LiveCell {
    LiveCell {
        output: CellOutput {
            capacity,
            lock: Script { code_hash: [3u8; 32], hash_type: ScriptHashType::Type, args: vec![1, 2] },
            type_: None,
        },
        output_data: data,
        out_point: OutPoint { tx_hash: [tx; 32], index },
        block_number: 1,
        tx_index: 0,
    }
}

fn client(id: u8, fill: u8) -> Client {
    Client { id, payload: [fill; 80] }
}

fn witness_of(proof: &[u8]) -> Vec<u8> {
    let n = proof.len() as u32;
    let mut w = vec![];
    w.extend_from_slice(&(20 + n).to_le_bytes());
    w.extend_from_slice(&16u32.to_le_bytes());
    w.extend_from_slice(&16u32.to_le_bytes());
    w.extend_from_slice(&(20 + n).to_le_bytes());
    w.extend_from_slice(&n.to_le_bytes());
    w.extend_from_slice(proof);
    w
}

#[test]
fn typeid_script_has_the_ledgers_code_hash() {
    let s = make_typeid_script(vec![7u8; 32]);
    assert_eq!(s.code_hash, TYPE_ID);
    assert_eq!(s.hash_type, ScriptHashType::Type);
    assert_eq!(s.args, vec![7u8; 32]);
}

#[test]
fn script_hash_is_the_ledgers() {
    let s = make_typeid_script(vec![7u8; 32]);
    let packed_script = packed::Script::new_builder()
        .code_hash(TYPE_ID.pack())
        .hash_type(1u8)
        .args(vec![7u8; 32].as_slice().pack())
        .build();
    let expected: [u8; 32] = packed_script.calc_script_hash().unpack();
    assert_eq!(script_hash(&s), expected);
    assert_ne!(script_hash(&s), TYPE_ID);
    assert_eq!(code_hash_of_contract(&[7u8; 32]), expected);
}

#[test]
fn outputs_hold_exactly_what_they_occupy() {
    let lock = make_typeid_script(vec![1u8; 32]);
    let type_ = Script { code_hash: [5u8; 32], hash_type: ScriptHashType::Type, args: vec![0u8; 33] };
    let outputs = build_outputs(&lock, &type_, &vec![vec![0u8; 2], vec![0u8; 81]]);
    assert_eq!(outputs.len(), 2);
    // 8 + data + (32 + 33) + (33 + 33) bytes, a hundred million shannons each
    assert_eq!(outputs[0].capacity, (8 + 2 + 65 + 66) * 100_000_000);
    assert_eq!(outputs[1].capacity, (8 + 81 + 65 + 66) * 100_000_000);
    assert_eq!(outputs[0].lock, lock);
    assert_eq!(outputs[1].type_, Some(type_));
}

#[test]
fn missing_contract_cell_is_reported_with_its_arguments() {
    assert_eq!(
        contract_cell_or_error(None, &[4u8; 32]),
        Err(AssembleError::ContractNotFound { typeid_args: [4u8; 32] })
    );
    let cell = plain_cell(5, vec![], 1, 0);
    assert_eq!(contract_cell_or_error(Some(cell.clone()), &[4u8; 32]), Ok(cell));
}

#[test]
fn spending_adds_up_capacities() {
    let cells = vec![plain_cell(5, vec![], 1, 0), plain_cell(7, vec![], 2, 3)];
    let spent = spend_cells(&cells).unwrap();
    assert_eq!(spent.capacity, 12);
    assert_eq!(
        spent.inputs,
        vec![
            CellInput { previous_output: OutPoint { tx_hash: [1u8; 32], index: 0 }, since: 0 },
            CellInput { previous_output: OutPoint { tx_hash: [2u8; 32], index: 3 }, since: 0 },
        ]
    );
    assert_eq!(spent.outputs, vec![cells[0].output.clone(), cells[1].output.clone()]);
    let too_much = vec![plain_cell(u64::MAX, vec![], 1, 0), plain_cell(1, vec![], 2, 3)];
    assert!(spend_cells(&too_much).is_none());
}

#[test]
fn create_builds_info_and_client_cells() {
    let contract = plain_cell(1, vec![], 0xc0, 0);
    let lock = plain_cell(1, vec![], 0x10, 1);
    let inputs = vec![plain_cell(900, vec![], 0xaa, 2)];
    let clients = vec![client(0, 1), client(1, 2), client(2, 3)];
    let info = ClientInfo { last_id: 2, minimal_updates_count: 9 };
    let proof = vec![0xeeu8; 5];
    let a = draft_create_multi_client_transaction(
        &contract, &lock, &inputs, &clients, &info, &[0x11u8; 32], &[0x22u8; 32], &proof,
    )
    .unwrap();

    assert_eq!(a.inputs_capacity, 900);
    assert_eq!(a.inputs_as_cell_outputs, vec![inputs[0].output.clone()]);
    assert_eq!(
        a.draft.inputs,
        vec![CellInput { previous_output: inputs[0].out_point, since: 0 }]
    );
    assert_eq!(a.draft.outputs_data.len(), 4);
    assert_eq!(a.draft.outputs_data[0], vec![2, 9]);
    for i in 0..3 {
        assert_eq!(a.draft.outputs_data[i + 1], clients[i].encode());
    }
    assert_eq!(a.draft.witnesses, vec![witness_of(&proof)]);
    assert_eq!(
        a.draft.cell_deps,
        vec![
            CellDep { out_point: contract.out_point, dep_type: DepType::Code },
            CellDep { out_point: lock.out_point, dep_type: DepType::Code },
        ]
    );

    // the type id is the ledger's hash of the first input and the cell count
    let first = packed::CellInput::new(packed::OutPoint::new([0xaau8; 32].pack(), 2), 0);
    let mut preimage = first.as_slice().to_vec();
    preimage.extend_from_slice(&4u64.to_le_bytes());
    let type_id: [u8; 32] = packed::CellOutput::calc_data_hash(&preimage).unpack();
    let type_args = ClientTypeArgs { type_id, cells_count: 4 }.encode();
    let expected_type = Script {
        code_hash: code_hash_of_contract(&[0x22u8; 32]),
        hash_type: ScriptHashType::Type,
        args: type_args,
    };
    let expected_lock = make_typeid_script(vec![0x11u8; 32]);
    assert_eq!(a.draft.outputs.len(), 4);
    for (i, output) in a.draft.outputs.iter().enumerate() {
        assert_eq!(output.lock, expected_lock);
        assert_eq!(output.type_, Some(expected_type.clone()));
        let data_len = a.draft.outputs_data[i].len() as u64;
        assert_eq!(output.capacity, (8 + data_len + 65 + 66) * 100_000_000);
    }
}

#[test]
fn create_depends_once_on_a_shared_code_cell() {
    let contract = plain_cell(1, vec![], 0xc0, 0);
    let inputs = vec![plain_cell(900, vec![], 0xaa, 2)];
    let a = draft_create_multi_client_transaction(
        &contract,
        &contract,
        &inputs,
        &vec![client(0, 1)],
        &ClientInfo { last_id: 0, minimal_updates_count: 0 },
        &[0x11u8; 32],
        &[0x11u8; 32],
        &vec![],
    )
    .unwrap();
    assert_eq!(
        a.draft.cell_deps,
        vec![CellDep { out_point: contract.out_point, dep_type: DepType::Code }]
    );
}

#[test]
fn create_rejects_what_it_cannot_build() {
    let contract = plain_cell(1, vec![], 0xc0, 0);
    let lock = plain_cell(1, vec![], 0x10, 1);
    let info = ClientInfo { last_id: 0, minimal_updates_count: 0 };
    let one = vec![client(0, 1)];
    let many: Vec<Client> = (0u16..255).map(|i| client(i as u8, 0)).collect();
    let inputs = vec![plain_cell(900, vec![], 0xaa, 2)];
    assert_eq!(
        draft_create_multi_client_transaction(
            &contract, &lock, &inputs, &many, &info, &[1u8; 32], &[2u8; 32], &vec![]
        ),
        Err(AssembleError::TooManyClients { count: 255 })
    );
    assert_eq!(
        draft_create_multi_client_transaction(
            &contract, &lock, &vec![], &one, &info, &[1u8; 32], &[2u8; 32], &vec![]
        ),
        Err(AssembleError::NoInputCell)
    );
    let rich = vec![plain_cell(u64::MAX, vec![], 0xaa, 2), plain_cell(1, vec![], 0xab, 2)];
    assert_eq!(
        draft_create_multi_client_transaction(
            &contract, &lock, &rich, &one, &info, &[1u8; 32], &[2u8; 32], &vec![]
        ),
        Err(AssembleError::CapacityOverflow)
    );
}

#[test]
fn update_spends_oldest_and_info_only() {
    let contract = plain_cell(1, vec![], 0xc0, 0);
    let lock = plain_cell(1, vec![], 0x10, 1);
    let oldest = plain_cell(300, client(2, 7).encode(), 0x01, 0);
    let info = plain_cell(200, vec![1, 9], 0x02, 5);
    let updated = client(2, 8);
    let args = ClientTypeArgs { type_id: [0x77u8; 32], cells_count: 4 };
    let proof = vec![1u8, 2, 3];
    let a = draft_update_multi_client_transaction(
        &contract, &lock, &oldest, &info, &updated, &args, &[0x11u8; 32], &[0x22u8; 32], &proof,
    )
    .unwrap();
    assert_eq!(
        a.draft.inputs,
        vec![
            CellInput { previous_output: oldest.out_point, since: 0 },
            CellInput { previous_output: info.out_point, since: 0 },
        ]
    );
    assert_eq!(a.inputs_capacity, 500);
    assert_eq!(a.inputs_as_cell_outputs, vec![oldest.output.clone(), info.output.clone()]);
    // the slot that was overwritten is now the most recent one
    assert_eq!(a.draft.outputs_data, vec![vec![2u8, 9], updated.encode()]);
    assert_eq!(a.draft.witnesses, vec![witness_of(&proof)]);
    let expected_type = Script {
        code_hash: code_hash_of_contract(&[0x22u8; 32]),
        hash_type: ScriptHashType::Type,
        args: args.encode(),
    };
    assert_eq!(a.draft.outputs.len(), 2);
    assert_eq!(a.draft.outputs[0].type_, Some(expected_type.clone()));
    assert_eq!(a.draft.outputs[1].type_, Some(expected_type));
    assert_eq!(a.draft.outputs[0].lock, make_typeid_script(vec![0x11u8; 32]));
    assert_eq!(a.draft.outputs[0].capacity, (8 + 2 + 65 + 66) * 100_000_000);
    assert_eq!(a.draft.outputs[1].capacity, (8 + 81 + 65 + 66) * 100_000_000);
}

#[test]
fn update_rejects_cells_of_the_wrong_layout() {
    let contract = plain_cell(1, vec![], 0xc0, 0);
    let lock = plain_cell(1, vec![], 0x10, 1);
    let oldest = plain_cell(300, client(2, 7).encode(), 0x01, 0);
    let info = plain_cell(200, vec![1, 9], 0x02, 5);
    let args = ClientTypeArgs { type_id: [0x77u8; 32], cells_count: 4 };
    let bad_oldest = plain_cell(300, vec![1, 2, 3], 0x01, 0);
    assert_eq!(
        draft_update_multi_client_transaction(
            &contract, &lock, &bad_oldest, &info, &client(2, 8), &args, &[1u8; 32], &[2u8; 32],
            &vec![],
        ),
        Err(AssembleError::Format(FormatError {
            kind: RecordKind::Client,
            expected_len: 81,
            actual_len: 3
        }))
    );
    let bad_info = plain_cell(200, vec![], 0x02, 5);
    assert_eq!(
        draft_update_multi_client_transaction(
            &contract, &lock, &oldest, &bad_info, &client(2, 8), &args, &[1u8; 32], &[2u8; 32],
            &vec![],
        ),
        Err(AssembleError::Format(FormatError {
            kind: RecordKind::ClientInfo,
            expected_len: 2,
            actual_len: 0
        }))
    );
    let rich = plain_cell(u64::MAX, client(2, 7).encode(), 0x01, 0);
    assert_eq!(
        draft_update_multi_client_transaction(
            &contract, &lock, &rich, &info, &client(2, 8), &args, &[1u8; 32], &[2u8; 32], &vec![],
        ),
        Err(AssembleError::CapacityOverflow)
    );
}

#[test]
fn upsert_creates_or_replaces_the_single_cell() {
    let contract = plain_cell(1, vec![], 0xc0, 0);
    let lock = plain_cell(1, vec![], 0x10, 1);
    let owner = vec![0x0fu8; 20];
    let id = b"ckb-client".to_vec();
    let fresh = draft_updates_into_transaction(
        &contract, &lock, &None, &owner, &client(0, 4), &vec![9u8], &[0x11u8; 32], &[0x22u8; 32],
        &id,
    );
    assert_eq!(fresh.draft.inputs, vec![]);
    assert_eq!(fresh.inputs_capacity, 0);
    assert_eq!(fresh.inputs_as_cell_outputs, vec![]);
    assert_eq!(fresh.draft.outputs_data, vec![client(0, 4).encode()]);
    assert_eq!(fresh.draft.witnesses, vec![witness_of(&[9u8])]);
    let expected_lock = Script {
        code_hash: code_hash_of_contract(&[0x11u8; 32]),
        hash_type: ScriptHashType::Type,
        args: owner.clone(),
    };
    let expected_type = Script {
        code_hash: code_hash_of_contract(&[0x22u8; 32]),
        hash_type: ScriptHashType::Type,
        args: id.clone(),
    };
    assert_eq!(fresh.draft.outputs.len(), 1);
    assert_eq!(fresh.draft.outputs[0].lock, expected_lock);
    assert_eq!(fresh.draft.outputs[0].type_, Some(expected_type));
    assert_eq!(fresh.draft.outputs[0].capacity, (8 + 81 + 20 + 33 + 10 + 33) * 100_000_000);

    let old = plain_cell(444, client(0, 3).encode(), 0x05, 6);
    let replaced = draft_updates_into_transaction(
        &contract, &lock, &Some(old.clone()), &owner, &client(0, 4), &vec![9u8], &[0x11u8; 32],
        &[0x22u8; 32], &id,
    );
    assert_eq!(
        replaced.draft.inputs,
        vec![CellInput { previous_output: old.out_point, since: 0 }]
    );
    assert_eq!(replaced.inputs_capacity, 444);
    assert_eq!(replaced.inputs_as_cell_outputs, vec![old.output]);
    assert_eq!(replaced.draft.outputs, fresh.draft.outputs);
}

#[test]
fn queries_name_the_contracts_cells() {
    let args = ClientTypeArgs { type_id: [0x77u8; 32], cells_count: 4 };
    let q = update_cells_query(&[0x22u8; 32], &args);
    assert_eq!(q.code_hash, code_hash_of_contract(&[0x22u8; 32]));
    assert_eq!(q.args, args.encode());
    assert_eq!(q.limit, 4);
    let q = packed_client_query(&[0x22u8; 32], &b"abc".to_vec());
    assert_eq!(q.args, b"abc".to_vec());
    assert_eq!(q.limit, 1);
}

#[test]
fn found_client_is_decoded_or_rejected() {
    assert_eq!(decode_found_client(&None), Ok(None));
    let good = plain_cell(1, client(3, 5).encode(), 1, 0);
    assert_eq!(decode_found_client(&Some(good)), Ok(Some(client(3, 5))));
    let bad = plain_cell(1, vec![1, 2], 1, 0);
    assert_eq!(
        decode_found_client(&Some(bad)),
        Err(FormatError { kind: RecordKind::Client, expected_len: 81, actual_len: 2 })
    );
}

#[test]
fn missing_contract_is_named_in_hexadecimal() {
    let mut args = [0u8; 32];
    args[0] = 0x01;
    args[1] = 0xab;
    args[31] = 0xf0;
    let message = AssembleError::ContractNotFound { typeid_args: args }.message();
    assert_eq!(
        message,
        "contract not found: 01ab0000000000000000000000000000000000000000000000000000000000f0"
    );
    assert_eq!(AssembleError::NoInputCell.message(), "input cell not found");
    assert_eq!(
        AssembleError::TooManyClients { count: 300 }.message(),
        "a window holds at most 254 clients"
    );
    assert_eq!(AssembleError::CapacityOverflow.message(), "capacity of the inputs overflows");
    assert_eq!(
        AssembleError::Format(FormatError {
            kind: RecordKind::Client,
            expected_len: 81,
            actual_len: 0
        })
        .message(),
        "client format error"
    );
}

#[test]
fn created_window_is_found_in_good_order() {
    let contract = plain_cell(1, vec![], 0xc0, 0);
    let lock = plain_cell(1, vec![], 0x10, 1);
    let inputs = vec![plain_cell(900, vec![], 0xaa, 2)];
    let clients = vec![client(2, 1), client(0, 2), client(1, 3)];
    let info = ClientInfo { last_id: 2, minimal_updates_count: 1 };
    let a = draft_create_multi_client_transaction(
        &contract, &lock, &inputs, &clients, &info, &[0x11u8; 32], &[0x22u8; 32], &vec![],
    )
    .unwrap();
    let cells: Vec<LiveCell> = a
        .draft
        .outputs
        .iter()
        .zip(a.draft.outputs_data.iter())
        .enumerate()
        .map(|(i, (output, data))| LiveCell {
            output: output.clone(),
            output_data: data.clone(),
            out_point: OutPoint { tx_hash: [0xee; 32], index: i as u32 },
            block_number: 2,
            tx_index: 0,
        })
        .collect();
    let picked = ckb4ibc::ring::select_update_cells(&cells, 4).unwrap().unwrap();
    assert_eq!(picked.info.output_data, vec![2, 1]);
    assert_eq!(picked.latest.output_data, client(2, 1).encode());
    assert_eq!(picked.oldest.output_data, client(0, 2).encode());
}
