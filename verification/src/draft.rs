//! Drafts of the transactions that create and update light-client cells.
//!
//! A draft names the cells it consumes and the cells it creates, carries the
//! proof of the update in its first witness and depends on the code cells of
//! the contract and of the lock. Each created cell has exactly the capacity
//! that it occupies. Balancing the draft and paying its fee is left to the
//! caller.

use crate::bytes::{append_bytes, copy_bytes, le64, push_le64};
use crate::cell::{
    blobs_view, live_cells_view, outputs_view, CellDep, CellInput, CellOutput, CellOutputView,
    DepType, LiveCell, LiveCellView, OutPoint, Script, ScriptView, TransactionDraft,
    TransactionDraftView,
};
use crate::ledger::{
    cell_input_bytes, ckb_cell_input_bytes, ckb_data_hash, ckb_exact_capacity, ckb_witness_args,
    data_hash_of, exact_capacity, hex_chars, hex_encode, join_text, witness_args_bytes,
};
use crate::locator::{
    code_hash_of_contract, contract_code_hash, contract_script, make_lightclient_script,
    make_typeid_script, typeid_script,
};
use crate::record::{
    client_bytes, client_info_bytes, client_type_args_bytes, is_client_encoding, Client,
    ClientInfo, ClientTypeArgs, FormatError, RecordKind, CLIENT_INFO_LEN, CLIENT_LEN,
};
use crate::ring::{
    cell_datas, info_index, info_position, is_client_data, is_info_data, is_selection, last_slot,
    lemma_every_slot_taken, lemma_info_position, lemma_rotation_keeps_window, next_slot,
    oldest_slot_of, recognised_before, rotated, single_info_before, slot_of, slot_position,
    slots_distinct_before, slots_in_range_before, valid_group, UpdateCells,
};
use vstd::prelude::*;

verus! {

/// The fee rate, in shannons per thousand bytes, at which drafts are balanced.
pub const FEE_RATE: u64 = 3000;

/// The longest proof that fits in a witness beside its framing.
pub const MAX_PROOF_LEN: usize = 0xffff_ffeb;

/// A draft together with what signing it later needs to know of its inputs.
#[derive(Clone, Debug, PartialEq, Eq)]
pub struct Assembled {
    pub draft: TransactionDraft,
    /// The consumed cells in the form of the outputs that created them, in
    /// the order of the draft's inputs.
    pub inputs_as_cell_outputs: Vec<CellOutput>,
    /// The capacity that the draft's inputs bring, in shannons.
    pub inputs_capacity: u64,
}

/// Why no draft could be made.
#[derive(Clone, Copy, Debug, PartialEq, Eq)]
pub enum AssembleError {
    /// No cell carries the type-id script with these arguments.
    ContractNotFound { typeid_args: [u8; 32] },
    /// A window holds at most 254 clients beside its info cell.
    TooManyClients { count: usize },
    /// There is no cell to consume, and so nothing to derive a type id from.
    NoInputCell,
    /// The capacities of the cells to consume do not add up in 64 bits.
    CapacityOverflow,
    /// A cell to consume does not hold the record that it should.
    Format(FormatError),
}

/// The cell output with the two scripts and exactly the capacity that it
/// occupies with `data_len` bytes of data.
pub open spec fn exact_output(
    lock: ScriptView,
    type_: ScriptView,
    data_len: nat,
) -> CellOutputView {
    CellOutputView {
        capacity: exact_capacity(lock.args.len(), type_.args.len(), data_len) as u64,
        lock,
        type_: Some(type_),
    }
}

/// One cell output for each of `datas`, each with exactly the capacity that
/// it occupies.
pub open spec fn exact_outputs(lock: ScriptView, type_: ScriptView, datas: Seq<Seq<u8>>) -> Seq<
    CellOutputView,
> {
    Seq::new(datas.len(), |i: int| exact_output(lock, type_, datas[i].len()))
}

/// The dependency on the code in the cell at `out_point`.
pub open spec fn code_dep(out_point: OutPoint) -> CellDep {
    CellDep { out_point, dep_type: DepType::Code }
}

/// The dependencies on the code of the contract and of the lock, once each.
pub open spec fn code_deps(contract: OutPoint, lock: OutPoint) -> Seq<CellDep> {
    if contract == lock {
        seq![code_dep(contract)]
    } else {
        seq![code_dep(contract), code_dep(lock)]
    }
}

/// The witness that carries `proof` as the data of the input's type script.
pub open spec fn proof_witness(proof: Seq<u8>) -> Seq<u8> {
    witness_args_bytes(None, Some(proof), None)
}

/// The inputs that consume `cells`, each without a time lock.
pub open spec fn inputs_of(cells: Seq<LiveCellView>) -> Seq<CellInput> {
    Seq::new(cells.len(), |i: int| CellInput { previous_output: cells[i].out_point, since: 0 })
}

/// The outputs that created `cells`.
pub open spec fn outputs_of(cells: Seq<LiveCellView>) -> Seq<CellOutputView> {
    Seq::new(cells.len(), |i: int| cells[i].output)
}

/// The sum of the capacities of `cells`.
pub open spec fn total_capacity(cells: Seq<LiveCellView>) -> nat
    decreases cells.len(),
{
    if cells.len() == 0 {
        0
    } else {
        total_capacity(cells.drop_last()) + cells.last().output.capacity as nat
    }
}

impl AssembleError {
    /// Says in words what went wrong. A missing contract is named by the
    /// arguments of its type-id script, in hexadecimal.
    pub fn message(&self) -> (text: String)
        ensures
            self matches AssembleError::ContractNotFound { typeid_args } ==> text@
                == "contract not found: "@ + hex_chars(typeid_args@),
            self matches AssembleError::TooManyClients { .. } ==> text@
                == "a window holds at most 254 clients"@,
            self matches AssembleError::NoInputCell ==> text@ == "input cell not found"@,
            self matches AssembleError::CapacityOverflow ==> text@
                == "capacity of the inputs overflows"@,
            self matches AssembleError::Format(_) ==> text@ == "client format error"@,
    {
        match self {
            AssembleError::ContractNotFound { typeid_args } => {
                let hex = hex_encode(typeid_args.as_slice());
                join_text("contract not found: ", hex.as_str())
            },
            AssembleError::TooManyClients { .. } => "a window holds at most 254 clients".to_owned(),
            AssembleError::NoInputCell => "input cell not found".to_owned(),
            AssembleError::CapacityOverflow => "capacity of the inputs overflows".to_owned(),
            AssembleError::Format(_) => "client format error".to_owned(),
        }
    }
}

/// Decides whether the search for a contract's code cell found it.
pub fn contract_cell_or_error(found: Option<LiveCell>, typeid_args: &[u8; 32]) -> (r: Result<
    LiveCell,
    AssembleError,
>)
    ensures
        match (found, r) {
            (Some(cell), Ok(c)) => c == cell,
            (None, Err(e)) => e == (AssembleError::ContractNotFound { typeid_args: *typeid_args }),
            _ => false,
        },
{
    match found {
        Some(cell) => Ok(cell),
        None => Err(AssembleError::ContractNotFound { typeid_args: *typeid_args }),
    }
}

/// Builds one output for each of `datas` under the two scripts, each with
/// exactly the capacity that it occupies.
pub fn build_outputs(lock: &Script, type_: &Script, datas: &Vec<Vec<u8>>) -> (outputs: Vec<
    CellOutput,
>)
    requires
        forall|i: int|
            0 <= i < datas@.len() ==> exact_capacity(
                lock@.args.len(),
                type_@.args.len(),
                (#[trigger] datas@[i])@.len(),
            ) <= u64::MAX,
    ensures
        outputs_view(outputs@) == exact_outputs(lock@, type_@, blobs_view(datas@)),
{
    let mut outputs: Vec<CellOutput> = Vec::new();
    let mut i: usize = 0;
    while i < datas.len()
        invariant
            i <= datas.len(),
            outputs@.len() == i,
            forall|j: int|
                0 <= j < datas@.len() ==> exact_capacity(
                    lock@.args.len(),
                    type_@.args.len(),
                    (#[trigger] datas@[j])@.len(),
                ) <= u64::MAX,
            forall|j: int|
                0 <= j < i ==> (#[trigger] outputs@[j])@ == exact_output(
                    lock@,
                    type_@,
                    datas@[j]@.len(),
                ),
        decreases datas.len() - i,
    {
        let capacity = ckb_exact_capacity(
            &lock.code_hash,
            lock.hash_type.tag(),
            &lock.args,
            &type_.code_hash,
            type_.hash_type.tag(),
            &type_.args,
            datas[i].len(),
        );
        outputs.push(
            CellOutput { capacity, lock: lock.duplicate(), type_: Some(type_.duplicate()) },
        );
        i = i + 1;
    }
    assert(outputs_view(outputs@) =~= exact_outputs(lock@, type_@, blobs_view(datas@)));
    outputs
}

/// Builds the dependencies on the code of the contract and of the lock. Where
/// both are the same cell, it is depended on once.
pub fn build_code_deps(contract: &LiveCell, lock: &LiveCell) -> (deps: Vec<CellDep>)
    ensures
        deps@ == code_deps(contract.out_point, lock.out_point),
{
    let mut deps: Vec<CellDep> = Vec::new();
    deps.push(CellDep { out_point: contract.out_point, dep_type: DepType::Code });
    let same = crate::bytes::same_hash(&contract.out_point.tx_hash, &lock.out_point.tx_hash)
        && contract.out_point.index == lock.out_point.index;
    if !same {
        deps.push(CellDep { out_point: lock.out_point, dep_type: DepType::Code });
    }
    assert(deps@ =~= code_deps(contract.out_point, lock.out_point));
    deps
}

/// What consuming `cells` brings to a transaction.
pub struct Spent {
    pub inputs: Vec<CellInput>,
    pub outputs: Vec<CellOutput>,
    pub capacity: u64,
}

/// Turns the cells to consume into inputs, keeps the outputs that created
/// them and adds up their capacities. `None` where the sum leaves 64 bits.
pub fn spend_cells(cells: &Vec<LiveCell>) -> (r: Option<Spent>)
    ensures
        match r {
            Some(s) => {
                &&& total_capacity(live_cells_view(cells@)) <= u64::MAX
                &&& s.capacity == total_capacity(live_cells_view(cells@))
                &&& s.inputs@ == inputs_of(live_cells_view(cells@))
                &&& outputs_view(s.outputs@) == outputs_of(live_cells_view(cells@))
            },
            None => total_capacity(live_cells_view(cells@)) > u64::MAX,
        },
{
    let ghost all = live_cells_view(cells@);
    let mut inputs: Vec<CellInput> = Vec::new();
    let mut outputs: Vec<CellOutput> = Vec::new();
    let mut capacity: u64 = 0;
    let mut i: usize = 0;
    while i < cells.len()
        invariant
            i <= cells.len(),
            all == live_cells_view(cells@),
            inputs@.len() == i,
            outputs@.len() == i,
            capacity == total_capacity(all.subrange(0, i as int)),
            forall|j: int|
                0 <= j < i ==> #[trigger] inputs@[j] == (CellInput {
                    previous_output: all[j].out_point,
                    since: 0,
                }),
            forall|j: int| 0 <= j < i ==> (#[trigger] outputs@[j])@ == all[j].output,
        decreases cells.len() - i,
    {
        let cell = &cells[i];
        proof {
            assert(all.subrange(0, i + 1).drop_last() =~= all.subrange(0, i as int));
            assert(all.subrange(0, i + 1).last() == all[i as int]);
        }
        if cell.output.capacity > u64::MAX - capacity {
            proof {
                lemma_total_capacity_grows(all, i + 1);
            }
            return None;
        }
        capacity = capacity + cell.output.capacity;
        inputs.push(CellInput { previous_output: cell.out_point, since: 0 });
        outputs.push(cell.output.duplicate());
        i = i + 1;
    }
    assert(all.subrange(0, i as int) =~= all);
    assert(inputs@ =~= inputs_of(all));
    assert(outputs_view(outputs@) =~= outputs_of(all));
    Some(Spent { inputs, outputs, capacity })
}

/// The capacities of some of the cells do not add up to more than those of
/// all of them.
pub proof fn lemma_total_capacity_grows(cells: Seq<LiveCellView>, k: int)
    requires
        0 <= k <= cells.len(),
    ensures
        total_capacity(cells.subrange(0, k)) <= total_capacity(cells),
    decreases cells.len() - k,
{
    if k == cells.len() {
        assert(cells.subrange(0, k) =~= cells);
    } else {
        lemma_total_capacity_grows(cells.drop_last(), k);
        assert(cells.drop_last().subrange(0, k) =~= cells.subrange(0, k));
    }
}

/// The type id of a new window: the ledger's hash of the first input of the
/// creating transaction followed by the number of cells, in eight bytes.
pub open spec fn window_type_id(first: CellInput, cells_count: u8) -> Seq<u8> {
    data_hash_of(cell_input_bytes(first) + le64(cells_count as nat))
}

/// The type script shared by the cells of a window of the contract whose
/// type-id script has the arguments `contract_typeid_args`.
pub open spec fn window_type_script(
    contract_typeid_args: Seq<u8>,
    type_args: Seq<u8>,
) -> ScriptView {
    contract_script(contract_code_hash(contract_typeid_args), type_args)
}

/// The data of the cells of a new window: the info record first, then the
/// client records in the order given.
pub open spec fn create_outputs_data(info: ClientInfo, clients: Seq<Client>) -> Seq<Seq<u8>> {
    Seq::new(
        clients.len() + 1,
        |i: int|
            if i == 0 {
                client_info_bytes(info)
            } else {
                client_bytes(clients[i - 1])
            },
    )
}

/// The draft that creates a window.
pub open spec fn create_draft(
    contract: OutPoint,
    lock: OutPoint,
    inputs: Seq<LiveCellView>,
    clients: Seq<Client>,
    info: ClientInfo,
    lock_typeid_args: Seq<u8>,
    contract_typeid_args: Seq<u8>,
    proof: Seq<u8>,
) -> TransactionDraftView {
    let n = (clients.len() + 1) as u8;
    let type_args = window_type_id(inputs_of(inputs)[0], n) + seq![n];
    let datas = create_outputs_data(info, clients);
    TransactionDraftView {
        inputs: inputs_of(inputs),
        outputs: exact_outputs(
            typeid_script(lock_typeid_args),
            window_type_script(contract_typeid_args, type_args),
            datas,
        ),
        outputs_data: datas,
        witnesses: seq![proof_witness(proof)],
        cell_deps: code_deps(contract, lock),
    }
}

/// Copies a hash into a byte vector.
fn hash_to_vec(h: &[u8; 32]) -> (r: Vec<u8>)
    ensures
        r@ == h@,
{
    let mut r: Vec<u8> = Vec::new();
    append_bytes(&mut r, h.as_slice());
    r
}

/// Builds the witness that carries `proof`.
fn build_proof_witness(proof: &Vec<u8>) -> (w: Vec<Vec<u8>>)
    requires
        proof@.len() <= MAX_PROOF_LEN,
    ensures
        blobs_view(w@) == seq![proof_witness(proof@)],
{
    let mut w: Vec<Vec<u8>> = Vec::new();
    w.push(ckb_witness_args(None, Some(proof), None));
    assert(blobs_view(w@) =~= seq![proof_witness(proof@)]);
    w
}

/// Drafts the transaction that creates a window of `clients.len() + 1` cells:
/// the info cell first, then one cell for each client.
///
/// The cells are locked by the type-id script of the lock contract and typed
/// by the contract's script, whose arguments hold the number of cells and a
/// type id derived from the first of `input_cells`, so that no other window
/// can have the same. The draft consumes `input_cells`, carries
/// `proof_update` in its witness and depends on the two code cells.
pub fn draft_create_multi_client_transaction(
    contract_cell: &LiveCell,
    lock_cell: &LiveCell,
    input_cells: &Vec<LiveCell>,
    clients: &Vec<Client>,
    client_info: &ClientInfo,
    lock_typeid_args: &[u8; 32],
    contract_typeid_args: &[u8; 32],
    proof_update: &Vec<u8>,
) -> (r: Result<Assembled, AssembleError>)
    requires
        proof_update@.len() <= MAX_PROOF_LEN,
    ensures
        match r {
            Ok(a) => {
                &&& clients@.len() < 255
                &&& input_cells@.len() > 0
                &&& a.draft@ == create_draft(
                    contract_cell.out_point,
                    lock_cell.out_point,
                    live_cells_view(input_cells@),
                    clients@,
                    *client_info,
                    lock_typeid_args@,
                    contract_typeid_args@,
                    proof_update@,
                )
                &&& outputs_view(a.inputs_as_cell_outputs@) == outputs_of(
                    live_cells_view(input_cells@),
                )
                &&& a.inputs_capacity == total_capacity(live_cells_view(input_cells@))
            },
            Err(AssembleError::TooManyClients { count }) => clients@.len() >= 255 && count
                == clients@.len(),
            Err(AssembleError::CapacityOverflow) => clients@.len() < 255 && total_capacity(
                live_cells_view(input_cells@),
            ) > u64::MAX,
            Err(AssembleError::NoInputCell) => clients@.len() < 255 && input_cells@.len() == 0,
            Err(_) => false,
        },
{
    if clients.len() >= 255 {
        return Err(AssembleError::TooManyClients { count: clients.len() });
    }
    let cells_count: u8 = (clients.len() + 1) as u8;
    let spent = match spend_cells(input_cells) {
        Some(spent) => spent,
        None => {
            return Err(AssembleError::CapacityOverflow);
        },
    };
    if input_cells.len() == 0 {
        return Err(AssembleError::NoInputCell);
    }
    let mut preimage = ckb_cell_input_bytes(&spent.inputs[0]);
    push_le64(&mut preimage, cells_count as u64);
    let type_id = ckb_data_hash(&preimage);
    let type_args = (ClientTypeArgs { type_id, cells_count }).encode();
    let type_script = make_lightclient_script(
        code_hash_of_contract(contract_typeid_args),
        type_args,
    );
    let lock_script = make_typeid_script(hash_to_vec(lock_typeid_args));
    let mut outputs_data: Vec<Vec<u8>> = Vec::new();
    outputs_data.push(client_info.encode());
    let mut i: usize = 0;
    while i < clients.len()
        invariant
            i <= clients.len(),
            outputs_data@.len() == i + 1,
            outputs_data@[0]@ == client_info_bytes(*client_info),
            forall|j: int|
                1 <= j <= i ==> (#[trigger] outputs_data@[j])@ == client_bytes(clients@[j - 1]),
        decreases clients.len() - i,
    {
        outputs_data.push(clients[i].encode());
        i = i + 1;
    }
    assert(blobs_view(outputs_data@) =~= create_outputs_data(*client_info, clients@));
    let outputs = build_outputs(&lock_script, &type_script, &outputs_data);
    let draft = TransactionDraft {
        inputs: spent.inputs,
        outputs,
        outputs_data,
        witnesses: build_proof_witness(proof_update),
        cell_deps: build_code_deps(contract_cell, lock_cell),
    };
    Ok(
        Assembled {
            draft,
            inputs_as_cell_outputs: spent.outputs,
            inputs_capacity: spent.capacity,
        },
    )
}

/// The data of the two cells that a rotation writes: the info record that
/// names the slot of the replaced client as the most recent one and is
/// otherwise as it was, then the new client record.
pub open spec fn update_outputs_data(
    oldest_data: Seq<u8>,
    info_data: Seq<u8>,
    updated: Client,
) -> Seq<Seq<u8>> {
    seq![
        client_info_bytes(
            ClientInfo { last_id: oldest_data[0], minimal_updates_count: info_data[1] },
        ),
        client_bytes(updated),
    ]
}

/// The draft that rotates a window.
pub open spec fn update_draft(
    contract: OutPoint,
    lock: OutPoint,
    oldest: LiveCellView,
    info: LiveCellView,
    updated: Client,
    client_type_args: ClientTypeArgs,
    lock_typeid_args: Seq<u8>,
    contract_typeid_args: Seq<u8>,
    proof: Seq<u8>,
) -> TransactionDraftView {
    let datas = update_outputs_data(oldest.output_data, info.output_data, updated);
    TransactionDraftView {
        inputs: inputs_of(seq![oldest, info]),
        outputs: exact_outputs(
            typeid_script(lock_typeid_args),
            window_type_script(contract_typeid_args, client_type_args_bytes(client_type_args)),
            datas,
        ),
        outputs_data: datas,
        witnesses: seq![proof_witness(proof)],
        cell_deps: code_deps(contract, lock),
    }
}

/// Drafts the transaction that rotates a window by one slot.
///
/// It consumes exactly two cells, the client cell of the oldest slot and the
/// info cell, however large the window is, and creates two in their place
/// under the window's unchanged scripts: an info cell that names the slot of
/// the consumed client as the most recent one, and a client cell that holds
/// `updated_client`.
pub fn draft_update_multi_client_transaction(
    contract_cell: &LiveCell,
    lock_cell: &LiveCell,
    oldest_cell: &LiveCell,
    info_cell: &LiveCell,
    updated_client: &Client,
    client_type_args: &ClientTypeArgs,
    lock_typeid_args: &[u8; 32],
    contract_typeid_args: &[u8; 32],
    proof_update: &Vec<u8>,
) -> (r: Result<Assembled, AssembleError>)
    requires
        proof_update@.len() <= MAX_PROOF_LEN,
    ensures
        match r {
            Ok(a) => {
                &&& oldest_cell.output_data@.len() == CLIENT_LEN
                &&& info_cell.output_data@.len() == CLIENT_INFO_LEN
                &&& a.draft@ == update_draft(
                    contract_cell.out_point,
                    lock_cell.out_point,
                    oldest_cell@,
                    info_cell@,
                    *updated_client,
                    *client_type_args,
                    lock_typeid_args@,
                    contract_typeid_args@,
                    proof_update@,
                )
                &&& outputs_view(a.inputs_as_cell_outputs@) == seq![
                    oldest_cell@.output,
                    info_cell@.output,
                ]
                &&& a.inputs_capacity == oldest_cell.output.capacity + info_cell.output.capacity
            },
            Err(AssembleError::Format(e)) => {
                ||| {
                    &&& oldest_cell.output_data@.len() != CLIENT_LEN
                    &&& e == (FormatError {
                        kind: RecordKind::Client,
                        expected_len: CLIENT_LEN,
                        actual_len: oldest_cell.output_data@.len() as usize,
                    })
                }
                ||| {
                    &&& oldest_cell.output_data@.len() == CLIENT_LEN
                    &&& info_cell.output_data@.len() != CLIENT_INFO_LEN
                    &&& e == (FormatError {
                        kind: RecordKind::ClientInfo,
                        expected_len: CLIENT_INFO_LEN,
                        actual_len: info_cell.output_data@.len() as usize,
                    })
                }
            },
            Err(AssembleError::CapacityOverflow) => {
                &&& oldest_cell.output_data@.len() == CLIENT_LEN
                &&& info_cell.output_data@.len() == CLIENT_INFO_LEN
                &&& oldest_cell.output.capacity + info_cell.output.capacity > u64::MAX
            },
            Err(_) => false,
        },
{
    let oldest = match Client::decode(oldest_cell.output_data.as_slice()) {
        Ok(c) => c,
        Err(e) => {
            return Err(AssembleError::Format(e));
        },
    };
    let info = match ClientInfo::decode(info_cell.output_data.as_slice()) {
        Ok(c) => c,
        Err(e) => {
            return Err(AssembleError::Format(e));
        },
    };
    if info_cell.output.capacity > u64::MAX - oldest_cell.output.capacity {
        return Err(AssembleError::CapacityOverflow);
    }
    let inputs_capacity: u64 = oldest_cell.output.capacity + info_cell.output.capacity;
    let new_info = ClientInfo {
        last_id: oldest.id,
        minimal_updates_count: info.minimal_updates_count,
    };
    let type_script = make_lightclient_script(
        code_hash_of_contract(contract_typeid_args),
        client_type_args.encode(),
    );
    let lock_script = make_typeid_script(hash_to_vec(lock_typeid_args));
    let mut outputs_data: Vec<Vec<u8>> = Vec::new();
    outputs_data.push(new_info.encode());
    outputs_data.push(updated_client.encode());
    assert(blobs_view(outputs_data@) =~= update_outputs_data(
        oldest_cell.output_data@,
        info_cell.output_data@,
        *updated_client,
    ));
    let outputs = build_outputs(&lock_script, &type_script, &outputs_data);
    let mut inputs: Vec<CellInput> = Vec::new();
    inputs.push(CellInput { previous_output: oldest_cell.out_point, since: 0 });
    inputs.push(CellInput { previous_output: info_cell.out_point, since: 0 });
    assert(inputs@ =~= inputs_of(seq![oldest_cell@, info_cell@]));
    let mut inputs_as_cell_outputs: Vec<CellOutput> = Vec::new();
    inputs_as_cell_outputs.push(oldest_cell.output.duplicate());
    inputs_as_cell_outputs.push(info_cell.output.duplicate());
    assert(outputs_view(inputs_as_cell_outputs@) =~= seq![oldest_cell@.output, info_cell@.output]);
    let draft = TransactionDraft {
        inputs,
        outputs,
        outputs_data,
        witnesses: build_proof_witness(proof_update),
        cell_deps: build_code_deps(contract_cell, lock_cell),
    };
    Ok(Assembled { draft, inputs_as_cell_outputs, inputs_capacity })
}

/// The cell that holds the single client of the lighter variant, seen as a
/// list of cells to consume: itself where it exists, nothing where it does
/// not.
pub open spec fn existing_cells(existing: Option<LiveCell>) -> Seq<LiveCellView> {
    match existing {
        Some(cell) => seq![cell@],
        None => Seq::empty(),
    }
}

/// The draft that writes the single client of the lighter variant.
pub open spec fn upsert_draft(
    contract: OutPoint,
    lock: OutPoint,
    existing: Option<LiveCell>,
    owner_args: Seq<u8>,
    client: Client,
    proof: Seq<u8>,
    lock_typeid_args: Seq<u8>,
    contract_typeid_args: Seq<u8>,
    client_id: Seq<u8>,
) -> TransactionDraftView {
    let datas = seq![client_bytes(client)];
    TransactionDraftView {
        inputs: inputs_of(existing_cells(existing)),
        outputs: exact_outputs(
            contract_script(contract_code_hash(lock_typeid_args), owner_args),
            window_type_script(contract_typeid_args, client_id),
            datas,
        ),
        outputs_data: datas,
        witnesses: seq![proof_witness(proof)],
        cell_deps: code_deps(contract, lock),
    }
}

/// Drafts the transaction that writes the single client cell of the lighter
/// variant, which keeps no window: where the cell exists it is consumed and
/// replaced, where it does not it is created.
///
/// The cell is locked by the lock contract's script with the owner's
/// arguments and typed by the contract's script with the client's identifier.
pub fn draft_updates_into_transaction(
    contract_cell: &LiveCell,
    lock_cell: &LiveCell,
    existing: &Option<LiveCell>,
    owner_args: &Vec<u8>,
    packed_client: &Client,
    proof_update: &Vec<u8>,
    lock_typeid_args: &[u8; 32],
    contract_typeid_args: &[u8; 32],
    client_id: &Vec<u8>,
) -> (a: Assembled)
    requires
        proof_update@.len() <= MAX_PROOF_LEN,
        exact_capacity(owner_args@.len(), client_id@.len(), CLIENT_LEN as nat) <= u64::MAX,
    ensures
        a.draft@ == upsert_draft(
            contract_cell.out_point,
            lock_cell.out_point,
            *existing,
            owner_args@,
            *packed_client,
            proof_update@,
            lock_typeid_args@,
            contract_typeid_args@,
            client_id@,
        ),
        outputs_view(a.inputs_as_cell_outputs@) == outputs_of(existing_cells(*existing)),
        a.inputs_capacity == total_capacity(existing_cells(*existing)),
{
    let lock_script = make_lightclient_script(
        code_hash_of_contract(lock_typeid_args),
        copy_bytes(owner_args),
    );
    let type_script = make_lightclient_script(
        code_hash_of_contract(contract_typeid_args),
        copy_bytes(client_id),
    );
    let mut outputs_data: Vec<Vec<u8>> = Vec::new();
    outputs_data.push(packed_client.encode());
    assert(blobs_view(outputs_data@) =~= seq![client_bytes(*packed_client)]);
    let outputs = build_outputs(&lock_script, &type_script, &outputs_data);
    let mut inputs: Vec<CellInput> = Vec::new();
    let mut inputs_as_cell_outputs: Vec<CellOutput> = Vec::new();
    let mut inputs_capacity: u64 = 0;
    match existing {
        Some(cell) => {
            inputs.push(CellInput { previous_output: cell.out_point, since: 0 });
            inputs_capacity = cell.output.capacity;
            inputs_as_cell_outputs.push(cell.output.duplicate());
            assert(existing_cells(*existing).drop_last() =~= Seq::<LiveCellView>::empty());
            assert(total_capacity(Seq::<LiveCellView>::empty()) == 0);
        },
        None => {},
    }
    assert(inputs@ =~= inputs_of(existing_cells(*existing)));
    assert(outputs_view(inputs_as_cell_outputs@) =~= outputs_of(existing_cells(*existing)));
    let draft = TransactionDraft {
        inputs,
        outputs,
        outputs_data,
        witnesses: build_proof_witness(proof_update),
        cell_deps: build_code_deps(contract_cell, lock_cell),
    };
    Assembled { draft, inputs_as_cell_outputs, inputs_capacity }
}

/// What is searched for to find the cells of a window.
#[derive(Clone, Debug, PartialEq, Eq)]
pub struct CellQuery {
    /// The code hash of the type script of the cells.
    pub code_hash: [u8; 32],
    /// The arguments of the type script of the cells.
    pub args: Vec<u8>,
    /// How many cells are asked for at most.
    pub limit: u32,
}

/// Says what to search for to find the cells of the window with the given
/// type arguments: the cells typed by the contract's script with these
/// arguments, as many as the window has.
pub fn update_cells_query(contract_typeid_args: &[u8; 32], client_type_args: &ClientTypeArgs) -> (q:
    CellQuery)
    ensures
        q.code_hash@ == contract_code_hash(contract_typeid_args@),
        q.args@ == client_type_args_bytes(*client_type_args),
        q.limit == client_type_args.cells_count,
{
    CellQuery {
        code_hash: code_hash_of_contract(contract_typeid_args),
        args: client_type_args.encode(),
        limit: client_type_args.cells_count as u32,
    }
}

/// Says what to search for to find the single client cell of the lighter
/// variant: the cell typed by the contract's script with the client's
/// identifier.
pub fn packed_client_query(contract_typeid_args: &[u8; 32], client_id: &Vec<u8>) -> (q: CellQuery)
    ensures
        q.code_hash@ == contract_code_hash(contract_typeid_args@),
        q.args@ == client_id@,
        q.limit == 1,
{
    CellQuery {
        code_hash: code_hash_of_contract(contract_typeid_args),
        args: copy_bytes(client_id),
        limit: 1,
    }
}

/// Reads the client record out of the cell that a search for the single
/// client cell found, if it found one.
pub fn decode_found_client(found: &Option<LiveCell>) -> (r: Result<Option<Client>, FormatError>)
    ensures
        match (*found, r) {
            (None, Ok(None)) => true,
            (Some(cell), Ok(Some(c))) => is_client_encoding(cell.output_data@, c),
            (Some(cell), Err(e)) => cell.output_data@.len() != CLIENT_LEN && e == (FormatError {
                kind: RecordKind::Client,
                expected_len: CLIENT_LEN,
                actual_len: cell.output_data@.len() as usize,
            }),
            _ => false,
        },
{
    match found {
        Some(cell) => match Client::decode(cell.output_data.as_slice()) {
            Ok(c) => Ok(Some(c)),
            Err(e) => Err(e),
        },
        None => Ok(None),
    }
}

/// The cells of a window after the drafted rotation has been committed: the
/// info cell and the client cell of the oldest slot hold what the draft's two
/// outputs hold, all other cells are as they were.
pub open spec fn successor_datas(datas: Seq<Seq<u8>>, outputs_data: Seq<Seq<u8>>) -> Seq<Seq<u8>> {
    datas.update(info_position(datas), outputs_data[0]).update(
        slot_position(datas, oldest_slot_of(datas)),
        outputs_data[1],
    )
}

/// A drafted rotation of a window in good order leaves a window in good
/// order. Where the draft consumes the cells picked for the update and the
/// new client record sits in the slot of the client that it replaces, the
/// cells after the transaction are again `n` cells with one info cell and
/// each slot taken once; the replaced slot is the most recent one, and the
/// slot after it is the oldest.
pub proof fn lemma_update_keeps_window(
    cells: Seq<LiveCell>,
    n: int,
    picked: UpdateCells,
    updated: Client,
)
    requires
        valid_group(cell_datas(cells), n),
        is_selection(cells, picked),
        updated.id == oldest_slot_of(cell_datas(cells)),
    ensures
        ({
            let datas = cell_datas(cells);
            let after = successor_datas(
                datas,
                update_outputs_data(picked.oldest@.output_data, picked.info@.output_data, updated),
            );
            &&& valid_group(after, n)
            &&& last_slot(after) == oldest_slot_of(datas)
            &&& oldest_slot_of(after) == next_slot(oldest_slot_of(datas), n - 1)
            &&& after == rotated(datas, client_bytes(updated))
        }),
{
    let datas = cell_datas(cells);
    let new_client = client_bytes(updated);
    lemma_rotation_keeps_window(datas, n, new_client);
    let k = info_position(datas);
    let o = slot_position(datas, oldest_slot_of(datas));
    assert(info_index(datas, k));
    assert(0 <= oldest_slot_of(datas) < n - 1) by {
        vstd::arithmetic::div_mod::lemma_mod_bound(last_slot(datas) + 1, n - 1);
    }
    lemma_every_slot_taken(datas, n, oldest_slot_of(datas));
    let out = update_outputs_data(picked.oldest@.output_data, picked.info@.output_data, updated);
    assert(out[0] =~= seq![datas[o][0], datas[k][1]]);
    assert(successor_datas(datas, out) =~= rotated(datas, new_client));
}

/// A window is created in good order where its records are: where each of
/// the clients sits in a slot of its own below their number and the info
/// record names one of these slots, the cells that the drafted creation
/// writes are a window with one info cell and each slot taken once.
pub proof fn lemma_create_makes_window(info: ClientInfo, clients: Seq<Client>)
    requires
        1 <= clients.len() < 255,
        info.last_id < clients.len(),
        forall|i: int| 0 <= i < clients.len() ==> (#[trigger] clients[i]).id < clients.len(),
        forall|i: int, j: int|
            0 <= i < j < clients.len() ==> (#[trigger] clients[i]).id != (#[trigger] clients[j]).id,
    ensures
        valid_group(create_outputs_data(info, clients), clients.len() as int + 1),
        last_slot(create_outputs_data(info, clients)) == info.last_id,
{
    let datas = create_outputs_data(info, clients);
    let n = clients.len() as int + 1;
    assert(is_info_data(datas[0]));
    assert forall|i: int| 1 <= i < n implies is_client_data(#[trigger] datas[i]) && slot_of(
        datas[i],
    ) == clients[i - 1].id by {
        assert(datas[i] == client_bytes(clients[i - 1]));
    }
    assert(info_index(datas, 0));
    assert(single_info_before(datas, n)) by {
        assert forall|i: int, j: int| 0 <= i < j < n implies !(is_info_data(#[trigger] datas[i])
            && is_info_data(#[trigger] datas[j])) by {
            assert(is_client_data(datas[j]));
        }
    }
    assert(recognised_before(datas, n)) by {
        assert forall|i: int| 0 <= i < n implies is_client_data(#[trigger] datas[i])
            || is_info_data(datas[i]) by {
            if i >= 1 {
                assert(is_client_data(datas[i]));
            }
        }
    }
    lemma_info_position(datas, 0);
    assert(slots_in_range_before(datas, n - 1, n)) by {
        assert forall|i: int| 0 <= i < n && is_client_data(#[trigger] datas[i]) implies slot_of(
            datas[i],
        ) < n - 1 by {
            assert(i >= 1);
            assert(slot_of(datas[i]) == clients[i - 1].id);
        }
    }
    assert(slots_distinct_before(datas, n)) by {
        assert forall|i: int, j: int|
            0 <= i < j < n && is_client_data(#[trigger] datas[i]) && is_client_data(
                #[trigger] datas[j],
            ) implies slot_of(datas[i]) != slot_of(datas[j]) by {
            assert(i >= 1);
            assert(slot_of(datas[i]) == clients[i - 1].id);
            assert(slot_of(datas[j]) == clients[j - 1].id);
        }
    }
}

} // verus!
