use ckb4ibc::cell::{CellOutput, LiveCell, OutPoint, Script, ScriptHashType};
use ckb4ibc::draft::draft_update_multi_client_transaction;
use ckb4ibc::record::{Client, ClientTypeArgs};
use ckb4ibc::ring::{select_update_cells, Corruption};

fn cell(data: Vec<u8>, index: u32) -> LiveCell {
    LiveCell {
        output: CellOutput {
            capacity: 1000,
            lock: Script { code_hash: [1u8; 32], hash_type: ScriptHashType::Type, args: vec![] },
            type_: None,
        },
        output_data: data,
        out_point: OutPoint { tx_hash: [9u8; 32], index },
        block_number: 7,
        tx_index: 0,
    }
}

fn client(id: u8) -> Vec<u8> {
    let mut data = vec![id];
    data.extend_from_slice(&[0xabu8; 80]);
    data
}

fn info(last_id: u8) -> Vec<u8> {
    vec![last_id, 1]
}

#[test]
fn window_of_four_with_last_id_one() {
    let cells = vec![cell(client(0), 0), cell(client(1), 1), cell(client(2), 2), cell(info(1), 3)];
    let picked = select_update_cells(&cells, 4).unwrap().unwrap();
    assert_eq!(picked.oldest.output_data[0], 2);
    assert_eq!(picked.latest.output_data[0], 1);
    assert_eq!(picked.oldest, cells[2]);
    assert_eq!(picked.latest, cells[1]);
    assert_eq!(picked.info, cells[3]);
}

#[test]
fn no_cells_is_no_window() {
    let cells: Vec<LiveCell> = vec![];
    assert_eq!(select_update_cells(&cells, 4), Ok(None));
}

#[test]
fn two_info_cells_are_reported_with_both_positions() {
    let cells = vec![cell(client(0), 0), cell(info(0), 1), cell(client(1), 2), cell(info(1), 3)];
    assert_eq!(
        select_update_cells(&cells, 4),
        Err(Corruption::DuplicateInfo { first: 1, second: 3 })
    );
}

#[test]
fn window_of_two_has_one_slot() {
    let cells = vec![cell(info(0), 0), cell(client(0), 1)];
    let picked = select_update_cells(&cells, 2).unwrap().unwrap();
    assert_eq!(picked.oldest, cells[1]);
    assert_eq!(picked.latest, cells[1]);
    assert_eq!(picked.info, cells[0]);
}

#[test]
fn oldest_wraps_round() {
    let cells = vec![cell(client(2), 0), cell(info(2), 1), cell(client(0), 2), cell(client(1), 3)];
    let picked = select_update_cells(&cells, 4).unwrap().unwrap();
    assert_eq!(picked.latest, cells[0]);
    assert_eq!(picked.oldest, cells[2]);
    assert_eq!(ckb4ibc::ring::oldest_slot(2, 3), 0);
    assert_eq!(ckb4ibc::ring::oldest_slot(0, 3), 1);
    assert_eq!(ckb4ibc::ring::oldest_slot(0, 1), 0);
    assert_eq!(ckb4ibc::ring::oldest_slot(253, 254), 0);
}

#[test]
fn each_fault_is_reported() {
    let three = vec![cell(client(0), 0), cell(client(1), 1), cell(info(1), 2)];
    assert_eq!(
        select_update_cells(&three, 4),
        Err(Corruption::CountMismatch { expected: 4, actual: 3 })
    );
    let garbage = vec![cell(client(0), 0), cell(vec![1, 2, 3], 1), cell(info(0), 2)];
    assert_eq!(select_update_cells(&garbage, 3), Err(Corruption::InvalidData { index: 1 }));
    let no_info = vec![cell(client(0), 0), cell(client(1), 1)];
    assert_eq!(select_update_cells(&no_info, 2), Err(Corruption::MissingInfo));
    let only_info = vec![cell(info(0), 0)];
    assert_eq!(select_update_cells(&only_info, 1), Err(Corruption::NoClientSlots));
    let only_client = vec![cell(client(0), 0)];
    assert_eq!(select_update_cells(&only_client, 1), Err(Corruption::MissingInfo));
    let last_id = vec![cell(client(0), 0), cell(client(1), 1), cell(info(2), 2)];
    assert_eq!(
        select_update_cells(&last_id, 3),
        Err(Corruption::LastIdOutOfRange { last_id: 2, slots: 2 })
    );
    let out_of_range = vec![cell(client(0), 0), cell(client(2), 1), cell(info(1), 2)];
    assert_eq!(
        select_update_cells(&out_of_range, 3),
        Err(Corruption::ClientIdOutOfRange { index: 1, id: 2 })
    );
    let twice = vec![cell(client(1), 0), cell(info(1), 1), cell(client(1), 2)];
    assert_eq!(
        select_update_cells(&twice, 3),
        Err(Corruption::DuplicateClientId { id: 1, first: 0, second: 2 })
    );
}

#[test]
fn layout_faults_come_before_slot_faults() {
    // a client out of range at 0, garbage at 2: the garbage is reported
    let cells = vec![cell(client(9), 0), cell(info(0), 1), cell(vec![], 2)];
    assert_eq!(select_update_cells(&cells, 3), Err(Corruption::InvalidData { index: 2 }));
}

#[test]
fn rotation_keeps_the_window_in_order() {
    let n: u8 = 4;
    let mut cells: Vec<LiveCell> =
        vec![cell(client(0), 0), cell(client(1), 1), cell(client(2), 2), cell(info(1), 3)];
    let args = ClientTypeArgs { type_id: [7u8; 32], cells_count: n };
    let code = cell(vec![], 100);
    let mut expected_last = 1u8;
    for round in 0..7u8 {
        let picked = select_update_cells(&cells, n).unwrap().unwrap();
        let expected_oldest = (expected_last + 1) % (n - 1);
        assert_eq!(picked.latest.output_data[0], expected_last);
        assert_eq!(picked.oldest.output_data[0], expected_oldest);
        let updated = Client { id: expected_oldest, payload: [round; 80] };
        let a = draft_update_multi_client_transaction(
            &code, &code, &picked.oldest, &picked.info, &updated, &args, &[1u8; 32], &[2u8; 32],
            &vec![],
        )
        .unwrap();
        // commit: the two consumed cells leave, the two created ones arrive
        assert_eq!(a.draft.inputs.len(), 2);
        cells.retain(|c| {
            a.draft.inputs.iter().all(|i| i.previous_output != c.out_point)
        });
        assert_eq!(cells.len(), (n - 2) as usize);
        for (k, data) in a.draft.outputs_data.iter().enumerate() {
            cells.push(cell(data.clone(), 1000 + 2 * round as u32 + k as u32));
        }
        assert_eq!(cells.len(), n as usize);
        expected_last = expected_oldest;
    }
    let picked = select_update_cells(&cells, n).unwrap().unwrap();
    assert_eq!(picked.info.output_data, vec![expected_last, 1]);
}

#[test]
fn window_of_two_rotates_in_place() {
    let mut cells = vec![cell(info(0), 0), cell(client(0), 1)];
    let args = ClientTypeArgs { type_id: [7u8; 32], cells_count: 2 };
    let code = cell(vec![], 100);
    for round in 0..3u8 {
        let picked = select_update_cells(&cells, 2).unwrap().unwrap();
        assert_eq!(picked.oldest, picked.latest);
        assert_eq!(picked.oldest.output_data[0], 0);
        let a = draft_update_multi_client_transaction(
            &code, &code, &picked.oldest, &picked.info, &Client { id: 0, payload: [round; 80] },
            &args, &[1u8; 32], &[2u8; 32], &vec![],
        )
        .unwrap();
        cells = a
            .draft
            .outputs_data
            .iter()
            .enumerate()
            .map(|(k, d)| cell(d.clone(), 10 + 2 * round as u32 + k as u32))
            .collect();
    }
}
