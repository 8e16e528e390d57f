use ckb4ibc::cache::{PacketKey, StateCache};
use ckb4ibc::cell::{CellInput, CellOutput, LiveCell, OutPoint, Script, ScriptHashType, TransactionDraft};
use ckb4ibc::config::{check_contract_cells, ChainConfig, Contract, ContractMissing, ContractOutPoints};
use ckb4ibc::ibc::{ConnectionEnd, Packet, PacketRecord, PacketStatus, State};
use ckb4ibc::query::{
    channel_lookup_next, channels_page, first_cell, network_of_chain, query_application_status,
    query_balance, query_connection, query_packet_acknowledgement, query_packet_acknowledgements,
    query_packet_commitment, query_packet_receipt, query_unreceived_acknowledgements,
    ChainStatus, ChannelLookup, FoundPacket, LookupStep, NetworkType, QueryError,
};
use ckb4ibc::submit::{
    add_envelope_witnesses, committed_events, plan_message, report_without_transaction,
    MessagePlan, Outcome, Report, SendError,
};

fn record(sequence: u16, status: PacketStatus, tx_hash: Option<[u8; 32]>) -> PacketRecord {
    PacketRecord {
        packet: Packet {
            sequence,
            source_port_id: vec![0x11u8; 32],
            source_channel_id: vec![],
            destination_port_id: vec![],
            destination_channel_id: vec![],
            data: vec![],
            timeout_height: 0,
            timeout_timestamp: 0,
        },
        tx_hash,
        status,
    }
}

fn input(n: u8) -> CellInput {
    CellInput { previous_output: OutPoint { tx_hash: [n; 32], index: 0 }, since: 0 }
}

fn cell(capacity: u64, typed: bool) -> LiveCell {
    let script = Script { code_hash: [0u8; 32], hash_type: ScriptHashType::Data, args: vec![] };
    LiveCell {
        output: CellOutput {
            capacity,
            lock: script.clone(),
            type_: if typed { Some(script) } else { None },
        },
        output_data: vec![],
        out_point: OutPoint { tx_hash: [0u8; 32], index: 0 },
        block_number: 0,
        tx_index: 0,
    }
}

#[test]
fn network_is_told_from_the_chain_name() {
    assert_eq!(network_of_chain(b"ckb"), NetworkType::Mainnet);
    assert_eq!(network_of_chain(b"ckb_testnet"), NetworkType::Testnet);
    assert_eq!(network_of_chain(b"ckb_dev"), NetworkType::Dev);
    assert_eq!(network_of_chain(b""), NetworkType::Dev);
    assert_eq!(network_of_chain(b"ckb_testne"), NetworkType::Dev);
}

#[test]
fn not_open_channel_ends_the_search_at_once() {
    let first = ChannelLookup::start();
    assert_eq!(first, ChannelLookup::NotOpen);
    assert!(!first.is_open());
    let step: LookupStep<u8, &str> = channel_lookup_next(first, Ok(7));
    assert_eq!(step, LookupStep::Done(Ok(7)));
}

#[test]
fn open_channel_is_searched_after_the_not_open_one_and_ends_the_search() {
    let step: LookupStep<u8, &str> = channel_lookup_next(ChannelLookup::NotOpen, Err("none"));
    assert_eq!(step, LookupStep::Search(ChannelLookup::Open));
    assert!(ChannelLookup::Open.is_open());
    let found: LookupStep<u8, &str> = channel_lookup_next(ChannelLookup::Open, Ok(9));
    assert_eq!(found, LookupStep::Done(Ok(9)));
    let failed: LookupStep<u8, &str> = channel_lookup_next(ChannelLookup::Open, Err("still none"));
    assert_eq!(failed, LookupStep::Done(Err("still none")));
}

#[test]
fn commitment_of_a_received_packet_is_empty() {
    let received = record(3, PacketStatus::Recv, None);
    assert_eq!(query_packet_commitment(&received, 1), Ok(vec![]));
}

#[test]
fn commitment_of_a_sent_packet_is_its_path() {
    let sent = record(0x0304, PacketStatus::Send, None);
    let mut path = vec![0x02, 0x01];
    path.extend_from_slice(&[0x11u8; 32]);
    path.extend_from_slice(&[0x04, 0x03]);
    assert_eq!(query_packet_commitment(&sent, 0x0102), Ok(path.clone()));
    assert_eq!(query_packet_receipt(&sent, 0x0102), Ok(vec![]));
    let received = record(0x0304, PacketStatus::Recv, None);
    assert_eq!(query_packet_receipt(&received, 0x0102), Ok(path));
}

#[test]
fn path_needs_a_port_of_32_bytes() {
    let mut sent = record(1, PacketStatus::Send, None);
    sent.packet.source_port_id = b"transfer".to_vec();
    assert_eq!(query_packet_commitment(&sent, 1), Err(QueryError::PortIdLength { len: 8 }));
    assert_eq!(query_packet_receipt(&sent, 1), Ok(vec![]));
}

#[test]
fn acknowledgement_is_the_hash_of_its_transaction() {
    assert_eq!(query_packet_acknowledgement(&record(1, PacketStatus::Send, Some([1u8; 32]))), Ok(vec![]));
    assert_eq!(
        query_packet_acknowledgement(&record(1, PacketStatus::InboxAck, Some([0x7eu8; 32]))),
        Ok(vec![0x7eu8; 32])
    );
    assert_eq!(
        query_packet_acknowledgement(&record(1, PacketStatus::InboxAck, None)),
        Err(QueryError::MissingTxHash)
    );
}

#[test]
fn acknowledged_and_unacknowledged_sequences() {
    let found = vec![
        FoundPacket { record: record(1, PacketStatus::Send, None), input: input(1) },
        FoundPacket { record: record(2, PacketStatus::InboxAck, None), input: input(2) },
        FoundPacket { record: record(3, PacketStatus::Recv, None), input: input(3) },
        FoundPacket { record: record(4, PacketStatus::Send, None), input: input(4) },
        FoundPacket { record: record(5, PacketStatus::InboxAck, None), input: input(5) },
    ];
    assert_eq!(query_packet_acknowledgements(&found), vec![2, 5]);
    let mut cache = StateCache::new();
    let port = [0x11u8; 32];
    assert_eq!(query_unreceived_acknowledgements(&mut cache, 7, &port, &found), vec![1, 4]);
    assert_eq!(
        cache.get_packet(&PacketKey { channel_id: 7, port_id: port, sequence: 1 }),
        Some(&input(1))
    );
    assert_eq!(
        cache.get_packet(&PacketKey { channel_id: 7, port_id: port, sequence: 4 }),
        Some(&input(4))
    );
    assert_eq!(cache.get_packet(&PacketKey { channel_id: 7, port_id: port, sequence: 2 }), None);
    assert_eq!(cache.packets.len(), 2);
}

#[test]
fn pages_default_to_a_hundred_from_the_start() {
    let page = channels_page(None);
    assert_eq!(page.limit, 100);
    assert_eq!(page.cursor, vec![0, 0, 0, 0]);
    let page = channels_page(Some((20, 0x0102_0304)));
    assert_eq!(page.limit, 20);
    assert_eq!(page.cursor, vec![1, 2, 3, 4]);
    // only the low 32 bits of either number count
    let page = channels_page(Some(((1u64 << 32) + 5, (7u64 << 32) + 6)));
    assert_eq!(page.limit, 5);
    assert_eq!(page.cursor, vec![0, 0, 0, 6]);
}

#[test]
fn connection_is_found_by_its_number() {
    let end = |n: u8| ConnectionEnd {
        state: State::Open,
        client_id: vec![n],
        counterparty_client_id: vec![],
        counterparty_connection_id: vec![],
        delay_period: 0,
    };
    let ends = vec![end(0), end(1)];
    assert_eq!(query_connection(&ends, 1), Ok(end(1)));
    assert_eq!(query_connection(&ends, 2), Err(QueryError::ConnectionIdInvalid { index: 2 }));
}

#[test]
fn first_cell_or_none() {
    let cells = vec![cell(1, false), cell(2, false)];
    assert_eq!(first_cell(&cells), Ok(&cells[0]));
    assert_eq!(first_cell(&vec![]), Err(QueryError::NoCell));
}

#[test]
fn status_of_the_tip() {
    assert_eq!(
        query_application_status(15, 1_700_000_000_123),
        Ok(ChainStatus {
            revision_number: 1,
            revision_height: 15,
            timestamp_nanos: 1_700_000_000_123_000_000
        })
    );
    assert_eq!(query_application_status(0, 5), Err(QueryError::ZeroHeight));
    assert_eq!(
        query_application_status(1, u64::MAX / 1_000_000 + 1),
        Err(QueryError::TimestampOverflow)
    );
    assert_eq!(
        query_application_status(1, u64::MAX / 1_000_000),
        Ok(ChainStatus {
            revision_number: 1,
            revision_height: 1,
            timestamp_nanos: (u64::MAX / 1_000_000) * 1_000_000
        })
    );
}

#[test]
fn balance_counts_cells_without_type_script() {
    assert_eq!(query_balance(&vec![cell(5, false), cell(100, true), cell(7, false)]), Ok(12));
    assert_eq!(query_balance(&vec![]), Ok(0));
    assert_eq!(
        query_balance(&vec![cell(u64::MAX, false), cell(1, true), cell(1, false)]),
        Err(QueryError::BalanceOverflow)
    );
    assert_eq!(query_balance(&vec![cell(u64::MAX, false), cell(1, true)]), Ok(u64::MAX));
}

#[test]
fn messages_are_planned() {
    assert_eq!(plan_message(true, true), MessagePlan::Submit);
    assert_eq!(plan_message(true, false), MessagePlan::Submit);
    assert_eq!(plan_message(false, true), MessagePlan::ReportOnly);
    assert_eq!(plan_message(false, false), MessagePlan::Skip);
    assert_eq!(
        report_without_transaction(3),
        Report { message: 3, revision_number: 1, revision_height: 1, tx_hash: [0u8; 32] }
    );
}

#[test]
fn committed_round_reports_its_events() {
    let outcomes = vec![
        Outcome { has_event: true, tx_hash: [1u8; 32], committed: true },
        Outcome { has_event: false, tx_hash: [2u8; 32], committed: true },
        Outcome { has_event: true, tx_hash: [3u8; 32], committed: true },
    ];
    assert_eq!(
        committed_events(&outcomes),
        Ok(vec![
            Report { message: 0, revision_number: 1, revision_height: 1, tx_hash: [1u8; 32] },
            Report { message: 2, revision_number: 1, revision_height: 1, tx_hash: [3u8; 32] },
        ])
    );
    assert_eq!(committed_events(&vec![]), Ok(vec![]));
}

#[test]
fn round_fails_with_the_first_uncommitted_transaction() {
    let outcomes = vec![
        Outcome { has_event: true, tx_hash: [1u8; 32], committed: true },
        Outcome { has_event: true, tx_hash: [2u8; 32], committed: false },
        Outcome { has_event: true, tx_hash: [3u8; 32], committed: false },
    ];
    assert_eq!(committed_events(&outcomes), Err(SendError { message: 1 }));
}

#[test]
fn envelope_goes_behind_a_placeholder() {
    let mut draft = TransactionDraft {
        inputs: vec![],
        outputs: vec![],
        outputs_data: vec![],
        witnesses: vec![vec![0xaa]],
        cell_deps: vec![],
    };
    add_envelope_witnesses(&mut draft, &vec![1, 2, 3]);
    let placeholder: Vec<u8> = vec![16, 0, 0, 0, 16, 0, 0, 0, 16, 0, 0, 0, 16, 0, 0, 0];
    let envelope: Vec<u8> =
        vec![23, 0, 0, 0, 16, 0, 0, 0, 16, 0, 0, 0, 16, 0, 0, 0, 3, 0, 0, 0, 1, 2, 3];
    assert_eq!(draft.witnesses, vec![vec![0xaa], placeholder, envelope]);
}

#[test]
fn endpoint_needs_all_four_contracts() {
    let p = |n: u8| Some(OutPoint { tx_hash: [n; 32], index: n as u32 });
    assert_eq!(
        check_contract_cells(p(1), p(2), p(3), p(4)),
        Ok(ContractOutPoints {
            client: p(1).unwrap(),
            connection: p(2).unwrap(),
            channel: p(3).unwrap(),
            packet: p(4).unwrap()
        })
    );
    assert_eq!(
        check_contract_cells(None, None, p(3), p(4)),
        Err(ContractMissing { contract: Contract::Client })
    );
    assert_eq!(
        check_contract_cells(p(1), None, None, p(4)),
        Err(ContractMissing { contract: Contract::Connection })
    );
    assert_eq!(
        check_contract_cells(p(1), p(2), None, None),
        Err(ContractMissing { contract: Contract::Channel })
    );
    assert_eq!(
        check_contract_cells(p(1), p(2), p(3), None),
        Err(ContractMissing { contract: Contract::Packet })
    );
}

#[test]
fn client_id_is_the_client_type_args() {
    let config = ChainConfig {
        id: "ckb4ibc-0".to_string(),
        counter_chain: "axon-0".to_string(),
        ckb_rpc: "http://127.0.0.1:8114".to_string(),
        ckb_indexer_rpc: "http://127.0.0.1:8116".to_string(),
        key_name: "relayer".to_string(),
        client_type_args: [1u8; 32],
        connection_type_args: [2u8; 32],
        channel_type_args: [3u8; 32],
        packet_type_args: [4u8; 32],
    };
    assert_eq!(config.client_id(), [1u8; 32]);
}
