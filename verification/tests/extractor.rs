use ckb4ibc::cell::{CellInput, CellOutput, OutPoint, Script, ScriptHashType};
use ckb4ibc::codec::CodecError;
use ckb4ibc::extractor::{
    extract_channel_end_from_tx, extract_connections_from_tx, extract_ibc_packet_from_tx,
    find_output, query_channels, ExtractError, FetchedTransaction, ResolvedTransaction, TxStatus,
};
use ckb4ibc::ibc::{
    Channel, ChannelOrder, ConnectionEnd, ConnectionSet, Packet, PacketRecord, PacketStatus, State,
};
use ckb4ibc::locator::{channel_script, ChannelArgs};

fn script(args: Vec<u8>) -> Script {
    Script { code_hash: [8u8; 32], hash_type: ScriptHashType::Type, args }
}

fn output(type_: Option<Script>) -> CellOutput {
    CellOutput { capacity: 10, lock: script(vec![0xff]), type_ }
}

fn channel(number: u16) -> Channel {
    Channel {
        number,
        port_id: b"transfer".to_vec(),
        state: State::Open,
        order: ChannelOrder::Ordered,
        next_sequence_sends: 1,
        next_sequence_recvs: 1,
        next_sequence_acks: 1,
        counterparty_port_id: b"transfer".to_vec(),
        counterparty_channel_id: b"channel-0".to_vec(),
        connection_id: b"connection-0".to_vec(),
    }
}

fn input(hash: u8, index: u32) -> CellInput {
    CellInput { previous_output: OutPoint { tx_hash: [hash; 32], index }, since: 0 }
}

#[test]
fn channel_is_recovered_from_the_matching_output() {
    let wanted = script(vec![1]);
    let tx = ResolvedTransaction {
        hash: [0x42u8; 32],
        outputs: vec![output(None), output(Some(script(vec![2]))), output(Some(wanted.clone()))],
        outputs_data: vec![vec![], vec![9, 9], channel(5).encode()],
    };
    assert_eq!(find_output(&tx, &wanted), Some(2));
    assert_eq!(extract_channel_end_from_tx(&tx, &wanted), Ok((channel(5), input(0x42, 2))));
}

#[test]
fn first_of_several_matching_outputs_is_taken() {
    let wanted = script(vec![1]);
    let tx = ResolvedTransaction {
        hash: [0x42u8; 32],
        outputs: vec![output(Some(wanted.clone())), output(Some(wanted.clone()))],
        outputs_data: vec![channel(1).encode(), channel(2).encode()],
    };
    assert_eq!(extract_channel_end_from_tx(&tx, &wanted), Ok((channel(1), input(0x42, 0))));
}

#[test]
fn extraction_reports_what_is_missing() {
    let wanted = script(vec![1]);
    let none = ResolvedTransaction {
        hash: [1u8; 32],
        outputs: vec![output(None), output(Some(script(vec![2])))],
        outputs_data: vec![vec![], vec![]],
    };
    assert_eq!(find_output(&none, &wanted), None);
    assert_eq!(extract_channel_end_from_tx(&none, &wanted), Err(ExtractError::NotFound));
    assert_eq!(extract_connections_from_tx(&none, &wanted), Err(ExtractError::NotFound));
    assert_eq!(extract_ibc_packet_from_tx(&none, &wanted), Err(ExtractError::NotFound));

    let no_data = ResolvedTransaction {
        hash: [1u8; 32],
        outputs: vec![output(None), output(Some(wanted.clone()))],
        outputs_data: vec![vec![]],
    };
    assert_eq!(
        extract_channel_end_from_tx(&no_data, &wanted),
        Err(ExtractError::MissingData { index: 1 })
    );

    let garbage = ResolvedTransaction {
        hash: [1u8; 32],
        outputs: vec![output(Some(wanted.clone()))],
        outputs_data: vec![vec![1, 2, 3]],
    };
    assert_eq!(
        extract_channel_end_from_tx(&garbage, &wanted),
        Err(ExtractError::Codec(CodecError::Malformed))
    );
    let mut extended = channel(1).encode();
    extended.push(0);
    let trailing = ResolvedTransaction {
        hash: [1u8; 32],
        outputs: vec![output(Some(wanted.clone()))],
        outputs_data: vec![extended],
    };
    assert_eq!(
        extract_channel_end_from_tx(&trailing, &wanted),
        Err(ExtractError::Codec(CodecError::TrailingBytes { extra: 1 }))
    );
}

#[test]
fn connections_and_packets_are_recovered() {
    let wanted = script(vec![1]);
    let set = ConnectionSet {
        next_channel_number: 2,
        connections: vec![ConnectionEnd {
            state: State::Open,
            client_id: vec![1],
            counterparty_client_id: vec![2],
            counterparty_connection_id: vec![3],
            delay_period: 4,
        }],
    };
    let tx = ResolvedTransaction {
        hash: [7u8; 32],
        outputs: vec![output(Some(wanted.clone()))],
        outputs_data: vec![set.encode()],
    };
    assert_eq!(extract_connections_from_tx(&tx, &wanted), Ok((set, input(7, 0))));

    let record = PacketRecord {
        packet: Packet {
            sequence: 1,
            source_port_id: vec![1u8; 32],
            source_channel_id: vec![],
            destination_port_id: vec![],
            destination_channel_id: vec![],
            data: vec![1, 2, 3],
            timeout_height: 0,
            timeout_timestamp: 0,
        },
        tx_hash: None,
        status: PacketStatus::Send,
    };
    let tx = ResolvedTransaction {
        hash: [7u8; 32],
        outputs: vec![output(None), output(Some(wanted.clone()))],
        outputs_data: vec![vec![], record.encode()],
    };
    assert_eq!(extract_ibc_packet_from_tx(&tx, &wanted), Ok((record, input(7, 1))));
}

#[test]
fn not_open_channel_is_found_under_its_own_script_only() {
    let key = ChannelArgs { client_id: [1u8; 32], open: false, channel_id: 3, port_id: [2u8; 32] };
    let not_open = channel_script([8u8; 32], &key);
    let open = channel_script([8u8; 32], &ChannelArgs { open: true, ..key });
    let tx = ResolvedTransaction {
        hash: [7u8; 32],
        outputs: vec![output(Some(not_open.clone()))],
        outputs_data: vec![channel(3).encode()],
    };
    assert_eq!(extract_channel_end_from_tx(&tx, &open), Err(ExtractError::NotFound));
    assert_eq!(extract_channel_end_from_tx(&tx, &not_open), Ok((channel(3), input(7, 0))));
}

#[test]
fn listing_passes_over_what_holds_no_committed_channel() {
    let wanted = script(vec![1]);
    let good = |n: u16| ResolvedTransaction {
        hash: [n as u8; 32],
        outputs: vec![output(Some(wanted.clone()))],
        outputs_data: vec![channel(n).encode()],
    };
    let bad = ResolvedTransaction {
        hash: [9u8; 32],
        outputs: vec![output(Some(wanted.clone()))],
        outputs_data: vec![vec![0]],
    };
    let item = |status, transaction| FetchedTransaction { predicate: wanted.clone(), status, transaction };
    let fetched = vec![
        item(TxStatus::Committed, Some(good(1))),
        item(TxStatus::Pending, Some(good(2))),
        item(TxStatus::Committed, None),
        item(TxStatus::Committed, Some(bad)),
        item(TxStatus::Committed, Some(good(3))),
    ];
    assert_eq!(query_channels(&fetched), vec![channel(1), channel(3)]);
    assert_eq!(query_channels(&vec![]), vec![]);
}
