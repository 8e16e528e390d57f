use ckb4ibc::codec::CodecError;
use ckb4ibc::ibc::{
    Channel, ChannelOrder, ConnectionEnd, ConnectionSet, Packet, PacketRecord, PacketStatus, State,
};

fn end(n: u8) -> ConnectionEnd {
    ConnectionEnd {
        state: State::Open,
        client_id: vec![n; 3],
        counterparty_client_id: b"07-tendermint-0".to_vec(),
        counterparty_connection_id: vec![],
        delay_period: 1000 + n as u64,
    }
}

fn channel() -> Channel {
    Channel {
        number: 7,
        port_id: b"transfer".to_vec(),
        state: State::OpenTry,
        order: ChannelOrder::Unordered,
        next_sequence_sends: 1,
        next_sequence_recvs: 2,
        next_sequence_acks: 3,
        counterparty_port_id: b"transfer".to_vec(),
        counterparty_channel_id: b"channel-9".to_vec(),
        connection_id: b"connection-0".to_vec(),
    }
}

fn record(status: PacketStatus, tx_hash: Option<[u8; 32]>) -> PacketRecord {
    PacketRecord {
        packet: Packet {
            sequence: 12,
            source_port_id: vec![1u8; 32],
            source_channel_id: b"channel-1".to_vec(),
            destination_port_id: vec![2u8; 32],
            destination_channel_id: b"channel-2".to_vec(),
            data: vec![0xde, 0xad],
            timeout_height: 99,
            timeout_timestamp: u64::MAX,
        },
        tx_hash,
        status,
    }
}

#[test]
fn connection_set_round_trip() {
    let set = ConnectionSet { next_channel_number: 3, connections: vec![end(1), end(2)] };
    let bytes = set.encode();
    assert_eq!(ConnectionSet::decode(&bytes), Ok(set));
    let empty = ConnectionSet { next_channel_number: 0, connections: vec![] };
    assert_eq!(empty.encode(), vec![0, 0, 0, 0, 0, 0]);
    assert_eq!(ConnectionSet::decode(&empty.encode()), Ok(empty));
}

#[test]
fn connection_set_layout() {
    let set = ConnectionSet {
        next_channel_number: 0x0102,
        connections: vec![ConnectionEnd {
            state: State::Init,
            client_id: vec![0xaa],
            counterparty_client_id: vec![],
            counterparty_connection_id: vec![0xbb, 0xcc],
            delay_period: 5,
        }],
    };
    let expected: Vec<u8> = vec![
        0x02, 0x01, // next channel number
        1, 0, 0, 0, // count
        2, // state
        1, 0, 0, 0, 0xaa, // client id
        0, 0, 0, 0, // counterparty client id
        2, 0, 0, 0, 0xbb, 0xcc, // counterparty connection id
        5, 0, 0, 0, 0, 0, 0, 0, // delay period
    ];
    assert_eq!(set.encode(), expected);
}

#[test]
fn channel_round_trip() {
    let c = channel();
    let bytes = c.encode();
    assert_eq!(&bytes[..2], &[7, 0][..]);
    assert_eq!(Channel::decode(&bytes), Ok(c));
}

#[test]
fn packet_record_round_trip() {
    for status in [PacketStatus::Send, PacketStatus::Recv, PacketStatus::InboxAck, PacketStatus::OutboxAck] {
        for tx_hash in [None, Some([0x5au8; 32])] {
            let r = record(status, tx_hash);
            assert_eq!(PacketRecord::decode(&r.encode()), Ok(r));
        }
    }
}

#[test]
fn truncated_records_are_malformed() {
    let bytes = channel().encode();
    for cut in 0..bytes.len() {
        assert_eq!(Channel::decode(&bytes[..cut]), Err(CodecError::Malformed), "cut at {}", cut);
    }
    let bytes = record(PacketStatus::Send, Some([1u8; 32])).encode();
    for cut in 0..bytes.len() {
        assert_eq!(PacketRecord::decode(&bytes[..cut]), Err(CodecError::Malformed));
    }
    let bytes = ConnectionSet { next_channel_number: 3, connections: vec![end(1), end(2)] }.encode();
    for cut in 0..bytes.len() {
        assert_eq!(ConnectionSet::decode(&bytes[..cut]), Err(CodecError::Malformed));
    }
}

#[test]
fn extended_records_are_rejected() {
    let mut bytes = channel().encode();
    bytes.extend_from_slice(&[0, 0, 0]);
    assert_eq!(Channel::decode(&bytes), Err(CodecError::TrailingBytes { extra: 3 }));
    let mut bytes = record(PacketStatus::Recv, None).encode();
    bytes.push(1);
    assert_eq!(PacketRecord::decode(&bytes), Err(CodecError::TrailingBytes { extra: 1 }));
    let mut bytes = ConnectionSet { next_channel_number: 3, connections: vec![end(1)] }.encode();
    bytes.push(1);
    assert_eq!(ConnectionSet::decode(&bytes), Err(CodecError::TrailingBytes { extra: 1 }));
}

#[test]
fn unknown_tags_are_malformed() {
    let mut bytes = record(PacketStatus::Send, None).encode();
    let last = bytes.len() - 1;
    assert_eq!(bytes[last], 1);
    bytes[last] = 5;
    assert_eq!(PacketRecord::decode(&bytes), Err(CodecError::Malformed));
    bytes[last] = 0;
    assert_eq!(PacketRecord::decode(&bytes), Err(CodecError::Malformed));
    let mut bytes = channel().encode();
    // number (2), port id (4 + 8), then the state
    assert_eq!(bytes[14], 3);
    bytes[14] = 7;
    assert_eq!(Channel::decode(&bytes), Err(CodecError::Malformed));
}

#[test]
fn tags_count_from_one() {
    assert_eq!(State::Unknown.tag(), 1);
    assert_eq!(State::Frozen.tag(), 6);
    assert_eq!(State::from_tag(4), Some(State::Open));
    assert_eq!(State::from_tag(0), None);
    assert_eq!(State::from_tag(7), None);
    assert_eq!(ChannelOrder::Ordered.tag(), 3);
    assert_eq!(ChannelOrder::from_tag(2), Some(ChannelOrder::Unordered));
    assert_eq!(PacketStatus::InboxAck.tag(), 3);
    assert_eq!(PacketStatus::from_tag(2), Some(PacketStatus::Recv));
}
