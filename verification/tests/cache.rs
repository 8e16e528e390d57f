use ckb4ibc::cache::{ChannelKey, PacketKey, SameValue, StateCache, Table};
use ckb4ibc::cell::{CellInput, OutPoint};
use ckb4ibc::ibc::{Channel, ChannelOrder, ConnectionSet, State};

fn input(n: u8) -> CellInput {
    CellInput { previous_output: OutPoint { tx_hash: [n; 32], index: n as u32 }, since: 0 }
}

fn channel(number: u16) -> Channel {
    Channel {
        number,
        port_id: vec![],
        state: State::Open,
        order: ChannelOrder::Ordered,
        next_sequence_sends: 0,
        next_sequence_recvs: 0,
        next_sequence_acks: 0,
        counterparty_port_id: vec![],
        counterparty_channel_id: vec![],
        connection_id: vec![],
    }
}

#[test]
fn table_remembers_the_latest_value_of_each_key() {
    let mut t: Table<PacketKey, CellInput> = Table::new();
    let a = PacketKey { channel_id: 1, port_id: [1u8; 32], sequence: 1 };
    let b = PacketKey { channel_id: 1, port_id: [1u8; 32], sequence: 2 };
    assert_eq!(t.len(), 0);
    assert_eq!(t.get(&a), None);
    t.put(a, input(1));
    t.put(b, input(2));
    assert_eq!(t.get(&a), Some(&input(1)));
    assert_eq!(t.get(&b), Some(&input(2)));
    t.put(a, input(3));
    assert_eq!(t.get(&a), Some(&input(3)));
    assert_eq!(t.get(&b), Some(&input(2)));
    assert_eq!(t.len(), 2);
    t.clear();
    assert_eq!(t.len(), 0);
    assert_eq!(t.get(&a), None);
    assert_eq!(t.get(&b), None);
}

#[test]
fn keys_differ_in_any_field() {
    let a = ChannelKey { channel_id: 1, port_id: [1u8; 32] };
    assert!(a.same(&ChannelKey { channel_id: 1, port_id: [1u8; 32] }));
    assert!(!a.same(&ChannelKey { channel_id: 2, port_id: [1u8; 32] }));
    assert!(!a.same(&ChannelKey { channel_id: 1, port_id: [2u8; 32] }));
    let p = PacketKey { channel_id: 1, port_id: [1u8; 32], sequence: 5 };
    assert!(p.same(&PacketKey { channel_id: 1, port_id: [1u8; 32], sequence: 5 }));
    assert!(!p.same(&PacketKey { channel_id: 1, port_id: [1u8; 32], sequence: 6 }));
}

#[test]
fn clearing_the_cache_forgets_all_three_maps() {
    let mut cache = StateCache::new();
    assert!(cache.connection.is_none());
    let key = ChannelKey { channel_id: 1, port_id: [1u8; 32] };
    let packet = PacketKey { channel_id: 1, port_id: [1u8; 32], sequence: 9 };
    cache.put_connection(ConnectionSet { next_channel_number: 1, connections: vec![] }, input(1));
    cache.put_channel(key, channel(1), input(2));
    cache.put_packet(packet, input(3));
    assert_eq!(
        cache.connection,
        Some((ConnectionSet { next_channel_number: 1, connections: vec![] }, input(1)))
    );
    assert_eq!(cache.get_channel(&key), Some(&(channel(1), input(2))));
    assert_eq!(cache.get_packet(&packet), Some(&input(3)));
    // the connection cache holds one entry at most
    cache.put_connection(ConnectionSet { next_channel_number: 2, connections: vec![] }, input(4));
    assert_eq!(
        cache.connection,
        Some((ConnectionSet { next_channel_number: 2, connections: vec![] }, input(4)))
    );
    cache.clear();
    assert!(cache.connection.is_none());
    assert_eq!(cache.get_channel(&key), None);
    assert_eq!(cache.get_packet(&packet), None);
}
