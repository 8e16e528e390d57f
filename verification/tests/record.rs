use ckb4ibc::bytes::{push_le16, push_le32, push_le64, read_le16, read_le32, read_le64};
use ckb4ibc::locator::{
    all_channels_script, channel_script, connection_script, make_lightclient_script, packet_script,
    same_script, ChannelArgs, PacketArgs,
};
use ckb4ibc::cell::ScriptHashType;
use ckb4ibc::record::{Client, ClientInfo, ClientTypeArgs, FormatError, RecordKind};

#[test]
fn client_round_trip() {
    let mut payload = [0u8; 80];
    for (i, b) in payload.iter_mut().enumerate() {
        *b = i as u8;
    }
    let c = Client { id: 5, payload };
    let bytes = c.encode();
    assert_eq!(bytes.len(), 81);
    assert_eq!(bytes[0], 5);
    assert_eq!(&bytes[1..], &payload[..]);
    assert_eq!(Client::decode(&bytes), Ok(c));
    assert!(Client::verify(&bytes));
}

#[test]
fn client_rejects_truncated_and_extended() {
    let bytes = Client { id: 5, payload: [1u8; 80] }.encode();
    assert_eq!(
        Client::decode(&bytes[..80]),
        Err(FormatError { kind: RecordKind::Client, expected_len: 81, actual_len: 80 })
    );
    let mut longer = bytes.clone();
    longer.push(0);
    assert_eq!(
        Client::decode(&longer),
        Err(FormatError { kind: RecordKind::Client, expected_len: 81, actual_len: 82 })
    );
    assert!(!Client::verify(&longer));
}

#[test]
fn client_info_round_trip() {
    let info = ClientInfo { last_id: 3, minimal_updates_count: 7 };
    assert_eq!(info.encode(), vec![3, 7]);
    assert_eq!(ClientInfo::decode(&[3, 7]), Ok(info));
    assert!(ClientInfo::verify(&[3, 7]));
    assert_eq!(
        ClientInfo::decode(&[3]),
        Err(FormatError { kind: RecordKind::ClientInfo, expected_len: 2, actual_len: 1 })
    );
    assert_eq!(
        ClientInfo::decode(&[3, 7, 0]),
        Err(FormatError { kind: RecordKind::ClientInfo, expected_len: 2, actual_len: 3 })
    );
}

#[test]
fn client_type_args_round_trip() {
    let args = ClientTypeArgs { type_id: [0xabu8; 32], cells_count: 4 };
    let bytes = args.encode();
    assert_eq!(bytes.len(), 33);
    assert_eq!(&bytes[..32], &[0xabu8; 32][..]);
    assert_eq!(bytes[32], 4);
    assert_eq!(ClientTypeArgs::decode(&bytes), Ok(args));
    assert_eq!(
        ClientTypeArgs::decode(&bytes[..32]),
        Err(FormatError { kind: RecordKind::ClientTypeArgs, expected_len: 33, actual_len: 32 })
    );
}

#[test]
fn a_record_is_of_one_kind_only() {
    let client = Client { id: 0, payload: [0u8; 80] }.encode();
    let info = ClientInfo { last_id: 0, minimal_updates_count: 0 }.encode();
    assert!(Client::verify(&client) && !ClientInfo::verify(&client));
    assert!(ClientInfo::verify(&info) && !Client::verify(&info));
}

#[test]
fn integers_are_little_endian() {
    let mut out = vec![];
    push_le16(&mut out, 0x0102);
    push_le32(&mut out, 0x0304_0506);
    push_le64(&mut out, 0x0708_090a_0b0c_0d0e);
    assert_eq!(
        out,
        vec![0x02, 0x01, 0x06, 0x05, 0x04, 0x03, 0x0e, 0x0d, 0x0c, 0x0b, 0x0a, 0x09, 0x08, 0x07]
    );
    assert_eq!(read_le16(&out, 0), 0x0102);
    assert_eq!(read_le32(&out, 2), 0x0304_0506);
    assert_eq!(read_le64(&out, 6), 0x0708_090a_0b0c_0d0e);
    let mut max = vec![];
    push_le64(&mut max, u64::MAX);
    assert_eq!(max, u64::MAX.to_le_bytes().to_vec());
    assert_eq!(read_le64(&max, 0), u64::MAX);
}

#[test]
fn channel_key_layout() {
    let key = ChannelArgs { client_id: [1u8; 32], open: true, channel_id: 0x0203, port_id: [4u8; 32] };
    let args = key.to_args();
    assert_eq!(args.len(), 67);
    assert_eq!(&args[..32], &[1u8; 32][..]);
    assert_eq!(args[32], 1);
    assert_eq!(&args[33..35], &[0x03, 0x02][..]);
    assert_eq!(&args[35..], &[4u8; 32][..]);
    let closed = ChannelArgs { open: false, ..key }.to_args();
    assert_eq!(closed[32], 0);
    let s = channel_script([9u8; 32], &key);
    assert_eq!(s.code_hash, [9u8; 32]);
    assert_eq!(s.hash_type, ScriptHashType::Type);
    assert_eq!(s.args, args);
    assert_eq!(all_channels_script([9u8; 32]).args, Vec::<u8>::new());
}

#[test]
fn packet_key_layout() {
    let key = PacketArgs { channel_id: 1, port_id: [4u8; 32], sequence: 0x0506, owner: [7u8; 32] };
    let search = key.get_search_args();
    assert_eq!(search.len(), 36);
    assert_eq!(&search[..2], &[1, 0][..]);
    assert_eq!(&search[2..34], &[4u8; 32][..]);
    assert_eq!(&search[34..], &[0x06, 0x05][..]);
    let full = key.to_args();
    assert_eq!(full.len(), 68);
    assert_eq!(&full[..36], &search[..]);
    assert_eq!(&full[36..], &[7u8; 32][..]);
    assert_eq!(packet_script([9u8; 32], &key).args, search);
    assert_eq!(connection_script([9u8; 32], &[3u8; 32]).args, vec![3u8; 32]);
}

#[test]
fn scripts_compare_by_value() {
    let a = make_lightclient_script([1u8; 32], vec![1, 2, 3]);
    let b = make_lightclient_script([1u8; 32], vec![1, 2, 3]);
    let c = make_lightclient_script([1u8; 32], vec![1, 2]);
    let d = make_lightclient_script([2u8; 32], vec![1, 2, 3]);
    assert!(same_script(&a, &b));
    assert!(!same_script(&a, &c));
    assert!(!same_script(&a, &d));
}

#[test]
fn packet_is_searched_by_the_low_bits_of_its_sequence() {
    let key = ckb4ibc::locator::packet_search_key(3, &[4u8; 32], 0x1_0005);
    assert_eq!(key, PacketArgs { channel_id: 3, port_id: [4u8; 32], sequence: 5, owner: [0u8; 32] });
}
