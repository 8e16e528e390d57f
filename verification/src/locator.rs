//! Scripts by which the cells of the protocol are found.
//!
//! A contract is known by the arguments of its type-id script; the hash of
//! that script is the code hash of the scripts that the contract guards. A
//! channel or a packet is found by a script whose arguments hold its key.

use crate::bytes::{append_bytes, le16, push_le16, same_bytes, same_hash};
use crate::cell::{Script, ScriptHashType, ScriptView};
use crate::ledger::{ckb_script_hash, ckb_type_id_code_hash, script_hash_of, type_id_code_hash};
use vstd::prelude::*;

verus! {

/// The type-id script with the given arguments.
pub open spec fn typeid_script(type_args: Seq<u8>) -> ScriptView {
    ScriptView { code_hash: type_id_code_hash(), hash_type: ScriptHashType::Type, args: type_args }
}

/// The script that the contract with the hash `code_hash` guards, with the
/// given arguments.
pub open spec fn contract_script(code_hash: Seq<u8>, args: Seq<u8>) -> ScriptView {
    ScriptView { code_hash, hash_type: ScriptHashType::Type, args }
}

/// The ledger's hash of a script.
pub open spec fn hash_of_script(s: ScriptView) -> Seq<u8> {
    script_hash_of(s.code_hash, s.hash_type.spec_tag(), s.args)
}

/// The code hash of the scripts guarded by the contract whose type-id script
/// has the arguments `typeid_args`.
pub open spec fn contract_code_hash(typeid_args: Seq<u8>) -> Seq<u8> {
    hash_of_script(typeid_script(typeid_args))
}

/// Builds the type-id script with the given arguments.
pub fn make_typeid_script(type_args: Vec<u8>) -> (s: Script)
    ensures
        s@ == typeid_script(type_args@),
{
    Script { code_hash: ckb_type_id_code_hash(), hash_type: ScriptHashType::Type, args: type_args }
}

/// Builds a script guarded by the contract with the hash `script_typehash`.
pub fn make_lightclient_script(script_typehash: [u8; 32], args: Vec<u8>) -> (s: Script)
    ensures
        s@ == contract_script(script_typehash@, args@),
{
    Script { code_hash: script_typehash, hash_type: ScriptHashType::Type, args }
}

/// Computes the ledger's hash of a script.
pub fn script_hash(s: &Script) -> (h: [u8; 32])
    ensures
        h@ == hash_of_script(s@),
{
    ckb_script_hash(&s.code_hash, s.hash_type.tag(), &s.args)
}

/// Computes the code hash of the scripts guarded by the contract whose
/// type-id script has the arguments `typeid_args`.
pub fn code_hash_of_contract(typeid_args: &[u8; 32]) -> (h: [u8; 32])
    ensures
        h@ == contract_code_hash(typeid_args@),
{
    let mut args: Vec<u8> = Vec::new();
    append_bytes(&mut args, typeid_args.as_slice());
    let script = make_typeid_script(args);
    script_hash(&script)
}

/// The key of a channel cell.
#[derive(Clone, Copy, Debug, PartialEq, Eq)]
pub struct ChannelArgs {
    pub client_id: [u8; 32],
    /// Whether the channel has completed its handshake.
    pub open: bool,
    pub channel_id: u16,
    pub port_id: [u8; 32],
}

/// The key of a packet cell.
#[derive(Clone, Copy, Debug, PartialEq, Eq)]
pub struct PacketArgs {
    pub channel_id: u16,
    pub port_id: [u8; 32],
    pub sequence: u16,
    pub owner: [u8; 32],
}

/// The byte that stands for a flag.
pub open spec fn flag_byte(flag: bool) -> u8 {
    if flag {
        1
    } else {
        0
    }
}

/// The arguments of the script of a channel cell: client id, open flag,
/// channel number and port id.
pub open spec fn channel_args_bytes(a: ChannelArgs) -> Seq<u8> {
    a.client_id@ + seq![flag_byte(a.open)] + le16(a.channel_id as nat) + a.port_id@
}

/// The arguments by which the cell of a packet is searched, whoever owns it:
/// channel number, port id and sequence number.
pub open spec fn packet_search_args(a: PacketArgs) -> Seq<u8> {
    le16(a.channel_id as nat) + a.port_id@ + le16(a.sequence as nat)
}

/// The arguments of the script of a packet cell: the search arguments, then
/// the owner.
pub open spec fn packet_args_bytes(a: PacketArgs) -> Seq<u8> {
    packet_search_args(a) + a.owner@
}

impl ChannelArgs {
    /// Encodes the key as script arguments.
    pub fn to_args(&self) -> (r: Vec<u8>)
        ensures
            r@ == channel_args_bytes(*self),
            r@.len() == 67,
    {
        let mut r: Vec<u8> = Vec::new();
        append_bytes(&mut r, self.client_id.as_slice());
        r.push(if self.open { 1 } else { 0 });
        push_le16(&mut r, self.channel_id);
        append_bytes(&mut r, self.port_id.as_slice());
        r
    }
}

impl PacketArgs {
    /// Encodes the part of the key by which a packet cell is searched.
    pub fn get_search_args(&self) -> (r: Vec<u8>)
        ensures
            r@ == packet_search_args(*self),
            r@.len() == 36,
    {
        let mut r: Vec<u8> = Vec::new();
        push_le16(&mut r, self.channel_id);
        append_bytes(&mut r, self.port_id.as_slice());
        push_le16(&mut r, self.sequence);
        r
    }

    /// Encodes the key as script arguments.
    pub fn to_args(&self) -> (r: Vec<u8>)
        ensures
            r@ == packet_args_bytes(*self),
            r@.len() == 68,
    {
        let mut r = self.get_search_args();
        append_bytes(&mut r, self.owner.as_slice());
        r
    }
}

/// The key by which the cell of the packet with the given sequence number
/// is searched, whoever owns it. A packet cell counts its sequence in two
/// bytes, so only the low 16 bits of the number are part of the key.
pub fn packet_search_key(channel_id: u16, port_id: &[u8; 32], sequence: u64) -> (key: PacketArgs)
    ensures
        key.channel_id == channel_id,
        key.port_id == *port_id,
        key.sequence == sequence % 65536,
        key.owner@ == Seq::new(32, |i: int| 0u8),
{
    let key = PacketArgs {
        channel_id,
        port_id: *port_id,
        sequence: (sequence % 65536) as u16,
        owner: [0u8; 32],
    };
    assert(key.owner@ =~= Seq::new(32, |i: int| 0u8));
    key
}

/// Builds the script by which the cell of a channel is found.
pub fn channel_script(channel_code_hash: [u8; 32], key: &ChannelArgs) -> (s: Script)
    ensures
        s@ == contract_script(channel_code_hash@, channel_args_bytes(*key)),
{
    make_lightclient_script(channel_code_hash, key.to_args())
}

/// Builds the script by which the cells of all channels are found: its
/// arguments are empty, and every channel cell's arguments start with them.
pub fn all_channels_script(channel_code_hash: [u8; 32]) -> (s: Script)
    ensures
        s@ == contract_script(channel_code_hash@, Seq::empty()),
{
    make_lightclient_script(channel_code_hash, Vec::new())
}

/// Builds the script by which the cell of a packet is found.
pub fn packet_script(packet_code_hash: [u8; 32], key: &PacketArgs) -> (s: Script)
    ensures
        s@ == contract_script(packet_code_hash@, packet_search_args(*key)),
{
    make_lightclient_script(packet_code_hash, key.get_search_args())
}

/// Builds the script by which the cell of the connections of a client is
/// found.
pub fn connection_script(connection_code_hash: [u8; 32], client_id: &[u8; 32]) -> (s: Script)
    ensures
        s@ == contract_script(connection_code_hash@, client_id@),
{
    let mut args: Vec<u8> = Vec::new();
    append_bytes(&mut args, client_id.as_slice());
    make_lightclient_script(connection_code_hash, args)
}

/// Whether two scripts are the same.
pub fn same_script(a: &Script, b: &Script) -> (same: bool)
    ensures
        same == (a@ == b@),
{
    let same = same_hash(&a.code_hash, &b.code_hash) && a.hash_type.tag() == b.hash_type.tag()
        && same_bytes(a.args.as_slice(), b.args.as_slice());
    proof {
        if a@ == b@ {
            assert(a.code_hash =~= b.code_hash);
        }
    }
    same
}

} // verus!
