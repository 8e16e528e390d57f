//! Byte layout of the light-client records kept in cells.
//!
//! All three records have a fixed size, and a slice is recognised as a record
//! of some kind only if its length is exactly that kind's size:
//!
//! | record           | size | layout                                      |
//! |------------------|------|---------------------------------------------|
//! | `Client`         | 81   | slot id, then 80 bytes of header snapshot   |
//! | `ClientInfo`     | 2    | last id, then the minimal updates count     |
//! | `ClientTypeArgs` | 33   | 32 bytes of type id, then the cells count   |

use crate::bytes::{append_bytes, read_hash};
use vstd::prelude::*;

verus! {

/// Size of the header snapshot carried by a client record.
pub const CLIENT_PAYLOAD_LEN: usize = 80;

/// Size of an encoded client record.
pub const CLIENT_LEN: usize = 81;

/// Size of an encoded client info record.
pub const CLIENT_INFO_LEN: usize = 2;

/// Size of encoded client type arguments.
pub const CLIENT_TYPE_ARGS_LEN: usize = 33;

/// The kinds of record this codec knows.
#[derive(Clone, Copy, Debug, PartialEq, Eq, Structural)]
pub enum RecordKind {
    Client,
    ClientInfo,
    ClientTypeArgs,
}

/// A slice that does not have the layout of the record asked for.
#[derive(Clone, Copy, Debug, PartialEq, Eq, Structural)]
pub struct FormatError {
    pub kind: RecordKind,
    pub expected_len: usize,
    pub actual_len: usize,
}

/// One snapshot of a verified header, stored in the slot `id` of the window.
#[derive(Clone, Copy, Debug, PartialEq, Eq)]
pub struct Client {
    pub id: u8,
    pub payload: [u8; 80],
}

/// The window's bookkeeping: which slot holds the most recent snapshot.
#[derive(Clone, Copy, Debug, PartialEq, Eq, Structural)]
pub struct ClientInfo {
    pub last_id: u8,
    pub minimal_updates_count: u8,
}

/// The arguments of the type script shared by all cells of one window.
#[derive(Clone, Copy, Debug, PartialEq, Eq)]
pub struct ClientTypeArgs {
    pub type_id: [u8; 32],
    pub cells_count: u8,
}

/// The encoding of a client record.
pub open spec fn client_bytes(c: Client) -> Seq<u8> {
    seq![c.id] + c.payload@
}

/// Whether `b` is the encoding of the client record `c`.
pub open spec fn is_client_encoding(b: Seq<u8>, c: Client) -> bool {
    &&& b.len() == CLIENT_LEN
    &&& c.id == b[0]
    &&& c.payload@ == b.subrange(1, CLIENT_LEN as int)
}

/// The encoding of a client info record.
pub open spec fn client_info_bytes(c: ClientInfo) -> Seq<u8> {
    seq![c.last_id, c.minimal_updates_count]
}

/// Whether `b` is the encoding of the client info record `c`.
pub open spec fn is_client_info_encoding(b: Seq<u8>, c: ClientInfo) -> bool {
    &&& b.len() == CLIENT_INFO_LEN
    &&& c.last_id == b[0]
    &&& c.minimal_updates_count == b[1]
}

/// The encoding of client type arguments.
pub open spec fn client_type_args_bytes(a: ClientTypeArgs) -> Seq<u8> {
    a.type_id@ + seq![a.cells_count]
}

/// Whether `b` is the encoding of the client type arguments `a`.
pub open spec fn is_client_type_args_encoding(b: Seq<u8>, a: ClientTypeArgs) -> bool {
    &&& b.len() == CLIENT_TYPE_ARGS_LEN
    &&& a.type_id@ == b.subrange(0, 32)
    &&& a.cells_count == b[32]
}

impl Client {
    /// Encodes the record.
    pub fn encode(&self) -> (r: Vec<u8>)
        ensures
            r@ == client_bytes(*self),
    {
        let mut r: Vec<u8> = Vec::new();
        r.push(self.id);
        append_bytes(&mut r, self.payload.as_slice());
        r
    }

    /// Whether `bytes` has the layout of a client record.
    pub fn verify(bytes: &[u8]) -> (ok: bool)
        ensures
            ok == (bytes@.len() == CLIENT_LEN),
    {
        bytes.len() == CLIENT_LEN
    }

    /// Decodes a record, rejecting a slice that is shorter or longer than one.
    pub fn decode(bytes: &[u8]) -> (r: Result<Client, FormatError>)
        ensures
            match r {
                Ok(c) => is_client_encoding(bytes@, c),
                Err(e) => bytes@.len() != CLIENT_LEN && e == (FormatError {
                    kind: RecordKind::Client,
                    expected_len: CLIENT_LEN,
                    actual_len: bytes@.len() as usize,
                }),
            },
    {
        if bytes.len() != CLIENT_LEN {
            return Err(
                FormatError {
                    kind: RecordKind::Client,
                    expected_len: CLIENT_LEN,
                    actual_len: bytes.len(),
                },
            );
        }
        let mut payload: [u8; 80] = [0u8; 80];
        let mut i: usize = 0;
        while i < 80
            invariant
                i <= 80,
                bytes@.len() == CLIENT_LEN,
                forall|j: int| 0 <= j < i ==> payload@[j] == bytes@[1 + j],
            decreases 80 - i,
        {
            payload[i] = bytes[1 + i];
            i = i + 1;
        }
        assert(payload@ =~= bytes@.subrange(1, CLIENT_LEN as int));
        Ok(Client { id: bytes[0], payload })
    }
}

impl ClientInfo {
    /// Encodes the record.
    pub fn encode(&self) -> (r: Vec<u8>)
        ensures
            r@ == client_info_bytes(*self),
    {
        let mut r: Vec<u8> = Vec::new();
        r.push(self.last_id);
        r.push(self.minimal_updates_count);
        r
    }

    /// Whether `bytes` has the layout of a client info record.
    pub fn verify(bytes: &[u8]) -> (ok: bool)
        ensures
            ok == (bytes@.len() == CLIENT_INFO_LEN),
    {
        bytes.len() == CLIENT_INFO_LEN
    }

    /// Decodes a record, rejecting a slice that is shorter or longer than one.
    pub fn decode(bytes: &[u8]) -> (r: Result<ClientInfo, FormatError>)
        ensures
            match r {
                Ok(c) => is_client_info_encoding(bytes@, c),
                Err(e) => bytes@.len() != CLIENT_INFO_LEN && e == (FormatError {
                    kind: RecordKind::ClientInfo,
                    expected_len: CLIENT_INFO_LEN,
                    actual_len: bytes@.len() as usize,
                }),
            },
    {
        if bytes.len() != CLIENT_INFO_LEN {
            return Err(
                FormatError {
                    kind: RecordKind::ClientInfo,
                    expected_len: CLIENT_INFO_LEN,
                    actual_len: bytes.len(),
                },
            );
        }
        Ok(ClientInfo { last_id: bytes[0], minimal_updates_count: bytes[1] })
    }
}

impl ClientTypeArgs {
    /// Encodes the arguments.
    pub fn encode(&self) -> (r: Vec<u8>)
        ensures
            r@ == client_type_args_bytes(*self),
    {
        let mut r: Vec<u8> = Vec::new();
        append_bytes(&mut r, self.type_id.as_slice());
        r.push(self.cells_count);
        r
    }

    /// Decodes the arguments, rejecting a slice that is shorter or longer.
    pub fn decode(bytes: &[u8]) -> (r: Result<ClientTypeArgs, FormatError>)
        ensures
            match r {
                Ok(a) => is_client_type_args_encoding(bytes@, a),
                Err(e) => bytes@.len() != CLIENT_TYPE_ARGS_LEN && e == (FormatError {
                    kind: RecordKind::ClientTypeArgs,
                    expected_len: CLIENT_TYPE_ARGS_LEN,
                    actual_len: bytes@.len() as usize,
                }),
            },
    {
        if bytes.len() != CLIENT_TYPE_ARGS_LEN {
            return Err(
                FormatError {
                    kind: RecordKind::ClientTypeArgs,
                    expected_len: CLIENT_TYPE_ARGS_LEN,
                    actual_len: bytes.len(),
                },
            );
        }
        let type_id = read_hash(bytes, 0);
        Ok(ClientTypeArgs { type_id, cells_count: bytes[32] })
    }
}

/// Decoding the encoding of a client record gives the record back, and
/// nothing else.
pub proof fn lemma_client_round_trip(c: Client, d: Client)
    ensures
        is_client_encoding(client_bytes(c), c),
        is_client_encoding(client_bytes(c), d) ==> d == c,
{
    assert(client_bytes(c).subrange(1, CLIENT_LEN as int) == c.payload@);
    if is_client_encoding(client_bytes(c), d) {
        assert(d.payload@ == c.payload@);
        assert(d.payload == c.payload);
    }
}

/// A slice that decodes as a client record is that record's encoding.
pub proof fn lemma_client_encoding_unique(b: Seq<u8>, c: Client)
    requires
        is_client_encoding(b, c),
    ensures
        client_bytes(c) == b,
{
    assert(client_bytes(c) =~= b);
}

/// Decoding the encoding of a client info record gives the record back, and
/// nothing else.
pub proof fn lemma_client_info_round_trip(c: ClientInfo, d: ClientInfo)
    ensures
        is_client_info_encoding(client_info_bytes(c), c),
        is_client_info_encoding(client_info_bytes(c), d) ==> d == c,
{
}

/// A slice that decodes as a client info record is that record's encoding.
pub proof fn lemma_client_info_encoding_unique(b: Seq<u8>, c: ClientInfo)
    requires
        is_client_info_encoding(b, c),
    ensures
        client_info_bytes(c) == b,
{
    assert(client_info_bytes(c) =~= b);
}

/// Decoding encoded client type arguments gives them back, and nothing else.
pub proof fn lemma_client_type_args_round_trip(a: ClientTypeArgs, d: ClientTypeArgs)
    ensures
        is_client_type_args_encoding(client_type_args_bytes(a), a),
        is_client_type_args_encoding(client_type_args_bytes(a), d) ==> d == a,
{
    assert(client_type_args_bytes(a).subrange(0, 32) == a.type_id@);
    if is_client_type_args_encoding(client_type_args_bytes(a), d) {
        assert(d.type_id@ == a.type_id@);
        assert(d.type_id == a.type_id);
    }
}

/// No slice is both a client record and a client info record.
pub proof fn lemma_client_layouts_disjoint(b: Seq<u8>, c: Client, i: ClientInfo)
    ensures
        !(is_client_encoding(b, c) && is_client_info_encoding(b, i)),
{
}

} // verus!
