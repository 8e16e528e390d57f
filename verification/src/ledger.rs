//! What the ledger's own libraries compute: hashes, capacities and the
//! serialised form of inputs and witnesses.
//!
//! Nothing here is proved. Each function calls into `ckb-types` or `ckb-sdk`,
//! and its contract records what that call is relied on to return.

use crate::bytes::{le32, le64};
use crate::cell::CellInput;
use ckb_sdk::constants::TYPE_ID_CODE_HASH;
use ckb_types::packed;
use ckb_types::prelude::{Builder, Entity, Pack, Unpack};
use vstd::prelude::*;

verus! {

/// The ledger's hash of the script with the given code hash, hash type byte
/// and arguments.
pub uninterp spec fn script_hash_of(code_hash: Seq<u8>, hash_type: u8, args: Seq<u8>) -> Seq<u8>;

/// The ledger's hash of the data of a cell.
pub uninterp spec fn data_hash_of(data: Seq<u8>) -> Seq<u8>;

/// The code hash by which the ledger knows its built-in type-id script: the
/// text `TYPE_ID`, right-aligned in 32 bytes.
pub open spec fn type_id_code_hash() -> Seq<u8> {
    seq![
        0u8, 0u8, 0u8, 0u8, 0u8, 0u8, 0u8, 0u8, 0u8, 0u8, 0u8, 0u8, 0u8, 0u8, 0u8, 0u8, 0u8, 0u8,
        0u8, 0u8, 0u8, 0u8, 0u8, 0u8, 0u8, 0x54u8, 0x59u8, 0x50u8, 0x45u8, 0x5fu8, 0x49u8, 0x44u8,
    ]
}

/// Shannons of capacity that one byte of a cell occupies.
pub const SHANNONS_PER_BYTE: u64 = 100_000_000;

/// The bytes that a cell occupies: eight for its capacity field, its data,
/// and for each of its two scripts the arguments, 32 for the code hash and
/// one for the hash type.
pub open spec fn occupied_bytes(lock_args: nat, type_args: nat, data: nat) -> nat {
    8 + data + (lock_args + 33) + (type_args + 33)
}

/// The capacity, in shannons, of a cell that holds exactly what it occupies.
pub open spec fn exact_capacity(lock_args: nat, type_args: nat, data: nat) -> nat {
    occupied_bytes(lock_args, type_args, data) * 100_000_000
}

/// The serialised form of a cell input: the `since` value, the hash of the
/// transaction and the index of the output in it.
pub open spec fn cell_input_bytes(input: CellInput) -> Seq<u8> {
    le64(input.since as nat) + input.previous_output.tx_hash@ + le32(
        input.previous_output.index as nat,
    )
}

/// One optional field of a witness: nothing where it is absent, else its
/// length in four bytes and its content.
pub open spec fn witness_field(field: Option<Seq<u8>>) -> Seq<u8> {
    match field {
        Some(content) => le32(content.len()) + content,
        None => Seq::empty(),
    }
}

/// The size of the witness with the given fields.
pub open spec fn witness_args_len(
    lock: Option<Seq<u8>>,
    input_type: Option<Seq<u8>>,
    output_type: Option<Seq<u8>>,
) -> nat {
    16 + witness_field(lock).len() + witness_field(input_type).len() + witness_field(
        output_type,
    ).len()
}

/// The serialised form of a witness with the given fields: the total size,
/// the offset of each field, then the fields.
pub open spec fn witness_args_bytes(
    lock: Option<Seq<u8>>,
    input_type: Option<Seq<u8>>,
    output_type: Option<Seq<u8>>,
) -> Seq<u8> {
    let a = witness_field(lock);
    let b = witness_field(input_type);
    let c = witness_field(output_type);
    le32(16 + a.len() + b.len() + c.len()) + le32(16) + le32(16 + a.len()) + le32(
        16 + a.len() + b.len(),
    ) + a + b + c
}

/// The value of an optional byte string.
pub open spec fn opt_bytes_view(b: Option<&Vec<u8>>) -> Option<Seq<u8>> {
    match b {
        Some(b) => Some(b@),
        None => None,
    }
}

/// Calls `calc_script_hash` of `ckb_types::packed::Script` on the script
/// built from the arguments. The result is taken to depend on the three
/// arguments alone.
#[verifier::external_body]
pub(crate) fn ckb_script_hash(code_hash: &[u8; 32], hash_type: u8, args: &Vec<u8>) -> (h: [u8; 32])
    ensures
        h@ == script_hash_of(code_hash@, hash_type, args@),
{
    let script = packed::Script::new_builder()
        .code_hash(code_hash.pack())
        .hash_type(hash_type)
        .args(args.as_slice().pack())
        .build();
    script.calc_script_hash().unpack()
}

/// Calls `calc_data_hash` of `ckb_types::packed::CellOutput`. The result is
/// taken to depend on the data alone.
#[verifier::external_body]
pub(crate) fn ckb_data_hash(data: &Vec<u8>) -> (h: [u8; 32])
    ensures
        h@ == data_hash_of(data@),
{
    packed::CellOutput::calc_data_hash(data.as_slice()).unpack()
}

/// Reads `TYPE_ID_CODE_HASH` of `ckb_sdk::constants`, which is the text
/// `TYPE_ID` as a number of 32 bytes, most significant first.
#[verifier::external_body]
pub(crate) fn ckb_type_id_code_hash() -> (h: [u8; 32])
    ensures
        h@ == type_id_code_hash(),
{
    TYPE_ID_CODE_HASH.0
}

/// Calls `build_exact_capacity` of `ckb_types::packed::CellOutputBuilder` for
/// a cell with the two scripts and `data_len` bytes of data, and takes the
/// capacity of what it built. That function adds up what the cell occupies,
/// a hundred million shannons a byte, and fails only when a sum or product
/// leaves 64 bits.
#[verifier::external_body]
pub(crate) fn ckb_exact_capacity(
    lock_code_hash: &[u8; 32],
    lock_hash_type: u8,
    lock_args: &Vec<u8>,
    type_code_hash: &[u8; 32],
    type_hash_type: u8,
    type_args: &Vec<u8>,
    data_len: usize,
) -> (capacity: u64)
    requires
        exact_capacity(lock_args@.len(), type_args@.len(), data_len as nat) <= u64::MAX,
    ensures
        capacity == exact_capacity(lock_args@.len(), type_args@.len(), data_len as nat),
{
    let lock = packed::Script::new_builder()
        .code_hash(lock_code_hash.pack())
        .hash_type(lock_hash_type)
        .args(lock_args.as_slice().pack())
        .build();
    let type_ = packed::Script::new_builder()
        .code_hash(type_code_hash.pack())
        .hash_type(type_hash_type)
        .args(type_args.as_slice().pack())
        .build();
    let builder = packed::CellOutput::new_builder().lock(lock).type_(Some(type_).pack());
    let data = ckb_types::core::Capacity::bytes(data_len).expect("data capacity");
    builder.build_exact_capacity(data).expect("exact capacity").capacity().unpack()
}

/// Builds a `ckb_types::packed::CellInput` and takes its bytes. A cell input
/// is serialised as its fields in order, integers least significant byte
/// first.
#[verifier::external_body]
pub(crate) fn ckb_cell_input_bytes(input: &CellInput) -> (b: Vec<u8>)
    ensures
        b@ == cell_input_bytes(*input),
{
    let previous = &input.previous_output;
    let out_point = packed::OutPoint::new(previous.tx_hash.pack(), previous.index);
    packed::CellInput::new(out_point, input.since).as_slice().to_vec()
}

/// Builds a `ckb_types::packed::WitnessArgs` with the given fields and takes
/// its bytes. Sizes and offsets are written in four bytes each, so the whole
/// has to fit in 32 bits.
#[verifier::external_body]
pub(crate) fn ckb_witness_args(
    lock: Option<&Vec<u8>>,
    input_type: Option<&Vec<u8>>,
    output_type: Option<&Vec<u8>>,
) -> (w: Vec<u8>)
    requires
        witness_args_len(
            opt_bytes_view(lock),
            opt_bytes_view(input_type),
            opt_bytes_view(output_type),
        ) <= u32::MAX,
    ensures
        w@ == witness_args_bytes(
            opt_bytes_view(lock),
            opt_bytes_view(input_type),
            opt_bytes_view(output_type),
        ),
{
    packed::WitnessArgs::new_builder()
        .lock(lock.map(|b| b.as_slice().pack()).pack())
        .input_type(input_type.map(|b| b.as_slice().pack()).pack())
        .output_type(output_type.map(|b| b.as_slice().pack()).pack())
        .build()
        .as_slice()
        .to_vec()
}

/// The character that stands for a number below sixteen.
pub open spec fn hex_digit(n: int) -> char {
    if n == 0 {
        '0'
    } else if n == 1 {
        '1'
    } else if n == 2 {
        '2'
    } else if n == 3 {
        '3'
    } else if n == 4 {
        '4'
    } else if n == 5 {
        '5'
    } else if n == 6 {
        '6'
    } else if n == 7 {
        '7'
    } else if n == 8 {
        '8'
    } else if n == 9 {
        '9'
    } else if n == 10 {
        'a'
    } else if n == 11 {
        'b'
    } else if n == 12 {
        'c'
    } else if n == 13 {
        'd'
    } else if n == 14 {
        'e'
    } else {
        'f'
    }
}

/// Bytes written in hexadecimal: two characters for each byte, the high
/// half first, letters in lower case.
pub open spec fn hex_chars(data: Seq<u8>) -> Seq<char> {
    Seq::new(
        2 * data.len(),
        |i: int|
            if i % 2 == 0 {
                hex_digit(data[i / 2] as int / 16)
            } else {
                hex_digit(data[i / 2] as int % 16)
            },
    )
}

/// Calls `hex::encode`, which writes each byte as two hexadecimal
/// characters in lower case.
#[verifier::external_body]
pub(crate) fn hex_encode(data: &[u8]) -> (text: String)
    ensures
        text@ == hex_chars(data@),
{
    hex::encode(data)
}

/// Joins two texts with `format!`.
#[verifier::external_body]
pub(crate) fn join_text(head: &str, tail: &str) -> (text: String)
    ensures
        text@ == head@ + tail@,
{
    format!("{}{}", head, tail)
}

} // verus!
