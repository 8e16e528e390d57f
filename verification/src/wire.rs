//! The pieces that the records of protocol objects are made of.
//!
//! A record is a row of fields without padding. An integer stands in its
//! bytes, least significant first; a byte string follows its length, which
//! takes four bytes; a tag takes one byte. A reader takes one field off the
//! front of what is left of a record and hands back the rest.

use crate::bytes::{
    copy_range, le16, le16_at, le32, le32_at, le64, le64_at, lemma_le16_of_read,
    lemma_le16_round_trip, lemma_le32_of_read, lemma_le32_round_trip, lemma_le64_of_read,
    lemma_le64_round_trip, read_le16, read_le32, read_le64,
};
use vstd::prelude::*;

verus! {

/// What a reader took, where it took something.
pub open spec fn got<T>(taken: Option<(T, Seq<u8>)>) -> T {
    match taken {
        Some((value, _)) => value,
        None => arbitrary(),
    }
}

/// What a reader left behind, where it took something.
pub open spec fn left<T>(taken: Option<(T, Seq<u8>)>) -> Seq<u8> {
    match taken {
        Some((_, rest)) => rest,
        None => Seq::empty(),
    }
}

/// Takes one byte off the front of `b`.
#[verifier::opaque]
pub open spec fn par_u8(b: Seq<u8>) -> Option<(u8, Seq<u8>)> {
    if b.len() >= 1 {
        Some((b[0], b.skip(1)))
    } else {
        None
    }
}

/// Takes a number of two bytes off the front of `b`.
#[verifier::opaque]
pub open spec fn par_u16(b: Seq<u8>) -> Option<(u16, Seq<u8>)> {
    if b.len() >= 2 {
        Some((le16_at(b, 0) as u16, b.skip(2)))
    } else {
        None
    }
}

/// Takes a number of eight bytes off the front of `b`.
#[verifier::opaque]
pub open spec fn par_u64(b: Seq<u8>) -> Option<(u64, Seq<u8>)> {
    if b.len() >= 8 {
        Some((le64_at(b, 0) as u64, b.skip(8)))
    } else {
        None
    }
}

/// One byte.
#[verifier::opaque]
pub open spec fn enc_u8(v: u8) -> Seq<u8> {
    seq![v]
}

/// A number in two bytes, least significant first.
#[verifier::opaque]
pub open spec fn enc_u16(v: u16) -> Seq<u8> {
    le16(v as nat)
}

/// A number in four bytes, least significant first.
#[verifier::opaque]
pub open spec fn enc_u32(v: u32) -> Seq<u8> {
    le32(v as nat)
}

/// A number in eight bytes, least significant first.
#[verifier::opaque]
pub open spec fn enc_u64(v: u64) -> Seq<u8> {
    le64(v as nat)
}

/// A byte string behind its length.
#[verifier::opaque]
pub open spec fn enc_blob(v: Seq<u8>) -> Seq<u8> {
    le32(v.len()) + v
}

/// Takes a byte string with its length off the front of `b`.
#[verifier::opaque]
pub open spec fn par_blob(b: Seq<u8>) -> Option<(Seq<u8>, Seq<u8>)> {
    if b.len() >= 4 && b.len() - 4 >= le32_at(b, 0) {
        let n = le32_at(b, 0) as int;
        Some((b.subrange(4, 4 + n), b.skip(4 + n)))
    } else {
        None
    }
}

/// A hash that may be absent: a zero byte, or a one and the hash.
#[verifier::opaque]
pub open spec fn enc_opt_hash(h: Option<Seq<u8>>) -> Seq<u8> {
    match h {
        Some(h) => seq![1u8] + h,
        None => seq![0u8],
    }
}

/// Takes a hash that may be absent off the front of `b`.
#[verifier::opaque]
pub open spec fn par_opt_hash(b: Seq<u8>) -> Option<(Option<Seq<u8>>, Seq<u8>)> {
    if b.len() >= 1 && b[0] == 0 {
        Some((None, b.skip(1)))
    } else if b.len() >= 33 && b[0] == 1 {
        Some((Some(b.subrange(1, 33)), b.skip(33)))
    } else {
        None
    }
}

/// The value of a hash that may be absent.
pub open spec fn opt_hash_view(h: Option<[u8; 32]>) -> Option<Seq<u8>> {
    match h {
        Some(h) => Some(h@),
        None => None,
    }
}

/// Takes a number of four bytes off the front of `b`.
#[verifier::opaque]
pub open spec fn par_u32(b: Seq<u8>) -> Option<(u32, Seq<u8>)> {
    if b.len() >= 4 {
        Some((le32_at(b, 0) as u32, b.skip(4)))
    } else {
        None
    }
}

/// Skipping twice is skipping once.
pub proof fn lemma_skip_skip(b: Seq<u8>, m: int, n: int)
    requires
        0 <= m,
        0 <= n,
        m + n <= b.len(),
    ensures
        b.skip(m).skip(n) == b.skip(m + n),
{
    assert(b.skip(m).skip(n) =~= b.skip(m + n));
}

/// What was written in front is read first.
pub proof fn lemma_par_u8(v: u8, rest: Seq<u8>)
    ensures
        par_u8(enc_u8(v) + rest) == Some((v, rest)),
{
    reveal(par_u8);
    reveal(enc_u8);
    assert((seq![v] + rest).skip(1) =~= rest);
}

/// What was written in front is read first.
pub proof fn lemma_par_u16(v: u16, rest: Seq<u8>)
    ensures
        par_u16(enc_u16(v) + rest) == Some((v, rest)),
{
    reveal(par_u16);
    reveal(enc_u16);
    lemma_le16_round_trip(v as nat, Seq::empty(), rest);
    assert(Seq::<u8>::empty() + le16(v as nat) + rest =~= le16(v as nat) + rest);
    assert((le16(v as nat) + rest).skip(2) =~= rest);
}

/// What was written in front is read first.
pub proof fn lemma_par_u64(v: u64, rest: Seq<u8>)
    ensures
        par_u64(enc_u64(v) + rest) == Some((v, rest)),
{
    reveal(par_u64);
    reveal(enc_u64);
    lemma_le64_round_trip(v as nat, Seq::empty(), rest);
    assert(Seq::<u8>::empty() + le64(v as nat) + rest =~= le64(v as nat) + rest);
    assert((le64(v as nat) + rest).skip(8) =~= rest);
}

/// What was written in front is read first.
pub proof fn lemma_par_blob(v: Seq<u8>, rest: Seq<u8>)
    requires
        v.len() <= u32::MAX,
    ensures
        par_blob(enc_blob(v) + rest) == Some((v, rest)),
{
    reveal(par_blob);
    reveal(enc_blob);
    let b = enc_blob(v) + rest;
    lemma_le32_round_trip(v.len(), Seq::empty(), v + rest);
    assert(Seq::<u8>::empty() + le32(v.len()) + (v + rest) =~= b);
    assert(b.subrange(4, 4 + v.len() as int) =~= v);
    assert(b.skip(4 + v.len() as int) =~= rest);
}

/// What was written in front is read first.
pub proof fn lemma_par_opt_hash(h: Option<Seq<u8>>, rest: Seq<u8>)
    requires
        h matches Some(x) ==> x.len() == 32,
    ensures
        par_opt_hash(enc_opt_hash(h) + rest) == Some((h, rest)),
{
    reveal(par_opt_hash);
    reveal(enc_opt_hash);
    let b = enc_opt_hash(h) + rest;
    match h {
        Some(x) => {
            assert(b.subrange(1, 33) =~= x);
            assert(b.skip(33) =~= rest);
        },
        None => {
            assert(b.skip(1) =~= rest);
        },
    }
}

/// What was written in front is read first.
pub proof fn lemma_par_u32(v: u32, rest: Seq<u8>)
    ensures
        par_u32(enc_u32(v) + rest) == Some((v, rest)),
{
    reveal(par_u32);
    reveal(enc_u32);
    lemma_le32_round_trip(v as nat, Seq::empty(), rest);
    assert(Seq::<u8>::empty() + le32(v as nat) + rest =~= le32(v as nat) + rest);
    assert((le32(v as nat) + rest).skip(4) =~= rest);
}

/// What is read off the front is what stands there.
pub proof fn lemma_u32_front(b: Seq<u8>, v: u32, rest: Seq<u8>)
    requires
        par_u32(b) == Some((v, rest)),
    ensures
        b == enc_u32(v) + rest,
{
    reveal(par_u32);
    reveal(enc_u32);
    lemma_le32_of_read(b, 0);
    assert(b =~= b.subrange(0, 4) + b.skip(4));
}

/// What is read off the front is what stands there.
pub proof fn lemma_u8_front(b: Seq<u8>, v: u8, rest: Seq<u8>)
    requires
        par_u8(b) == Some((v, rest)),
    ensures
        b == enc_u8(v) + rest,
{
    reveal(par_u8);
    reveal(enc_u8);
    assert(b =~= seq![b[0]] + b.skip(1));
}

/// What is read off the front is what stands there.
pub proof fn lemma_u16_front(b: Seq<u8>, v: u16, rest: Seq<u8>)
    requires
        par_u16(b) == Some((v, rest)),
    ensures
        b == enc_u16(v) + rest,
{
    reveal(par_u16);
    reveal(enc_u16);
    lemma_le16_of_read(b, 0);
    assert(b =~= b.subrange(0, 2) + b.skip(2));
}

/// What is read off the front is what stands there.
pub proof fn lemma_u64_front(b: Seq<u8>, v: u64, rest: Seq<u8>)
    requires
        par_u64(b) == Some((v, rest)),
    ensures
        b == enc_u64(v) + rest,
{
    reveal(par_u64);
    reveal(enc_u64);
    lemma_le64_of_read(b, 0);
    assert(b =~= b.subrange(0, 8) + b.skip(8));
}

/// What is read off the front is what stands there.
pub proof fn lemma_blob_front(b: Seq<u8>, v: Seq<u8>, rest: Seq<u8>)
    requires
        par_blob(b) == Some((v, rest)),
    ensures
        b == enc_blob(v) + rest,
        v.len() <= u32::MAX,
{
    reveal(par_blob);
    reveal(enc_blob);
    lemma_le32_of_read(b, 0);
    let n = le32_at(b, 0) as int;
    assert(b =~= b.subrange(0, 4) + b.subrange(4, 4 + n) + b.skip(4 + n));
}

/// What is read off the front is what stands there.
pub proof fn lemma_opt_hash_front(b: Seq<u8>, h: Option<Seq<u8>>, rest: Seq<u8>)
    requires
        par_opt_hash(b) == Some((h, rest)),
    ensures
        b == enc_opt_hash(h) + rest,
        h matches Some(x) ==> x.len() == 32,
{
    reveal(par_opt_hash);
    reveal(enc_opt_hash);
    match h {
        Some(x) => {
            assert(b =~= seq![1u8] + b.subrange(1, 33) + b.skip(33));
        },
        None => {
            assert(b =~= seq![0u8] + b.skip(1));
        },
    }
}

/// Takes one byte off `b` at `pos`.
pub fn take_u8(b: &[u8], pos: usize) -> (r: Option<(u8, usize)>)
    requires
        pos <= b@.len(),
    ensures
        match r {
            Some((v, next)) => pos <= next <= b@.len() && par_u8(b@.skip(pos as int)) == Some(
                (v, b@.skip(next as int)),
            ),
            None => par_u8(b@.skip(pos as int)) is None,
        },
{
    proof {
        reveal(par_u8);
    }
    if b.len() - pos < 1 {
        return None;
    }
    proof {
        lemma_skip_skip(b@, pos as int, 1);
    }
    Some((b[pos], pos + 1))
}

/// Takes a number of two bytes off `b` at `pos`.
pub fn take_u16(b: &[u8], pos: usize) -> (r: Option<(u16, usize)>)
    requires
        pos <= b@.len(),
    ensures
        match r {
            Some((v, next)) => pos <= next <= b@.len() && par_u16(b@.skip(pos as int)) == Some(
                (v, b@.skip(next as int)),
            ),
            None => par_u16(b@.skip(pos as int)) is None,
        },
{
    proof {
        reveal(par_u16);
    }
    if b.len() - pos < 2 {
        return None;
    }
    proof {
        lemma_skip_skip(b@, pos as int, 2);
    }
    Some((read_le16(b, pos), pos + 2))
}

/// Takes a number of eight bytes off `b` at `pos`.
pub fn take_u64(b: &[u8], pos: usize) -> (r: Option<(u64, usize)>)
    requires
        pos <= b@.len(),
    ensures
        match r {
            Some((v, next)) => pos <= next <= b@.len() && par_u64(b@.skip(pos as int)) == Some(
                (v, b@.skip(next as int)),
            ),
            None => par_u64(b@.skip(pos as int)) is None,
        },
{
    proof {
        reveal(par_u64);
    }
    if b.len() - pos < 8 {
        return None;
    }
    proof {
        lemma_skip_skip(b@, pos as int, 8);
    }
    Some((read_le64(b, pos), pos + 8))
}

/// Takes a byte string with its length off `b` at `pos`.
pub fn take_blob(b: &[u8], pos: usize) -> (r: Option<(Vec<u8>, usize)>)
    requires
        pos <= b@.len(),
    ensures
        match r {
            Some((v, next)) => pos <= next <= b@.len() && par_blob(b@.skip(pos as int)) == Some(
                (v@, b@.skip(next as int)),
            ),
            None => par_blob(b@.skip(pos as int)) is None,
        },
{
    proof {
        reveal(par_blob);
    }
    if b.len() - pos < 4 {
        return None;
    }
    let n = read_le32(b, pos) as usize;
    if b.len() - pos - 4 < n {
        return None;
    }
    let v = copy_range(b, pos + 4, pos + 4 + n);
    proof {
        lemma_skip_skip(b@, pos as int, 4 + n);
        assert(b@.skip(pos as int).subrange(4, 4 + n) =~= b@.subrange(pos + 4, pos + 4 + n));
    }
    Some((v, pos + 4 + n))
}

/// Takes a number of four bytes off `b` at `pos`.
pub fn take_u32(b: &[u8], pos: usize) -> (r: Option<(u32, usize)>)
    requires
        pos <= b@.len(),
    ensures
        match r {
            Some((v, next)) => pos <= next <= b@.len() && par_u32(b@.skip(pos as int)) == Some(
                (v, b@.skip(next as int)),
            ),
            None => par_u32(b@.skip(pos as int)) is None,
        },
{
    proof {
        reveal(par_u32);
    }
    if b.len() - pos < 4 {
        return None;
    }
    proof {
        lemma_skip_skip(b@, pos as int, 4);
    }
    Some((read_le32(b, pos), pos + 4))
}

/// Takes a hash that may be absent off `b` at `pos`.
pub fn take_opt_hash(b: &[u8], pos: usize) -> (r: Option<(Option<[u8; 32]>, usize)>)
    requires
        pos <= b@.len(),
    ensures
        match r {
            Some((h, next)) => pos <= next <= b@.len() && par_opt_hash(b@.skip(pos as int))
                == Some((opt_hash_view(h), b@.skip(next as int))),
            None => par_opt_hash(b@.skip(pos as int)) is None,
        },
{
    proof {
        reveal(par_opt_hash);
    }
    if b.len() - pos < 1 {
        return None;
    }
    if b[pos] == 0 {
        proof {
            lemma_skip_skip(b@, pos as int, 1);
        }
        Some((None, pos + 1))
    } else if b[pos] == 1 && b.len() - pos >= 33 {
        let h = crate::bytes::read_hash(b, pos + 1);
        proof {
            lemma_skip_skip(b@, pos as int, 33);
            assert(b@.skip(pos as int).subrange(1, 33) =~= b@.subrange(pos + 1, pos + 33));
        }
        Some((Some(h), pos + 33))
    } else {
        None
    }
}

/// Appends one byte.
pub fn put_u8(dst: &mut Vec<u8>, v: u8)
    ensures
        final(dst)@ == old(dst)@ + enc_u8(v),
{
    proof {
        reveal(enc_u8);
    }
    dst.push(v);
    assert(dst@ =~= old(dst)@ + enc_u8(v));
}

/// Appends a number in two bytes.
pub fn put_u16(dst: &mut Vec<u8>, v: u16)
    ensures
        final(dst)@ == old(dst)@ + enc_u16(v),
{
    proof {
        reveal(enc_u16);
    }
    crate::bytes::push_le16(dst, v);
}

/// Appends a number in four bytes.
pub fn put_u32(dst: &mut Vec<u8>, v: u32)
    ensures
        final(dst)@ == old(dst)@ + enc_u32(v),
{
    proof {
        reveal(enc_u32);
    }
    crate::bytes::push_le32(dst, v);
}

/// Appends a number in eight bytes.
pub fn put_u64(dst: &mut Vec<u8>, v: u64)
    ensures
        final(dst)@ == old(dst)@ + enc_u64(v),
{
    proof {
        reveal(enc_u64);
    }
    crate::bytes::push_le64(dst, v);
}

/// Appends a byte string behind its length.
pub fn put_blob(dst: &mut Vec<u8>, v: &Vec<u8>)
    requires
        v@.len() <= u32::MAX,
    ensures
        final(dst)@ == old(dst)@ + enc_blob(v@),
{
    proof {
        reveal(enc_blob);
    }
    crate::bytes::push_le32(dst, v.len() as u32);
    crate::bytes::append_bytes(dst, v.as_slice());
    assert(dst@ =~= old(dst)@ + enc_blob(v@));
}

/// Appends a hash that may be absent.
pub fn put_opt_hash(dst: &mut Vec<u8>, h: &Option<[u8; 32]>)
    ensures
        final(dst)@ == old(dst)@ + enc_opt_hash(opt_hash_view(*h)),
{
    proof {
        reveal(enc_opt_hash);
    }
    match h {
        Some(x) => {
            dst.push(1);
            crate::bytes::append_bytes(dst, x.as_slice());
        },
        None => {
            dst.push(0);
        },
    }
    assert(dst@ =~= old(dst)@ + enc_opt_hash(opt_hash_view(*h)));
}

} // verus!
