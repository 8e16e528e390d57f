//! Little-endian integers and byte strings.

use vstd::prelude::*;

verus! {

/// The two bytes of `n`, least significant first.
pub open spec fn le16(n: nat) -> Seq<u8> {
    seq![(n % 256) as u8, (n / 256 % 256) as u8]
}

/// The four bytes of `n`, least significant first.
pub open spec fn le32(n: nat) -> Seq<u8> {
    le16(n % 65536) + le16(n / 65536 % 65536)
}

/// The eight bytes of `n`, least significant first.
pub open spec fn le64(n: nat) -> Seq<u8> {
    le32(n % 4294967296) + le32(n / 4294967296 % 4294967296)
}

/// The number that the two bytes of `b` at `at` stand for.
pub open spec fn le16_at(b: Seq<u8>, at: int) -> nat {
    (b[at] + 256 * b[at + 1]) as nat
}

/// The number that the four bytes of `b` at `at` stand for.
pub open spec fn le32_at(b: Seq<u8>, at: int) -> nat {
    le16_at(b, at) + 65536 * le16_at(b, at + 2)
}

/// The number that the eight bytes of `b` at `at` stand for.
pub open spec fn le64_at(b: Seq<u8>, at: int) -> nat {
    le32_at(b, at) + 4294967296 * le32_at(b, at + 4)
}

/// Concatenation does not depend on how it is grouped.
pub proof fn lemma_concat_assoc(a: Seq<u8>, b: Seq<u8>, c: Seq<u8>)
    ensures
        (a + b) + c == a + (b + c),
{
    assert((a + b) + c =~= a + (b + c));
}

/// The number made of the digit `lo` and, above it, `hi` has `lo` as its
/// last digit to the base `base` and `hi` as the rest.
proof fn lemma_digits(lo: nat, hi: nat, base: nat)
    requires
        base > 0,
        lo < base,
    ensures
        (lo + base * hi) % base == lo,
        (lo + base * hi) / base == hi,
{
    assert(lo + base * hi == hi * base + lo) by (nonlinear_arith);
    vstd::arithmetic::div_mod::lemma_fundamental_div_mod_converse(
        (lo + base * hi) as int,
        base as int,
        hi as int,
        lo as int,
    );
}

/// Reading back what `le16` wrote gives the number.
pub proof fn lemma_le16_round_trip(n: nat, before: Seq<u8>, after: Seq<u8>)
    requires
        n <= u16::MAX,
    ensures
        le16(n).len() == 2,
        le16_at(before + le16(n) + after, before.len() as int) == n,
{
    let b = before + le16(n) + after;
    let at = before.len() as int;
    assert(b[at] == le16(n)[0]);
    assert(b[at + 1] == le16(n)[1]);
}

/// Reading back what `le32` wrote gives the number.
pub proof fn lemma_le32_round_trip(n: nat, before: Seq<u8>, after: Seq<u8>)
    requires
        n <= u32::MAX,
    ensures
        le32(n).len() == 4,
        le32_at(before + le32(n) + after, before.len() as int) == n,
{
    let lo = n % 65536;
    let hi = n / 65536;
    let b = before + le32(n) + after;
    assert(hi % 65536 == hi);
    assert(b =~= before + le16(lo) + (le16(hi) + after));
    lemma_le16_round_trip(lo, before, le16(hi) + after);
    assert(b =~= (before + le16(lo)) + le16(hi) + after);
    lemma_le16_round_trip(hi, before + le16(lo), after);
}

/// Reading back what `le64` wrote gives the number.
pub proof fn lemma_le64_round_trip(n: nat, before: Seq<u8>, after: Seq<u8>)
    requires
        n <= u64::MAX,
    ensures
        le64(n).len() == 8,
        le64_at(before + le64(n) + after, before.len() as int) == n,
{
    let lo = n % 4294967296;
    let hi = n / 4294967296;
    let b = before + le64(n) + after;
    assert(hi % 4294967296 == hi);
    assert(le32(lo).len() == 4 && le32(hi).len() == 4);
    assert(b =~= before + le32(lo) + (le32(hi) + after));
    lemma_le32_round_trip(lo, before, le32(hi) + after);
    assert(b =~= (before + le32(lo)) + le32(hi) + after);
    lemma_le32_round_trip(hi, before + le32(lo), after);
}

/// Writing what was read gives the bytes back.
pub proof fn lemma_le16_of_read(b: Seq<u8>, at: int)
    requires
        0 <= at,
        at + 2 <= b.len(),
    ensures
        le16(le16_at(b, at)) == b.subrange(at, at + 2),
        le16_at(b, at) <= u16::MAX,
{
    lemma_digits(b[at] as nat, b[at + 1] as nat, 256);
    assert(le16(le16_at(b, at)) =~= b.subrange(at, at + 2));
}

/// Writing what was read gives the bytes back.
pub proof fn lemma_le32_of_read(b: Seq<u8>, at: int)
    requires
        0 <= at,
        at + 4 <= b.len(),
    ensures
        le32(le32_at(b, at)) == b.subrange(at, at + 4),
        le32_at(b, at) <= u32::MAX,
{
    lemma_le16_of_read(b, at);
    lemma_le16_of_read(b, at + 2);
    lemma_digits(le16_at(b, at), le16_at(b, at + 2), 65536);
    assert(le32(le32_at(b, at)) =~= b.subrange(at, at + 2) + b.subrange(at + 2, at + 4));
    assert(b.subrange(at, at + 2) + b.subrange(at + 2, at + 4) =~= b.subrange(at, at + 4));
}

/// The eight bytes of a number are the four bytes of each of its halves.
proof fn lemma_le64_halves(lo: nat, hi: nat)
    requires
        lo <= u32::MAX,
        hi <= u32::MAX,
    ensures
        le64(lo + 4294967296 * hi) == le32(lo) + le32(hi),
        lo + 4294967296 * hi <= u64::MAX,
{
    lemma_digits(lo, hi, 4294967296);
    assert(hi % 4294967296 == hi);
}

/// Writing what was read gives the bytes back.
pub proof fn lemma_le64_of_read(b: Seq<u8>, at: int)
    requires
        0 <= at,
        at + 8 <= b.len(),
    ensures
        le64(le64_at(b, at)) == b.subrange(at, at + 8),
        le64_at(b, at) <= u64::MAX,
{
    lemma_le32_of_read(b, at);
    lemma_le32_of_read(b, at + 4);
    lemma_le64_halves(le32_at(b, at), le32_at(b, at + 4));
    assert(b.subrange(at, at + 4) + b.subrange(at + 4, at + 8) =~= b.subrange(at, at + 8));
}

/// Appends the two bytes of `x`, least significant first.
pub fn push_le16(dst: &mut Vec<u8>, x: u16)
    ensures
        final(dst)@ == old(dst)@ + le16(x as nat),
{
    dst.push((x % 256) as u8);
    dst.push((x / 256) as u8);
    assert(dst@ =~= old(dst)@ + le16(x as nat));
}

/// Appends the four bytes of `x`, least significant first.
pub fn push_le32(dst: &mut Vec<u8>, x: u32)
    ensures
        final(dst)@ == old(dst)@ + le32(x as nat),
{
    let lo: u16 = (x % 65536) as u16;
    let hi: u16 = (x / 65536) as u16;
    push_le16(dst, lo);
    push_le16(dst, hi);
    assert(dst@ =~= old(dst)@ + le32(x as nat));
}

/// Appends the eight bytes of `x`, least significant first.
pub fn push_le64(dst: &mut Vec<u8>, x: u64)
    ensures
        final(dst)@ == old(dst)@ + le64(x as nat),
{
    let lo: u32 = (x % 4294967296) as u32;
    let hi: u32 = (x / 4294967296) as u32;
    push_le32(dst, lo);
    push_le32(dst, hi);
    proof {
        assert(x == lo + 4294967296 * hi);
        lemma_le64_halves(lo as nat, hi as nat);
        lemma_concat_assoc(old(dst)@, le32(lo as nat), le32(hi as nat));
    }
}

/// Reads the two bytes of `b` at `at` as a number.
pub fn read_le16(b: &[u8], at: usize) -> (x: u16)
    requires
        at + 2 <= b@.len(),
    ensures
        x == le16_at(b@, at as int),
{
    let _len = b.len();
    let lo: u16 = b[at] as u16;
    let hi: u16 = b[at + 1] as u16;
    lo + 256 * hi
}

/// Reads the four bytes of `b` at `at` as a number.
pub fn read_le32(b: &[u8], at: usize) -> (x: u32)
    requires
        at + 4 <= b@.len(),
    ensures
        x == le32_at(b@, at as int),
{
    let _len = b.len();
    let lo: u32 = read_le16(b, at) as u32;
    let hi: u32 = read_le16(b, at + 2) as u32;
    lo + 65536 * hi
}

/// Reads the eight bytes of `b` at `at` as a number.
pub fn read_le64(b: &[u8], at: usize) -> (x: u64)
    requires
        at + 8 <= b@.len(),
    ensures
        x == le64_at(b@, at as int),
{
    let _len = b.len();
    let lo: u64 = read_le32(b, at) as u64;
    let hi: u64 = read_le32(b, at + 4) as u64;
    lo + 4294967296 * hi
}

/// Appends all of `src` to `dst`.
pub fn append_bytes(dst: &mut Vec<u8>, src: &[u8])
    ensures
        final(dst)@ == old(dst)@ + src@,
{
    let mut i: usize = 0;
    while i < src.len()
        invariant
            i <= src.len(),
            dst@ == old(dst)@ + src@.subrange(0, i as int),
        decreases src.len() - i,
    {
        dst.push(src[i]);
        i = i + 1;
    }
}

/// Copies a byte vector.
pub fn copy_bytes(v: &Vec<u8>) -> (r: Vec<u8>)
    ensures
        r@ == v@,
{
    let mut r: Vec<u8> = Vec::new();
    append_bytes(&mut r, v.as_slice());
    r
}

/// Copies the bytes of `b` from `from` up to `to`.
pub fn copy_range(b: &[u8], from: usize, to: usize) -> (r: Vec<u8>)
    requires
        from <= to <= b@.len(),
    ensures
        r@ == b@.subrange(from as int, to as int),
{
    let mut r: Vec<u8> = Vec::new();
    let mut i: usize = from;
    while i < to
        invariant
            from <= i <= to,
            to <= b.len(),
            r@ == b@.subrange(from as int, i as int),
        decreases to - i,
    {
        r.push(b[i]);
        i = i + 1;
    }
    r
}

/// Reads the 32 bytes of `bytes` that start at `start`.
pub fn read_hash(bytes: &[u8], start: usize) -> (r: [u8; 32])
    requires
        start + 32 <= bytes@.len(),
    ensures
        r@ == bytes@.subrange(start as int, start + 32),
{
    let mut r: [u8; 32] = [0u8; 32];
    let mut i: usize = 0;
    while i < 32
        invariant
            i <= 32,
            start + 32 <= bytes.len(),
            forall|j: int| 0 <= j < i ==> r@[j] == bytes@[start + j],
        decreases 32 - i,
    {
        r[i] = bytes[start + i];
        i = i + 1;
    }
    assert(r@ =~= bytes@.subrange(start as int, start + 32));
    r
}

/// Whether two byte strings are the same.
pub fn same_bytes(a: &[u8], b: &[u8]) -> (same: bool)
    ensures
        same == (a@ == b@),
{
    if a.len() != b.len() {
        return false;
    }
    let mut i: usize = 0;
    while i < a.len()
        invariant
            i <= a.len(),
            a.len() == b.len(),
            a@.subrange(0, i as int) == b@.subrange(0, i as int),
        decreases a.len() - i,
    {
        if a[i] != b[i] {
            return false;
        }
        assert(a@.subrange(0, i + 1) =~= a@.subrange(0, i as int).push(a@[i as int]));
        assert(b@.subrange(0, i + 1) =~= b@.subrange(0, i as int).push(b@[i as int]));
        i = i + 1;
    }
    assert(a@ =~= a@.subrange(0, a.len() as int));
    assert(b@ =~= b@.subrange(0, b.len() as int));
    true
}

/// Whether two hashes are the same.
pub fn same_hash(a: &[u8; 32], b: &[u8; 32]) -> (same: bool)
    ensures
        same == (*a == *b),
{
    let same = same_bytes(a.as_slice(), b.as_slice());
    proof {
        if same {
            assert(*a =~= *b);
        }
    }
    same
}

} // verus!
