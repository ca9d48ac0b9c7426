//! Little-endian integers inside byte sequences.
use vstd::prelude::*;

verus! {

/// The 16-bit little-endian integer at offset `i` of `s`.
pub open spec fn le16_at(s: Seq<u8>, i: int) -> int {
    s[i] + 0x100 * s[i + 1]
}

/// The 32-bit little-endian integer at offset `i` of `s`.
pub open spec fn le32_at(s: Seq<u8>, i: int) -> int {
    s[i] + 0x100 * s[i + 1] + 0x1_0000 * s[i + 2] + 0x100_0000 * s[i + 3]
}

/// The 64-bit little-endian integer at offset `i` of `s`.
pub open spec fn le64_at(s: Seq<u8>, i: int) -> int {
    le32_at(s, i) + 0x1_0000_0000 * le32_at(s, i + 4)
}

/// The two bytes of `x`, least significant first.
pub open spec fn le16_bytes(x: int) -> Seq<u8> {
    seq![(x % 0x100) as u8, ((x / 0x100) % 0x100) as u8]
}

/// The four bytes of `x`, least significant first.
pub open spec fn le32_bytes(x: int) -> Seq<u8> {
    seq![
        (x % 0x100) as u8,
        ((x / 0x100) % 0x100) as u8,
        ((x / 0x1_0000) % 0x100) as u8,
        ((x / 0x100_0000) % 0x100) as u8,
    ]
}

/// The eight bytes of `x`, least significant first.
pub open spec fn le64_bytes(x: int) -> Seq<u8> {
    le32_bytes(x % 0x1_0000_0000) + le32_bytes(x / 0x1_0000_0000)
}

/// Reading back the two bytes of a 16-bit integer gives the integer.
pub proof fn lemma_le16_round_trip(x: u16)
    ensures
        le16_at(le16_bytes(x as int), 0) == x,
{
}

/// Reading back the four bytes of a 32-bit integer gives the integer.
#[verifier::spinoff_prover]
pub proof fn lemma_le32_round_trip(x: u32)
    ensures
        le32_at(le32_bytes(x as int), 0) == x,
{
    let n = x as int;
    let (d, c) = (n / 0x100_0000, (n / 0x1_0000) % 0x100);
    let (b, a) = ((n / 0x100) % 0x100, n % 0x100);
    assert(n == 0x100_0000 * d + 0x1_0000 * c + 0x100 * b + a);
    assert(d % 0x100 == d);
}

/// Reading back the eight bytes of a 64-bit integer gives the integer.
pub proof fn lemma_le64_round_trip(x: u64)
    ensures
        le64_at(le64_bytes(x as int), 0) == x,
{
    let lo: u32 = (x % 0x1_0000_0000) as u32;
    let hi: u32 = (x / 0x1_0000_0000) as u32;
    lemma_le32_round_trip(lo);
    lemma_le32_round_trip(hi);
    let s = le64_bytes(x as int);
    assert(s.subrange(0, 4) =~= le32_bytes(lo as int));
    assert(s.subrange(4, 8) =~= le32_bytes(hi as int));
    assert(le32_at(s, 0) == le32_at(s.subrange(0, 4), 0));
    assert(le32_at(s, 4) == le32_at(s.subrange(4, 8), 0));
}

/// An integer stands in a longer sequence as it stands in the piece that holds it.
pub proof fn lemma_le_in_piece(s: Seq<u8>, from: int, to: int, i: int)
    requires
        0 <= from <= i <= to <= s.len(),
    ensures
        i + 2 <= to ==> le16_at(s.subrange(from, to), i - from) == le16_at(s, i),
        i + 4 <= to ==> le32_at(s.subrange(from, to), i - from) == le32_at(s, i),
        i + 8 <= to ==> le64_at(s.subrange(from, to), i - from) == le64_at(s, i),
{
}

/// Where the bytes of an integer stand, the integer stands.
pub proof fn lemma_le16_found(s: Seq<u8>, i: int, x: u16)
    requires
        0 <= i,
        i + 2 <= s.len(),
        s.subrange(i, i + 2) == le16_bytes(x as int),
    ensures
        le16_at(s, i) == x,
{
    lemma_le16_round_trip(x);
    lemma_le_in_piece(s, i, i + 2, i);
}

/// Where the bytes of an integer stand, the integer stands.
pub proof fn lemma_le32_found(s: Seq<u8>, i: int, x: u32)
    requires
        0 <= i,
        i + 4 <= s.len(),
        s.subrange(i, i + 4) == le32_bytes(x as int),
    ensures
        le32_at(s, i) == x,
{
    lemma_le32_round_trip(x);
    lemma_le_in_piece(s, i, i + 4, i);
}

/// Where the bytes of an integer stand, the integer stands.
pub proof fn lemma_le64_found(s: Seq<u8>, i: int, x: u64)
    requires
        0 <= i,
        i + 8 <= s.len(),
        s.subrange(i, i + 8) == le64_bytes(x as int),
    ensures
        le64_at(s, i) == x,
{
    lemma_le64_round_trip(x);
    lemma_le_in_piece(s, i, i + 8, i);
}

/// The bytes of the integer at offset `i` are those that stand there.
pub proof fn lemma_le16_stands(s: Seq<u8>, i: int)
    requires
        0 <= i,
        i + 2 <= s.len(),
    ensures
        0 <= le16_at(s, i) <= u16::MAX,
        le16_bytes(le16_at(s, i)) == s.subrange(i, i + 2),
{
    assert(le16_bytes(le16_at(s, i)) =~= s.subrange(i, i + 2));
}

/// The bytes of the integer at offset `i` are those that stand there.
#[verifier::spinoff_prover]
pub proof fn lemma_le32_stands(s: Seq<u8>, i: int)
    requires
        0 <= i,
        i + 4 <= s.len(),
    ensures
        0 <= le32_at(s, i) <= u32::MAX,
        le32_bytes(le32_at(s, i)) == s.subrange(i, i + 4),
{
    let (a, b, c, d) = (s[i] as int, s[i + 1] as int, s[i + 2] as int, s[i + 3] as int);
    let x = le32_at(s, i);
    assert(x == a + 0x100 * b + 0x1_0000 * c + 0x100_0000 * d);
    assert(x / 0x100 == b + 0x100 * c + 0x1_0000 * d);
    assert(x / 0x1_0000 == c + 0x100 * d);
    assert(x / 0x100_0000 == d);
    assert(x % 0x100 == a);
    assert((x / 0x100) % 0x100 == b);
    assert((x / 0x1_0000) % 0x100 == c);
    assert(le32_bytes(x) =~= s.subrange(i, i + 4));
}

/// The bytes of the integer at offset `i` are those that stand there.
#[verifier::spinoff_prover]
pub proof fn lemma_le64_stands(s: Seq<u8>, i: int)
    requires
        0 <= i,
        i + 8 <= s.len(),
    ensures
        0 <= le64_at(s, i) <= u64::MAX,
        le64_bytes(le64_at(s, i)) == s.subrange(i, i + 8),
{
    let (lo, hi) = (le32_at(s, i), le32_at(s, i + 4));
    lemma_le32_stands(s, i);
    lemma_le32_stands(s, i + 4);
    lemma_halves(lo, hi);
    assert(le64_bytes(le64_at(s, i)) == s.subrange(i, i + 4) + s.subrange(i + 4, i + 8));
    assert(s.subrange(i, i + 4) + s.subrange(i + 4, i + 8) =~= s.subrange(i, i + 8));
}

/// Two halves of 32 bits stand in an integer of 64 bits as they are.
proof fn lemma_halves(lo: int, hi: int)
    requires
        0 <= lo <= u32::MAX,
        0 <= hi <= u32::MAX,
    ensures
        (lo + 0x1_0000_0000 * hi) % 0x1_0000_0000 == lo,
        (lo + 0x1_0000_0000 * hi) / 0x1_0000_0000 == hi,
        0 <= lo + 0x1_0000_0000 * hi <= u64::MAX,
{
}

/// Reads the 16-bit little-endian integer at offset `i`.
pub fn read_le16(s: &[u8], i: usize) -> (x: u16)
    requires
        i + 2 <= s.len(),
    ensures
        x == le16_at(s@, i as int),
{
    s[i] as u16 + 0x100 * (s[i + 1] as u16)
}

/// Reads the 32-bit little-endian integer at offset `i`.
pub fn read_le32(s: &[u8], i: usize) -> (x: u32)
    requires
        i + 4 <= s.len(),
    ensures
        x == le32_at(s@, i as int),
{
    s[i] as u32 + 0x100 * (s[i + 1] as u32) + 0x1_0000 * (s[i + 2] as u32) + 0x100_0000 * (s[i
        + 3] as u32)
}

/// Reads the 64-bit little-endian integer at offset `i`.
pub fn read_le64(s: &[u8], i: usize) -> (x: u64)
    requires
        i + 8 <= s.len(),
    ensures
        x == le64_at(s@, i as int),
{
    read_le32(s, i) as u64 + 0x1_0000_0000 * (read_le32(s, i + 4) as u64)
}

/// Appends the two bytes of `x`, least significant first.
pub fn push_le16(v: &mut Vec<u8>, x: u16)
    ensures
        final(v)@ == old(v)@ + le16_bytes(x as int),
{
    v.push((x % 0x100) as u8);
    v.push((x / 0x100) as u8);
    assert(v@ =~= old(v)@ + le16_bytes(x as int));
}

/// Appends the four bytes of `x`, least significant first.
pub fn push_le32(v: &mut Vec<u8>, x: u32)
    ensures
        final(v)@ == old(v)@ + le32_bytes(x as int),
{
    v.push((x % 0x100) as u8);
    v.push(((x / 0x100) % 0x100) as u8);
    v.push(((x / 0x1_0000) % 0x100) as u8);
    v.push(((x / 0x100_0000) % 0x100) as u8);
    assert(v@ =~= old(v)@ + le32_bytes(x as int));
}

/// Appends the eight bytes of `x`, least significant first.
pub fn push_le64(v: &mut Vec<u8>, x: u64)
    ensures
        final(v)@ == old(v)@ + le64_bytes(x as int),
{
    push_le32(v, (x % 0x1_0000_0000) as u32);
    push_le32(v, (x / 0x1_0000_0000) as u32);
    assert(v@ =~= old(v)@ + le64_bytes(x as int));
}

/// Copies the part of `s` between two offsets.
pub fn copy_range(s: &[u8], from: usize, to: usize) -> (v: Vec<u8>)
    requires
        from <= to <= s@.len(),
    ensures
        v@ == s@.subrange(from as int, to as int),
{
    vstd::slice::slice_to_vec(vstd::slice::slice_subrange(s, from, to))
}

/// Appends all of `s`.
pub fn push_all(v: &mut Vec<u8>, s: &[u8])
    ensures
        final(v)@ == old(v)@ + s@,
{
    v.extend_from_slice(s);
    assert(v@ =~= old(v)@ + s@);
}

/// A vector of `n` zero bytes.
pub fn zeros(n: usize) -> (v: Vec<u8>)
    ensures
        v@ == Seq::new(n as nat, |i: int| 0u8),
{
    let v: Vec<u8> = vec![0u8; n];
    assert(v@ =~= Seq::new(n as nat, |i: int| 0u8));
    v
}

} // verus!
