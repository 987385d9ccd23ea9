//! Reading little-endian integers and 32-byte hashes out of raw bytes.

use vstd::prelude::*;

verus! {

/// The unsigned integer that the two bytes at `at` hold, least significant byte first.
pub open spec fn le_u16(s: Seq<u8>, at: int) -> int {
    s[at] + 0x100 * s[at + 1]
}

/// The unsigned integer that the four bytes at `at` hold, least significant byte first.
pub open spec fn le_u32(s: Seq<u8>, at: int) -> int {
    s[at] + 0x100 * s[at + 1] + 0x1_0000 * s[at + 2] + 0x100_0000 * s[at + 3]
}

/// The unsigned integer that the eight bytes at `at` hold, least significant byte first.
pub open spec fn le_u64(s: Seq<u8>, at: int) -> int {
    le_u32(s, at) + 0x1_0000_0000 * le_u32(s, at + 4)
}

/// The eight bytes of `value`, least significant byte first.
pub open spec fn u64_bytes(value: u64) -> Seq<u8> {
    seq![
        (value as int % 0x100) as u8,
        (value as int / 0x100 % 0x100) as u8,
        (value as int / 0x1_0000 % 0x100) as u8,
        (value as int / 0x100_0000 % 0x100) as u8,
        (value as int / 0x1_0000_0000 % 0x100) as u8,
        (value as int / 0x100_0000_0000 % 0x100) as u8,
        (value as int / 0x1_0000_0000_0000 % 0x100) as u8,
        (value as int / 0x100_0000_0000_0000 % 0x100) as u8,
    ]
}

/// The base-256 digits of an integer make it up.
proof fn lemma_u64_digits(value: u64)
    ensures
        value == value as int % 0x100 + 0x100 * (value as int / 0x100 % 0x100) + 0x1_0000 * (
        value as int / 0x1_0000 % 0x100) + 0x100_0000 * (value as int / 0x100_0000 % 0x100)
            + 0x1_0000_0000 * (value as int / 0x1_0000_0000 % 0x100) + 0x100_0000_0000 * (
        value as int / 0x100_0000_0000 % 0x100) + 0x1_0000_0000_0000 * (value as int
            / 0x1_0000_0000_0000 % 0x100) + 0x100_0000_0000_0000 * (value as int
            / 0x100_0000_0000_0000 % 0x100),
{
    let v = value as int;
    vstd::arithmetic::div_mod::lemma_div_denominator(v, 0x100, 0x100);
    vstd::arithmetic::div_mod::lemma_div_denominator(v, 0x1_0000, 0x100);
    vstd::arithmetic::div_mod::lemma_div_denominator(v, 0x100_0000, 0x100);
    vstd::arithmetic::div_mod::lemma_div_denominator(v, 0x1_0000_0000, 0x100);
    vstd::arithmetic::div_mod::lemma_div_denominator(v, 0x100_0000_0000, 0x100);
    vstd::arithmetic::div_mod::lemma_div_denominator(v, 0x1_0000_0000_0000, 0x100);
    let q1 = v / 0x100;
    let q2 = q1 / 0x100;
    let q3 = q2 / 0x100;
    let q4 = q3 / 0x100;
    let q5 = q4 / 0x100;
    let q6 = q5 / 0x100;
    let q7 = q6 / 0x100;
    assert(v == 0x100 * q1 + v % 0x100);
    assert(q1 == 0x100 * q2 + q1 % 0x100);
    assert(q2 == 0x100 * q3 + q2 % 0x100);
    assert(q3 == 0x100 * q4 + q3 % 0x100);
    assert(q4 == 0x100 * q5 + q4 % 0x100);
    assert(q5 == 0x100 * q6 + q5 % 0x100);
    assert(q6 == 0x100 * q7 + q6 % 0x100);
    assert(q7 % 0x100 == q7);
}

/// Reading the bytes of an integer gives the integer back, wherever they stand.
pub proof fn lemma_u64_bytes_read_back(s: Seq<u8>, at: int, value: u64)
    requires
        0 <= at,
        at + 8 <= s.len(),
        s.subrange(at, at + 8) == u64_bytes(value),
    ensures
        le_u64(s, at) == value,
{
    let part = s.subrange(at, at + 8);
    assert(s[at] == part[0]);
    assert(s[at + 1] == part[1]);
    assert(s[at + 2] == part[2]);
    assert(s[at + 3] == part[3]);
    assert(s[at + 4] == part[4]);
    assert(s[at + 5] == part[5]);
    assert(s[at + 6] == part[6]);
    assert(s[at + 7] == part[7]);
    lemma_u64_digits(value);
}

/// The 32 bytes that start at `at`.
pub open spec fn hash_at(s: Seq<u8>, at: int) -> Seq<u8> {
    s.subrange(at, at + 32)
}

/// 32 zero bytes.
pub open spec fn zero_hash() -> Seq<u8> {
    Seq::new(32, |i: int| 0u8)
}

/// Reads the two-byte integer at `at`.
pub fn read_u16(data: &[u8], at: usize) -> (value: u16)
    requires
        at + 2 <= data.len(),
    ensures
        value == le_u16(data@, at as int),
        value == data@[at as int] + 0x100 * data@[at + 1],
{
    data[at] as u16 + 0x100 * (data[at + 1] as u16)
}

/// Reads the four-byte integer at `at`.
pub fn read_u32(data: &[u8], at: usize) -> (value: u32)
    requires
        at + 4 <= data.len(),
    ensures
        value == le_u32(data@, at as int),
        value == data@[at as int] + 0x100 * data@[at + 1] + 0x1_0000 * data@[at + 2] + 0x100_0000
            * data@[at + 3],
{
    data[at] as u32 + 0x100 * (data[at + 1] as u32) + 0x1_0000 * (data[at + 2] as u32)
        + 0x100_0000 * (data[at + 3] as u32)
}

/// Reads the eight-byte integer at `at`.
pub fn read_u64(data: &[u8], at: usize) -> (value: u64)
    requires
        at + 8 <= data.len(),
    ensures
        value == le_u64(data@, at as int),
        value == data@[at as int] + 0x100 * data@[at + 1] + 0x1_0000 * data@[at + 2] + 0x100_0000
            * data@[at + 3] + 0x1_0000_0000 * data@[at + 4] + 0x100_0000_0000 * data@[at + 5]
            + 0x1_0000_0000_0000 * data@[at + 6] + 0x100_0000_0000_0000 * data@[at + 7],
{
    let low: u32 = read_u32(data, at);
    let high: u32 = read_u32(data, at + 4);
    low as u64 + 0x1_0000_0000 * (high as u64)
}

/// Reads the 32-byte hash (or address) at `at`.
pub fn read_hash(data: &[u8], at: usize) -> (hash: [u8; 32])
    requires
        at + 32 <= data.len(),
    ensures
        hash@ == hash_at(data@, at as int),
        forall|k: int| 0 <= k < 32 ==> #[trigger] hash@[k] == data@[at + k],
{
    let mut hash: [u8; 32] = [0u8; 32];
    let mut k: usize = 0;
    while k < 32
        invariant
            k <= 32,
            at + 32 <= data.len(),
            forall|i: int| 0 <= i < k ==> #[trigger] hash@[i] == data@[at + i],
        decreases 32 - k,
    {
        hash[k] = data[at + k];
        k = k + 1;
    }
    assert(hash@ =~= hash_at(data@, at as int));
    hash
}

/// Copies the bytes from `from` up to `to` (exclusive).
pub fn copy_range(data: &[u8], from: usize, to: usize) -> (part: Vec<u8>)
    requires
        from <= to <= data.len(),
    ensures
        part@ == data@.subrange(from as int, to as int),
{
    let mut part: Vec<u8> = Vec::new();
    let mut k: usize = from;
    while k < to
        invariant
            from <= k <= to <= data.len(),
            part@ == data@.subrange(from as int, k as int),
        decreases to - k,
    {
        part.push(data[k]);
        k = k + 1;
        assert(part@ =~= data@.subrange(from as int, k as int));
    }
    part
}

/// Puts two hashes one behind the other: the 64 bytes under a hash of the pair.
pub fn join_hashes(left: &[u8; 32], right: &[u8; 32]) -> (joined: [u8; 64])
    ensures
        joined@ == left@ + right@,
{
    let mut joined: [u8; 64] = [0u8; 64];
    let mut k: usize = 0;
    while k < 32
        invariant
            k <= 32,
            forall|i: int| 0 <= i < k ==> #[trigger] joined@[i] == left@[i],
            forall|i: int| 32 <= i < 32 + k ==> #[trigger] joined@[i] == right@[i - 32],
        decreases 32 - k,
    {
        joined[k] = left[k];
        joined[32 + k] = right[k];
        k = k + 1;
    }
    assert(joined@ =~= left@ + right@);
    joined
}

/// Whether two hashes (or addresses) are the same 32 bytes.
pub fn same_hash(a: &[u8; 32], b: &[u8; 32]) -> (same: bool)
    ensures
        same == (a@ == b@),
{
    let mut k: usize = 0;
    while k < 32
        invariant
            k <= 32,
            forall|i: int| 0 <= i < k ==> #[trigger] a@[i] == b@[i],
        decreases 32 - k,
    {
        if a[k] != b[k] {
            assert(a@[k as int] != b@[k as int]);
            return false;
        }
        k = k + 1;
    }
    assert(a@ =~= b@);
    true
}

/// Integers are read by their base-256 digits, the least significant one first, each a
/// byte of the data; and a hash is the 32 bytes that follow each other.
pub proof fn bytes_are_digits_least_significant_first(s: Seq<u8>, at: int)
    ensures
        le_u16(s, at) % 0x100 == s[at],
        le_u16(s, at) / 0x100 == s[at + 1],
        le_u32(s, at) % 0x1_0000 == le_u16(s, at),
        le_u32(s, at) / 0x1_0000 == le_u16(s, at + 2),
        le_u64(s, at) % 0x1_0000_0000 == le_u32(s, at),
        le_u64(s, at) / 0x1_0000_0000 == le_u32(s, at + 4),
        0 <= le_u64(s, at) <= u64::MAX,
        0 <= at && at + 32 <= s.len() ==> {
            &&& hash_at(s, at).len() == 32
            &&& forall|k: int| 0 <= k < 32 ==> #[trigger] hash_at(s, at)[k] == s[at + k]
        },
        zero_hash().len() == 32,
        forall|k: int| 0 <= k < 32 ==> #[trigger] zero_hash()[k] == 0,
{
    let word16 = le_u16(s, at);
    let word32 = le_u32(s, at);
    let word64 = le_u64(s, at);
    let next16 = le_u16(s, at + 2);
    let next32 = le_u32(s, at + 4);
    assert(word32 == next16 * 0x1_0000 + word16);
    assert(word64 == next32 * 0x1_0000_0000 + word32);
    vstd::arithmetic::div_mod::lemma_fundamental_div_mod_converse(
        word16,
        0x100,
        s[at + 1] as int,
        s[at] as int,
    );
    vstd::arithmetic::div_mod::lemma_fundamental_div_mod_converse(
        word32,
        0x1_0000,
        next16,
        word16,
    );
    vstd::arithmetic::div_mod::lemma_fundamental_div_mod_converse(
        word64,
        0x1_0000_0000,
        next32,
        word32,
    );
}

} // verus!
