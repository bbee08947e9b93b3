//! Byte arrays: comparing, cutting out, laying in.

use vstd::prelude::*;

verus! {

/// `data` with `piece` written over it from `at` on.
pub open spec fn overlaid(data: Seq<u8>, at: int, piece: Seq<u8>) -> Seq<u8> {
    data.take(at) + piece + data.skip(at + piece.len())
}

/// `n` zero bytes.
pub open spec fn zeros(n: nat) -> Seq<u8> {
    Seq::new(n, |i: int| 0u8)
}

/// The number two bytes spell, most significant first.
pub open spec fn be16(hi: u8, lo: u8) -> int {
    hi * 256 + lo
}

/// Whether two byte arrays hold the same bytes.
pub fn same<const N: usize>(a: &[u8; N], b: &[u8; N]) -> (r: bool)
    ensures
        r == (*a == *b),
{
    let mut i: usize = 0;
    while i < N
        invariant
            0 <= i <= N,
            forall|k: int| 0 <= k < i ==> a[k] == b[k],
        decreases N - i,
    {
        if a[i] != b[i] {
            return false;
        }
        i += 1;
    }
    assert(*a =~= *b);
    true
}

/// Whether every byte is zero.
pub fn is_zero<const N: usize>(a: &[u8; N]) -> (r: bool)
    ensures
        r == (a@ == zeros(N as nat)),
{
    let mut i: usize = 0;
    while i < N
        invariant
            0 <= i <= N,
            forall|k: int| 0 <= k < i ==> a[k] == 0,
        decreases N - i,
    {
        if a[i] != 0 {
            assert(a@[i as int] != zeros(N as nat)[i as int]);
            return false;
        }
        i += 1;
    }
    assert(a@ =~= zeros(N as nat));
    true
}

/// The `N` bytes of `bytes` from `at` on.
pub fn array_at<const N: usize>(bytes: &[u8], at: usize) -> (r: [u8; N])
    requires
        at + N <= bytes.len(),
    ensures
        r@ == bytes@.subrange(at as int, at + N),
{
    let mut r = [0u8; N];
    let mut i: usize = 0;
    while i < N
        invariant
            0 <= i <= N,
            at + N <= bytes.len(),
            forall|k: int| 0 <= k < i ==> r[k] == bytes[at + k],
        decreases N - i,
    {
        r[i] = bytes[at + i];
        i += 1;
    }
    r
}

/// Writes `piece` over `data` from `at` on.
pub fn put<const N: usize>(data: &mut [u8; N], at: usize, piece: &[u8])
    requires
        at + piece.len() <= N,
    ensures
        final(data)@ == overlaid(old(data)@, at as int, piece@),
{
    let mut i: usize = 0;
    while i < piece.len()
        invariant
            0 <= i <= piece.len(),
            at + piece.len() <= N,
            data@.len() == N,
            forall|k: int| 0 <= k < N ==> #[trigger] data@[k] == if at <= k < at + i {
                piece[k - at]
            } else {
                old(data)@[k]
            },
        decreases piece.len() - i,
    {
        data[at + i] = piece[i];
        i += 1;
    }
    assert(data@ =~= overlaid(old(data)@, at as int, piece@));
}

/// The two bytes of `value`, most significant first.
pub fn be16_bytes(value: u16) -> (r: [u8; 2])
    ensures
        r@ == seq![(value / 256) as u8, (value % 256) as u8],
        be16(r[0], r[1]) == value,
{
    let r = [(value / 256) as u8, (value % 256) as u8];
    assert(r@ =~= seq![(value / 256) as u8, (value % 256) as u8]);
    r
}

/// The number two bytes spell, most significant first.
pub fn from_be16(hi: u8, lo: u8) -> (r: u16)
    ensures
        r == be16(hi, lo),
{
    hi as u16 * 256 + lo as u16
}

/// The two bytes of a number, least significant first.
pub open spec fn le16(value: u16) -> Seq<u8> {
    seq![(value % 256) as u8, (value / 256) as u8]
}

/// The four bytes of a number, least significant first.
pub open spec fn le32(value: u32) -> Seq<u8> {
    le16((value % 65536) as u16) + le16((value / 65536) as u16)
}

/// The number that two bytes spell, least significant first.
pub open spec fn in_le16(lo: u8, hi: u8) -> u16 {
    (hi * 256 + lo) as u16
}

/// The number that four bytes spell, least significant first.
pub open spec fn in_le32(bytes: Seq<u8>) -> u32 {
    (in_le16(bytes[2], bytes[3]) * 65536 + in_le16(bytes[0], bytes[1])) as u32
}

/// The two bytes of `value`, least significant first.
pub fn le16_bytes(value: u16) -> (r: [u8; 2])
    ensures
        r@ == le16(value),
{
    let r = [(value % 256) as u8, (value / 256) as u8];
    assert(r@ =~= le16(value));
    r
}

/// The four bytes of `value`, least significant first.
pub fn le32_bytes(value: u32) -> (r: [u8; 4])
    ensures
        r@ == le32(value),
{
    let low = le16_bytes((value % 65536) as u16);
    let high = le16_bytes((value / 65536) as u16);
    let r = [low[0], low[1], high[0], high[1]];
    assert(r@ =~= le32(value));
    r
}

/// The number that four bytes spell, least significant first.
pub fn from_le32(bytes: &[u8; 4]) -> (r: u32)
    ensures
        r == in_le32(bytes@),
{
    let low: u32 = bytes[1] as u32 * 256 + bytes[0] as u32;
    let high: u32 = bytes[3] as u32 * 256 + bytes[2] as u32;
    high * 65536 + low
}

/// A number reads back from its bytes.
pub proof fn le32_reads_back(value: u32)
    ensures
        in_le32(le32(value)) == value,
        le32(value).len() == 4,
{
}

} // verus!
