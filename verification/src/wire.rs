//! Bytes on the wire: big-endian integers, fixed-size fields and incremental decoding.

use vstd::prelude::*;
use vstd::slice::*;

verus! {

/// The outcome of decoding a prefix of a byte stream.
pub enum Decoded<T, E> {
    /// At least this many more bytes have to be read before anything else is known.
    Need(usize),
    /// A value, and how many of the bytes it took.
    Done(T, usize),
    /// The bytes cannot be the start of a value.
    Fail(E),
}

/// What decoding a prefix of a byte stream comes to.
pub enum Progress<V, E> {
    Need(int),
    Done(V, int),
    Fail(E),
}

impl<T: View, E> Decoded<T, E> {
    /// The outcome in terms of what the value stands for.
    pub open spec fn progress(self) -> Progress<T::V, E> {
        match self {
            Decoded::Need(more) => Progress::Need(more as int),
            Decoded::Done(value, used) => Progress::Done(value@, used as int),
            Decoded::Fail(error) => Progress::Fail(error),
        }
    }
}

/// `s` from byte `a` on.
pub open spec fn after(s: Seq<u8>, a: int) -> Seq<u8> {
    s.subrange(a, s.len() as int)
}

/// The big-endian number in bytes `i` and `i + 1` of `s`.
pub open spec fn u16_at(s: Seq<u8>, i: int) -> int {
    s[i] * 256 + s[i + 1]
}

/// The big-endian number in bytes `i` to `i + 2` of `s`.
pub open spec fn u24_at(s: Seq<u8>, i: int) -> int {
    s[i] * 65536 + s[i + 1] * 256 + s[i + 2]
}

/// The big-endian number in bytes `i` to `i + 3` of `s`.
pub open spec fn u32_at(s: Seq<u8>, i: int) -> int {
    s[i] * 16777216 + s[i + 1] * 65536 + s[i + 2] * 256 + s[i + 3]
}

/// `n` as two bytes, the high one first.
pub open spec fn be16(n: int) -> Seq<u8> {
    seq![(n / 256) as u8, (n % 256) as u8]
}

/// A run of `n` bytes `b`.
pub open spec fn repeated(b: u8, n: nat) -> Seq<u8> {
    Seq::new(n, |i: int| b)
}

/// The number in bytes `i` and `i + 1` of `s`.
pub fn get_u16(s: &[u8], i: usize) -> (r: u16)
    requires
        i + 2 <= s@.len(),
    ensures
        r == u16_at(s@, i as int),
{
    (s[i] as u16) * 256 + s[i + 1] as u16
}

/// The number in bytes `i` to `i + 2` of `s`.
pub fn get_u24(s: &[u8], i: usize) -> (r: usize)
    requires
        i + 3 <= s@.len(),
    ensures
        r == u24_at(s@, i as int),
{
    (s[i] as usize) * 65536 + (s[i + 1] as usize) * 256 + s[i + 2] as usize
}

/// The number in bytes `i` to `i + 3` of `s`.
pub fn get_u32(s: &[u8], i: usize) -> (r: u32)
    requires
        i + 4 <= s@.len(),
    ensures
        r == u32_at(s@, i as int),
{
    (s[i] as u32) * 16777216 + (s[i + 1] as u32) * 65536 + (s[i + 2] as u32) * 256 + s[i + 3] as u32
}

/// Appends `data` to `out`.
pub fn append(out: &mut Vec<u8>, data: &[u8])
    ensures
        final(out)@ == old(out)@ + data@,
{
    out.extend_from_slice(data);
    assert(out@ =~= old(out)@ + data@);
}

/// Appends `n`, high byte first, to `out`.
pub fn append_u16(out: &mut Vec<u8>, n: u16)
    ensures
        final(out)@ == old(out)@ + be16(n as int),
{
    out.push((n / 256) as u8);
    out.push((n % 256) as u8);
    assert(out@ =~= old(out)@ + be16(n as int));
}

/// A copy of bytes `a..b` of `s`.
pub fn copy_part(s: &[u8], a: usize, b: usize) -> (r: Vec<u8>)
    requires
        a <= b <= s@.len(),
    ensures
        r@ == s@.subrange(a as int, b as int),
{
    let mut out: Vec<u8> = Vec::new();
    append(&mut out, slice_subrange(s, a, b));
    assert(out@ =~= s@.subrange(a as int, b as int));
    out
}

/// A copy of `s`.
pub fn copy(s: &[u8]) -> (r: Vec<u8>)
    ensures
        r@ == s@,
{
    let r = copy_part(s, 0, s.len());
    assert(r@ =~= s@);
    r
}

/// The `N` bytes of `s` from byte `a` on, as an array.
pub fn array_at<const N: usize>(s: &[u8], a: usize) -> (r: [u8; N])
    requires
        a + N <= s@.len(),
    ensures
        r@ == s@.subrange(a as int, a + N),
{
    let total: usize = s.len();
    let mut out: [u8; N] = [0u8; N];
    for i in 0..N
        invariant
            total == s@.len(),
            a + N <= total,
            out@.len() == N,
            forall|k: int| 0 <= k < i ==> out@[k] == s@[a + k],
    {
        out[i] = s[a + i];
    }
    assert(out@ =~= s@.subrange(a as int, a + N));
    out
}

/// Whether `a` and `b` hold the same bytes.
pub fn same(a: &[u8], b: &[u8]) -> (r: bool)
    ensures
        r == (a@ == b@),
{
    if a.len() != b.len() {
        return false;
    }
    for i in 0..a.len()
        invariant
            a@.len() == b@.len(),
            forall|k: int| 0 <= k < i ==> a@[k] == b@[k],
    {
        if a[i] != b[i] {
            return false;
        }
    }
    assert(a@ =~= b@);
    true
}

/// The high byte of a number goes first, and two bytes are read back as they were written, wherever
/// they stand.
pub proof fn lemma_be16_round_trip(n: int, before: Seq<u8>, rest: Seq<u8>)
    requires
        0 <= n < 65536,
    ensures
        be16(n).len() == 2,
        be16(n)[0] as int * 256 + be16(n)[1] as int == n,
        u16_at(before + be16(n) + rest, before.len() as int) == n,
{
    let all = before + be16(n) + rest;
    assert(all[before.len() as int] == be16(n)[0]);
    assert(all[before.len() as int + 1] == be16(n)[1]);
}

/// Longer numbers are read with their high bytes first: a byte more in front counts for what is
/// behind it.
pub proof fn lemma_long_numbers(s: Seq<u8>, i: int)
    ensures
        u24_at(s, i) == s[i] as int * 65536 + u16_at(s, i + 1),
        u32_at(s, i) == u16_at(s, i) * 65536 + u16_at(s, i + 2),
{
}

} // verus!
