//! Chunks of received bytes, held as `bytes::Bytes` and handed out piece by piece.

use bytes::{Buf, Bytes};
use vstd::prelude::*;
use vstd::slice::*;

verus! {

/// `bytes::Bytes`, a shared run of bytes.
#[verifier::external_type_specification]
#[verifier::external_body]
pub struct ExBytes(bytes::Bytes);

/// The bytes that a `bytes::Bytes` holds.
pub uninterp spec fn bytes_of(b: bytes::Bytes) -> Seq<u8>;

/// `Bytes::from(Vec<u8>)`: holds the bytes of `data`.
#[verifier::external_body]
fn bytes_from_vec(data: Vec<u8>) -> (r: Bytes)
    ensures
        bytes_of(r) == data@,
{
    Bytes::from(data)
}

/// `Bytes::copy_from_slice`: holds a copy of `data`.
pub assume_specification[ bytes::Bytes::copy_from_slice ](data: &[u8]) -> (r: bytes::Bytes)
    ensures
        bytes_of(r) == data@,
;

/// `Bytes::len`: how many bytes are held.
pub assume_specification[ bytes::Bytes::len ](b: &bytes::Bytes) -> (r: usize)
    ensures
        r == bytes_of(*b).len(),
;

/// `Deref` of `Bytes` to a slice: the bytes that are held.
#[verifier::external_body]
fn bytes_as_slice(b: &Bytes) -> (r: &[u8])
    ensures
        r@ == bytes_of(*b),
{
    &b[..]
}

/// `Buf::advance` of `Bytes`: drops the first `count` bytes. It panics when there are fewer.
#[verifier::external_body]
fn bytes_advance(b: &mut Bytes, count: usize)
    requires
        count <= bytes_of(*old(b)).len(),
    ensures
        bytes_of(*final(b)) == bytes_of(*old(b)).subrange(
            count as int,
            bytes_of(*old(b)).len() as int,
        ),
{
    b.advance(count);
}

/// `Bytes::split_to`: takes the first `at` bytes out. It panics when there are fewer.
pub assume_specification[ bytes::Bytes::split_to ](b: &mut bytes::Bytes, at: usize) -> (r:
    bytes::Bytes)
    requires
        at <= bytes_of(*old(b)).len(),
    ensures
        bytes_of(r) == bytes_of(*old(b)).subrange(0, at as int),
        bytes_of(*final(b)) == bytes_of(*old(b)).subrange(
            at as int,
            bytes_of(*old(b)).len() as int,
        ),
;

/// A run of received bytes.
pub struct Chunk {
    inner: Bytes,
}

impl View for Chunk {
    type V = Seq<u8>;

    closed spec fn view(&self) -> Seq<u8> {
        bytes_of(self.inner)
    }
}

/// The smaller of `a` and `b`.
pub open spec fn least(a: int, b: int) -> int {
    if a <= b {
        a
    } else {
        b
    }
}

impl Chunk {
    /// A chunk that holds `data`.
    pub fn from_vec(data: Vec<u8>) -> (r: Chunk)
        ensures
            r@ == data@,
    {
        Chunk { inner: bytes_from_vec(data) }
    }

    /// A chunk that holds a copy of `data`.
    pub fn copy_from_slice(data: &[u8]) -> (r: Chunk)
        ensures
            r@ == data@,
    {
        Chunk { inner: Bytes::copy_from_slice(data) }
    }

    pub fn len(&self) -> (r: usize)
        ensures
            r == self@.len(),
    {
        self.inner.len()
    }

    pub fn is_empty(&self) -> (r: bool)
        ensures
            r == (self@.len() == 0),
    {
        self.inner.len() == 0
    }

    pub fn as_slice(&self) -> (r: &[u8])
        ensures
            r@ == self@,
    {
        bytes_as_slice(&self.inner)
    }

    /// Takes up to `room` bytes off the front.
    pub fn take(&mut self, room: usize) -> (r: Vec<u8>)
        ensures
            r@ == old(self)@.subrange(0, least(old(self)@.len() as int, room as int)),
            final(self)@ == old(self)@.subrange(
                least(old(self)@.len() as int, room as int),
                old(self)@.len() as int,
            ),
            r@ + final(self)@ == old(self)@,
    {
        let ghost before = self@;
        let len: usize = if self.len() <= room {
            self.len()
        } else {
            room
        };
        let out = crate::wire::copy_part(self.as_slice(), 0, len);
        bytes_advance(&mut self.inner, len);
        assert(out@ + self@ =~= before);
        out
    }

    /// Splits off what a send of at most `capacity` bytes can carry.
    pub fn split_capacity(&mut self, capacity: usize) -> (r: Chunk)
        ensures
            r@ == old(self)@.subrange(0, least(old(self)@.len() as int, capacity as int)),
            r@ + final(self)@ == old(self)@,
            capacity > 0 && old(self)@.len() > 0 ==> final(self)@.len() < old(self)@.len(),
    {
        let ghost before = self@;
        let len: usize = if self.len() <= capacity {
            self.len()
        } else {
            capacity
        };
        let r = Chunk { inner: self.inner.split_to(len) };
        assert(r@ + self@ =~= before);
        r
    }

    /// The bytes.
    pub fn to_vec(&self) -> (r: Vec<u8>)
        ensures
            r@ == self@,
    {
        crate::wire::copy(self.as_slice())
    }
}

/// Bytes that were read ahead of a stream and come before what is read from it.
pub struct Prefix {
    prefix: Chunk,
}

impl View for Prefix {
    type V = Seq<u8>;

    closed spec fn view(&self) -> Seq<u8> {
        self.prefix@
    }
}

impl Prefix {
    pub fn new(prefix: Vec<u8>) -> (r: Prefix)
        ensures
            r@ == prefix@,
    {
        Prefix { prefix: Chunk::from_vec(prefix) }
    }

    /// What a read into `room` bytes gets: the next bytes of the prefix, or `None` when the prefix
    /// is used up and the stream itself is to be read.
    pub fn read(&mut self, room: usize) -> (r: Option<Vec<u8>>)
        ensures
            match r {
                Some(out) => {
                    &&& old(self)@.len() > 0
                    &&& out@ == old(self)@.subrange(0, least(old(self)@.len() as int, room as int))
                    &&& out@ + final(self)@ == old(self)@
                },
                None => old(self)@.len() == 0 && final(self)@ == old(self)@,
            },
    {
        if self.prefix.is_empty() {
            None
        } else {
            Some(self.prefix.take(room))
        }
    }
}

} // verus!
