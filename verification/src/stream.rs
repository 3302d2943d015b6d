//! The seekable byte-stream abstraction that every cursor in this crate runs
//! on: a `ByteSource` trait for reading and seeking, and `ByteCursor`, an
//! in-memory readable, seekable and writable stream over a byte vector.
use crate::Error;
use vstd::prelude::*;
use vstd::slice::{slice_subrange, slice_to_vec};

verus! {

/// The bytes of `d` after writing `b` at position `p`: bytes before `p` are
/// kept, a gap between the end of `d` and `p` is filled with zeros, and the
/// result extends beyond `d` if the written range does.
pub open spec fn spec_write_bytes(d: Seq<u8>, p: int, b: Seq<u8>) -> Seq<u8>
    recommends
        p >= 0,
{
    Seq::new(
        if d.len() >= p + b.len() {
            d.len()
        } else {
            (p + b.len()) as nat
        },
        |i: int|
            if p <= i < p + b.len() {
                b[i - p]
            } else if i < d.len() {
                d[i]
            } else {
                0u8
            },
    )
}

/// A readable, seekable stream of bytes with an explicit position.
///
/// `contents()` is the sequence of bytes that reads can return, addressed
/// from logical position 0; `spos()` is the current position. Reads that do
/// not fit inside `contents()` fail and leave the stream where it was;
/// whether such a failure counts as an I/O failure or as an out-of-bounds
/// domain failure is the implementation's choice, recorded by
/// `read_past_end_is_io`.
pub trait ByteSource: Sized {
    /// The bytes this stream can supply, from logical position 0.
    spec fn contents(&self) -> Seq<u8>;

    /// The current logical position.
    spec fn spos(&self) -> int;

    /// True when a read ending at `end` (exclusive) that does not fit inside
    /// `contents()` fails with `Error::Io`; false when it fails with
    /// `Error::Wave`.
    spec fn read_past_end_is_io(&self, end: int) -> bool;

    /// The current position. (As a structural fact of every source, the
    /// contents fit the address space.)
    fn position(&self) -> (p: u64)
        ensures
            p as int == self.spos(),
            self.contents().len() <= usize::MAX,
    ;

    /// Reads exactly `n` bytes from the current position, advancing past
    /// them, or fails without moving if fewer than `n` bytes remain.
    fn read_exact(&mut self, n: usize) -> (r: Result<Vec<u8>, Error>)
        ensures
            final(self).contents() == old(self).contents(),
            forall|end: int| #[trigger]
                final(self).read_past_end_is_io(end) == old(self).read_past_end_is_io(end),
            match r {
                Ok(v) => {
                    &&& old(self).spos() + n <= old(self).contents().len()
                    &&& v@ == old(self).contents().subrange(
                        old(self).spos(),
                        old(self).spos() + n,
                    )
                    &&& final(self).spos() == old(self).spos() + n
                },
                Err(e) => {
                    &&& old(self).spos() + n > old(self).contents().len()
                    &&& final(self).spos() == old(self).spos()
                    &&& (e is Io <==> old(self).read_past_end_is_io(old(self).spos() + n))
                    &&& (e is Io || e is Wave)
                },
            },
    ;

    /// Moves to the given absolute position. Seeking is lazy: it never fails
    /// and never touches underlying storage; only a later read can fail.
    fn seek_to(&mut self, p: u64)
        ensures
            final(self).contents() == old(self).contents(),
            forall|end: int| #[trigger]
                final(self).read_past_end_is_io(end) == old(self).read_past_end_is_io(end),
            final(self).spos() == p as int,
    ;

    /// Moves by `delta` relative to the current position, or fails without
    /// moving if the target position would be negative or would not fit in
    /// the position space.
    fn seek_by(&mut self, delta: i64) -> (r: Result<u64, Error>)
        ensures
            final(self).contents() == old(self).contents(),
            forall|end: int| #[trigger]
                final(self).read_past_end_is_io(end) == old(self).read_past_end_is_io(end),
            match r {
                Ok(p) => {
                    &&& 0 <= old(self).spos() + delta <= u64::MAX
                    &&& p as int == old(self).spos() + delta
                    &&& final(self).spos() == old(self).spos() + delta
                },
                Err(e) => {
                    &&& !(0 <= old(self).spos() + delta <= u64::MAX)
                    &&& final(self).spos() == old(self).spos()
                    &&& (e is Io || e is Wave)
                },
            },
    ;
}

/// An in-memory stream over a byte vector, with a position that may be
/// seeked anywhere in the `u64` range. Reads fail (with an I/O failure, like
/// a truncated file) when they would pass the end of the data; writes past
/// the end first fill any gap with zeros and then extend the data.
#[derive(Debug)]
pub struct ByteCursor {
    /// The underlying bytes.
    pub data: Vec<u8>,
    /// The current position; it may point anywhere, including past the data.
    pub pos: u64,
}

impl ByteSource for ByteCursor {
    open spec fn contents(&self) -> Seq<u8> {
        self.data@
    }

    open spec fn spos(&self) -> int {
        self.pos as int
    }

    open spec fn read_past_end_is_io(&self, end: int) -> bool {
        true
    }

    fn position(&self) -> (p: u64) {
        proof {
            vstd::std_specs::vec::axiom_spec_len(&self.data);
        }
        self.pos
    }

    fn read_exact(&mut self, n: usize) -> (r: Result<Vec<u8>, Error>) {
        if self.pos > self.data.len() as u64 {
            return Err(Error::io("unexpected end of stream"));
        }
        let p = self.pos as usize;
        if n > self.data.len() - p {
            return Err(Error::io("unexpected end of stream"));
        }
        let out = slice_to_vec(slice_subrange(self.data.as_slice(), p, p + n));
        self.pos = self.pos + n as u64;
        Ok(out)
    }

    fn seek_to(&mut self, p: u64) {
        self.pos = p;
    }

    fn seek_by(&mut self, delta: i64) -> (r: Result<u64, Error>) {
        let target: i128 = self.pos as i128 + delta as i128;
        if target < 0 || target > u64::MAX as i128 {
            return Err(Error::io("seek out of range"));
        }
        self.pos = target as u64;
        Ok(self.pos)
    }
}

impl ByteCursor {
    /// A stream over the given bytes, positioned at their start.
    pub fn new(data: Vec<u8>) -> (c: ByteCursor)
        ensures
            c.contents() == data@,
            c.spos() == 0,
    {
        ByteCursor { data, pos: 0 }
    }

    /// Gives the underlying bytes back, consuming the stream.
    pub fn into_inner(self) -> (v: Vec<u8>)
        ensures
            v@ == self.contents(),
    {
        self.data
    }

    /// The underlying bytes.
    pub fn get_ref(&self) -> (v: &Vec<u8>)
        ensures
            v@ == self.contents(),
    {
        &self.data
    }

    /// Writes all of `buf` at the current position, overwriting existing
    /// bytes, zero-filling any gap between the end of the data and the
    /// position, and extending the data as needed; fails without writing
    /// only if the end of the written range would not be addressable.
    pub fn write_all(&mut self, buf: &[u8]) -> (r: Result<(), Error>)
        ensures
            match r {
                Ok(_) => {
                    &&& old(self).spos() + buf@.len() <= usize::MAX
                    &&& final(self).contents() == spec_write_bytes(
                        old(self).contents(),
                        old(self).spos(),
                        buf@,
                    )
                    &&& final(self).spos() == old(self).spos() + buf@.len()
                },
                Err(e) => {
                    &&& old(self).spos() + buf@.len() > usize::MAX
                    &&& e is Io
                    &&& final(self).contents() == old(self).contents()
                    &&& final(self).spos() == old(self).spos()
                },
            },
    {
        if self.pos > usize::MAX as u64 {
            return Err(Error::io("write beyond addressable range"));
        }
        let p = self.pos as usize;
        if buf.len() > usize::MAX - p {
            return Err(Error::io("write beyond addressable range"));
        }
        let ghost d0 = self.data@;
        while self.data.len() < p
            invariant
                self.pos == old(self).pos,
                d0 == old(self).data@,
                d0.len() <= self.data@.len(),
                self.data@.len() <= p || self.data@.len() == d0.len(),
                forall|i: int| 0 <= i < d0.len() ==> self.data@[i] == d0[i],
                forall|i: int| d0.len() <= i < self.data@.len() ==> self.data@[i] == 0u8,
            decreases p - self.data@.len(),
        {
            self.data.push(0u8);
        }
        let ghost d1 = self.data@;
        let mut i: usize = 0;
        while i < buf.len()
            invariant
                self.pos == old(self).pos,
                0 <= i <= buf@.len(),
                p + buf@.len() <= usize::MAX,
                p <= d1.len(),
                d0.len() <= d1.len(),
                d1.len() <= p || d1.len() == d0.len(),
                forall|j: int| 0 <= j < d0.len() ==> d1[j] == d0[j],
                forall|j: int| d0.len() <= j < d1.len() ==> d1[j] == 0u8,
                d1.len() <= self.data@.len(),
                self.data@.len() == if d1.len() >= p + i {
                    d1.len() as int
                } else {
                    p + i
                },
                forall|j: int| p <= j < p + i ==> self.data@[j] == buf@[j - p],
                forall|j: int| 0 <= j < self.data@.len() && !(p <= j < p + i) ==> j < d1.len()
                    && self.data@[j] == d1[j],
            decreases buf@.len() - i,
        {
            if p + i < self.data.len() {
                self.data.set(p + i, buf[i]);
            } else {
                self.data.push(buf[i]);
            }
            i = i + 1;
        }
        proof {
            let fin = self.data@;
            let w = spec_write_bytes(d0, p as int, buf@);
            assert(fin.len() == w.len());
            assert forall|j: int| 0 <= j < fin.len() implies fin[j] == w[j] by {
                if p <= j < p + buf@.len() {
                } else if j < d0.len() {
                    assert(fin[j] == d1[j]);
                } else if j < d1.len() {
                    assert(fin[j] == d1[j]);
                }
            }
            assert(fin =~= w);
        }
        self.pos = (p + buf.len()) as u64;
        Ok(())
    }
}

} // verus!
