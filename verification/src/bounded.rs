//! The bounded virtual cursor: presents an 8-byte synthetic `RIFF` header
//! (with an explicitly supplied 32-bit size) followed by a window into an
//! underlying stream as one logical readable, seekable stream starting at
//! logical position 0.
use crate::stream::{ByteCursor, ByteSource};
use crate::tags::{riff_tag, spec_riff_tag};
use crate::Error;
use vstd::bytes::{spec_u32_to_le_bytes, u32_to_le_bytes};
use vstd::prelude::*;
use vstd::slice::slice_subrange;

verus! {

/// The window a bounded cursor exposes of the underlying bytes `d`: the
/// bytes at `[offset + 8, offset + end)`, clamped to what `d` can supply.
/// The first 8 of the window's positions are shadowed by the synthetic
/// header, so the window itself begins 8 bytes into the region.
pub open spec fn spec_window(d: Seq<u8>, offset: int, end: int) -> Seq<u8> {
    let lo = offset + 8;
    let hi = if offset + end <= d.len() {
        offset + end
    } else {
        d.len() as int
    };
    if lo <= hi {
        d.subrange(lo, hi)
    } else {
        seq![]
    }
}

/// A logical stream of length `end` over an underlying stream: logical
/// positions `[0, 8)` read from a synthetic header (the `RIFF` tag and the
/// supplied size), logical positions `[8, end)` read from the underlying
/// stream at `offset +` the logical position. Reads past `end` fail with an
/// out-of-bounds domain failure; reads within `end` that the underlying
/// bytes cannot supply fail with an I/O failure. Seeking is lazy and never
/// touches the underlying stream; only a read does.
#[derive(Debug)]
pub struct BoundedCursor {
    /// The underlying stream; only reads move its position.
    pub base: ByteCursor,
    /// The absolute position in the underlying stream where the logical
    /// stream is rooted; the synthetic header shadows the 8 bytes there.
    pub offset: u64,
    /// The size written in the synthetic header, independent of any size
    /// present in the underlying bytes.
    pub size: u32,
    /// The exclusive upper bound of the logical positions: `8 + size`.
    pub end: u64,
    /// The current logical position.
    pub pos: u64,
}

impl ByteSource for BoundedCursor {
    open spec fn contents(&self) -> Seq<u8> {
        let full = spec_riff_tag() + spec_u32_to_le_bytes(self.size) + spec_window(
            self.base.contents(),
            self.offset as int,
            self.end as int,
        );
        if full.len() <= self.end as int {
            full
        } else {
            full.subrange(0, self.end as int)
        }
    }

    open spec fn spos(&self) -> int {
        self.pos as int
    }

    open spec fn read_past_end_is_io(&self, end: int) -> bool {
        end <= self.end as int
    }

    fn position(&self) -> (p: u64) {
        proof {
            vstd::bytes::lemma_auto_spec_u32_to_from_le_bytes();
            vstd::std_specs::vec::axiom_spec_len(&self.base.data);
        }
        self.pos
    }

    fn read_exact(&mut self, n: usize) -> (r: Result<Vec<u8>, Error>) {
        proof {
            vstd::bytes::lemma_auto_spec_u32_to_from_le_bytes();
            vstd::std_specs::vec::axiom_spec_len(&self.base.data);
        }
        let n64 = n as u64;
        if self.pos > self.end || n64 > self.end - self.pos {
            return Err(Error::wave("read out of bounds"));
        }
        let p = self.pos;
        let mut out: Vec<u8> = Vec::new();
        if p < 8 {
            let header = header_bytes(self.size);
            let h_end = if p + n64 < 8 {
                p + n64
            } else {
                8
            };
            out.extend_from_slice(slice_subrange(header.as_slice(), p as usize, h_end as usize));
        }
        if p + n64 > 8 {
            let b_start = if p > 8 {
                p
            } else {
                8
            };
            let b_len = p + n64 - b_start;
            let abs = match self.offset.checked_add(b_start) {
                Some(a) => a,
                None => {
                    return Err(Error::io("unexpected end of stream"));
                },
            };
            self.base.seek_to(abs);
            let body = match self.base.read_exact(b_len as usize) {
                Ok(v) => v,
                Err(e) => {
                    return Err(e);
                },
            };
            out.extend_from_slice(body.as_slice());
        }
        proof {
            assert(out@ =~= old(self).contents().subrange(p as int, p + n64));
        }
        self.pos = p + n64;
        Ok(out)
    }

    fn seek_to(&mut self, p: u64) {
        self.pos = p;
    }

    fn seek_by(&mut self, delta: i64) -> (r: Result<u64, Error>) {
        let target: i128 = self.pos as i128 + delta as i128;
        if target < 0 || target > u64::MAX as i128 {
            return Err(Error::wave("invalid seek"));
        }
        self.pos = target as u64;
        Ok(self.pos)
    }
}

/// The 8 synthetic header bytes: the `RIFF` tag and the little-endian size.
fn header_bytes(size: u32) -> (r: Vec<u8>)
    ensures
        r@ == spec_riff_tag() + spec_u32_to_le_bytes(size),
{
    let t = riff_tag();
    let mut r: Vec<u8> = Vec::new();
    r.extend_from_slice(t.as_slice());
    let sb = u32_to_le_bytes(size);
    r.extend_from_slice(sb.as_slice());
    r
}

impl BoundedCursor {
    /// A logical stream rooted at `offset` of the underlying stream, reading
    /// a synthetic `RIFF` header carrying `size` and then the underlying
    /// bytes; the logical length is `8 + size` and the position starts at 0.
    pub fn new(base: ByteCursor, offset: u64, size: u32) -> (c: BoundedCursor)
        ensures
            c.base.contents() == base.contents(),
            c.offset == offset,
            c.size == size,
            c.end as int == 8 + size,
            c.pos == 0,
    {
        BoundedCursor { base, offset, size, end: 8 + size as u64, pos: 0 }
    }

    /// Moves by `delta` relative to the logical end, or fails without moving
    /// if the target position would be negative or would not fit in the
    /// position space.
    pub fn seek_end(&mut self, delta: i64) -> (r: Result<u64, Error>)
        ensures
            final(self).base.contents() == old(self).base.contents(),
            final(self).offset == old(self).offset,
            final(self).size == old(self).size,
            final(self).end == old(self).end,
            match r {
                Ok(p) => {
                    &&& 0 <= old(self).end + delta <= u64::MAX
                    &&& p as int == old(self).end + delta
                    &&& final(self).spos() == old(self).end + delta
                },
                Err(e) => {
                    &&& !(0 <= old(self).end + delta <= u64::MAX)
                    &&& e is Wave
                    &&& final(self).spos() == old(self).spos()
                },
            },
    {
        let target: i128 = self.end as i128 + delta as i128;
        if target < 0 || target > u64::MAX as i128 {
            return Err(Error::wave("invalid seek"));
        }
        self.pos = target as u64;
        Ok(self.pos)
    }

    /// Hands the underlying stream back, consuming this view.
    pub fn into_inner(self) -> (c: ByteCursor)
        ensures
            c.contents() == self.base.contents(),
    {
        self.base
    }
}

} // verus!
