//! The container splitter: parses the fixed `RIFF/WAVE/fmt /data` prefix of
//! a stream whose WAVE container may be followed by trailing bytes that do
//! not belong to the WAVE form (the appendix), locates where the audio data
//! ends, and exposes the two regions as mutually exclusive cursors over the
//! same underlying stream.
use crate::bounded::BoundedCursor;
use crate::head::ChunkHead;
use crate::stream::{ByteCursor, ByteSource};
use crate::tags::{
    data_tag, fmt_tag, riff_tag, spec_data_tag, spec_fmt_tag, spec_riff_tag, spec_wave_tag,
    tags_equal, wave_tag,
};
use crate::Error;
use vstd::bytes::spec_u32_from_le_bytes;
use vstd::prelude::*;

verus! {

/// The declared size of the `fmt ` chunk at its fixed place in the prefix.
pub open spec fn spec_fmt_size(d: Seq<u8>, p: int) -> u32 {
    spec_u32_from_le_bytes(d.subrange(p + 16, p + 20))
}

/// The pad byte after the `fmt ` body: one when its declared size is odd.
pub open spec fn spec_fmt_pad(d: Seq<u8>, p: int) -> int {
    if spec_fmt_size(d, p) as int % 2 == 1 {
        1
    } else {
        0
    }
}

/// The declared size of the `data` chunk, which follows the padded `fmt `
/// body.
pub open spec fn spec_data_size(d: Seq<u8>, p: int) -> u32 {
    let f = spec_fmt_size(d, p) as int + spec_fmt_pad(d, p);
    spec_u32_from_le_bytes(d.subrange(p + 24 + f, p + 28 + f))
}

/// The first byte position after the data payload — the appendix start.
/// An odd data size is followed by one pad byte, counted to the WAVE form.
pub open spec fn spec_appendix_start(d: Seq<u8>, p: int) -> int {
    let f = spec_fmt_size(d, p) as int + spec_fmt_pad(d, p);
    let dsz = spec_data_size(d, p) as int;
    let pad: int = if dsz % 2 == 1 {
        1
    } else {
        0
    };
    p + 28 + f + dsz + pad
}

/// The corrected WAVE-only declared size: everything from the form tag to
/// the appendix start, excluding the 8-byte container head.
pub open spec fn spec_corrected_size(d: Seq<u8>, p: int) -> int {
    spec_appendix_start(d, p) - p - 8
}

/// Whether the fixed prefix at position `p` of `d` parses and its corrected
/// size fits the 32-bit size field: the `RIFF`+size+`WAVE` opening, an
/// immediately following `fmt ` head, the `fmt ` body, an immediately
/// following `data` head, and bounds on the computed offsets.
pub open spec fn spec_split_ok(d: Seq<u8>, p: int) -> bool {
    &&& p + 12 <= d.len()
    &&& d.subrange(p, p + 4) == spec_riff_tag()
    &&& d.subrange(p + 8, p + 12) == spec_wave_tag()
    &&& p + 20 <= d.len()
    &&& d.subrange(p + 12, p + 16) == spec_fmt_tag()
    &&& p + 28 + spec_fmt_size(d, p) + spec_fmt_pad(d, p) <= d.len()
    &&& {
        let f = spec_fmt_size(d, p) as int + spec_fmt_pad(d, p);
        d.subrange(p + 20 + f, p + 24 + f) == spec_data_tag()
    }
    &&& spec_appendix_start(d, p) <= u64::MAX
    &&& spec_corrected_size(d, p) <= u32::MAX
}

/// Whether the split fails with a format failure: each tag check and the
/// 32-bit size check fails as a format failure only when every read before
/// it could be supplied.
pub open spec fn spec_split_wave_error(d: Seq<u8>, p: int) -> bool {
    let f = spec_fmt_size(d, p) as int + spec_fmt_pad(d, p);
    p + 12 <= d.len() && (!(d.subrange(p, p + 4) == spec_riff_tag() && d.subrange(p + 8, p + 12)
        == spec_wave_tag()) || (p + 20 <= d.len() && (d.subrange(p + 12, p + 16)
        != spec_fmt_tag() || (p + 28 + f <= d.len() && (d.subrange(p + 20 + f, p + 24 + f)
        != spec_data_tag() || (spec_appendix_start(d, p) <= u64::MAX && spec_corrected_size(d, p)
        > u32::MAX))))))
}

/// The parsed split of a stream into its WAVE-only region and its appendix.
/// Exactly one of the two views may be taken, by consuming the split; the
/// two are windows of the same underlying stream.
#[derive(Debug)]
pub struct ContainerSplit {
    /// The underlying stream.
    pub base: ByteCursor,
    /// The absolute position of the container's first byte.
    pub wave_start: u64,
    /// The absolute position where the appendix begins.
    pub appendix_start: u64,
    /// The corrected WAVE-only declared size, excluding the appendix.
    pub corrected_size: u32,
}

impl ContainerSplit {
    /// Parses the fixed prefix at the stream's current position: validates
    /// `RIFF`+size+`WAVE`, requires an immediately following `fmt ` head,
    /// skips the `fmt ` body by its declared size plus the pad byte an odd
    /// size requires, requires an immediately following `data` head — a
    /// format failure naming the tag found otherwise — and computes the end
    /// of the data payload (pad byte included for an odd data size) as the
    /// appendix start. Succeeds exactly when the prefix parses and the
    /// corrected size fits the 32-bit size field.
    pub fn new(cursor: ByteCursor) -> (r: Result<ContainerSplit, Error>)
        ensures
            match r {
                Ok(s) => {
                    &&& spec_split_ok(cursor.contents(), cursor.spos())
                    &&& s.base.contents() == cursor.contents()
                    &&& s.wave_start as int == cursor.spos()
                    &&& s.appendix_start as int == spec_appendix_start(
                        cursor.contents(),
                        cursor.spos(),
                    )
                    &&& s.corrected_size as int == spec_corrected_size(
                        cursor.contents(),
                        cursor.spos(),
                    )
                },
                Err(e) => {
                    &&& !spec_split_ok(cursor.contents(), cursor.spos())
                    &&& (e is Wave <==> spec_split_wave_error(cursor.contents(), cursor.spos()))
                    &&& (e is Io || e is Wave)
                },
            },
    {
        let mut cursor = cursor;
        let ghost d = cursor.contents();
        let ghost p = cursor.spos();
        let wave_start = cursor.position();
        let head = match ChunkHead::parse(&mut cursor) {
            Ok(h) => h,
            Err(e) => {
                return Err(e);
            },
        };
        let wave_id = match cursor.read_exact(4) {
            Ok(v) => v,
            Err(e) => {
                return Err(e);
            },
        };
        let wave_arr: [u8; 4] = [wave_id[0], wave_id[1], wave_id[2], wave_id[3]];
        proof {
            assert(wave_arr@ =~= d.subrange(p + 8, p + 12));
            assert(d.subrange(p, p + 8).subrange(0, 4) =~= d.subrange(p, p + 4));
        }
        if !tags_equal(&head.tag, &riff_tag()) || !tags_equal(&wave_arr, &wave_tag()) {
            return Err(Error::wave("Not a WAVE file"));
        }
        let fmt_head = match ChunkHead::parse(&mut cursor) {
            Ok(h) => h,
            Err(e) => {
                return Err(e);
            },
        };
        proof {
            assert(d.subrange(p + 12, p + 20).subrange(0, 4) =~= d.subrange(p + 12, p + 16));
            assert(d.subrange(p + 12, p + 20).subrange(4, 8) =~= d.subrange(p + 16, p + 20));
        }
        if !tags_equal(&fmt_head.tag, &fmt_tag()) {
            return Err(Error::wave("Missing fmt chunk"));
        }
        let fmt_body = cursor.position();
        let fmt_pad: u64 = if fmt_head.size % 2 == 1 {
            1
        } else {
            0
        };
        let data_head_pos = match fmt_body.checked_add(fmt_head.size as u64 + fmt_pad) {
            Some(t) => t,
            None => {
                return Err(Error::io("unexpected end of stream"));
            },
        };
        cursor.seek_to(data_head_pos);
        let ghost f = spec_fmt_size(d, p) as int + spec_fmt_pad(d, p);
        let data_head = match ChunkHead::parse(&mut cursor) {
            Ok(h) => h,
            Err(e) => {
                return Err(e);
            },
        };
        proof {
            assert(d.subrange(p + 20 + f, p + 28 + f).subrange(0, 4) =~= d.subrange(
                p + 20 + f,
                p + 24 + f,
            ));
            assert(d.subrange(p + 20 + f, p + 28 + f).subrange(4, 8) =~= d.subrange(
                p + 24 + f,
                p + 28 + f,
            ));
        }
        if !tags_equal(&data_head.tag, &data_tag()) {
            let mut msg = "Missing data chunk, found ".to_owned();
            let found = crate::ltxt::bytes_to_string_lossy(data_head.tag.as_slice());
            msg.append(found.as_str());
            return Err(Error::Wave(msg));
        }
        let body_start = cursor.position();
        let pad: u64 = if data_head.size % 2 == 1 {
            1
        } else {
            0
        };
        let appendix_start = match body_start.checked_add(data_head.size as u64 + pad) {
            Some(t) => t,
            None => {
                return Err(Error::io("seek out of range"));
            },
        };
        let corrected64 = appendix_start - wave_start - 8;
        if corrected64 > u32::MAX as u64 {
            return Err(Error::wave(crate::writer::CHUNK_TOO_BIG));
        }
        Ok(ContainerSplit {
            base: cursor,
            wave_start,
            appendix_start,
            corrected_size: corrected64 as u32,
        })
    }

    /// The absolute position where the appendix begins.
    pub fn appendix_start(&self) -> (a: u64)
        ensures
            a == self.appendix_start,
    {
        self.appendix_start
    }

    /// The corrected WAVE-only declared size.
    pub fn corrected_size(&self) -> (s: u32)
        ensures
            s == self.corrected_size,
    {
        self.corrected_size
    }

    /// The WAVE-only view: a bounded virtual cursor rooted at the
    /// container's first byte, whose synthetic header carries the corrected
    /// size, so that its logical stream ends where the appendix begins. The
    /// split is consumed: the two views must not be used concurrently.
    pub fn wave_cursor(self) -> (c: BoundedCursor)
        ensures
            c.base.contents() == self.base.contents(),
            c.offset == self.wave_start,
            c.size == self.corrected_size,
            c.end as int == 8 + self.corrected_size,
            c.pos == 0,
    {
        BoundedCursor::new(self.base, self.wave_start, self.corrected_size)
    }

    /// The appendix view: the underlying stream positioned at the appendix
    /// start, running to the end of the stream. The split is consumed: the
    /// two views must not be used concurrently.
    pub fn appendix_cursor(self) -> (c: ByteCursor)
        ensures
            c.contents() == self.base.contents(),
            c.spos() == self.appendix_start as int,
    {
        let mut base = self.base;
        base.seek_to(self.appendix_start);
        base
    }

    /// The underlying stream back at the container's first byte, with
    /// neither view taken; the split is consumed.
    pub fn restore_cursor(self) -> (r: Result<ByteCursor, Error>)
        ensures
            match r {
                Ok(c) => {
                    &&& c.contents() == self.base.contents()
                    &&& c.spos() == self.wave_start as int
                },
                Err(_) => false,
            },
    {
        let mut base = self.base;
        base.seek_to(self.wave_start);
        Ok(base)
    }
}

} // verus!
