//! The chunk reader: sequential, optionally tag-filtered traversal of the
//! top-level chunks of a RIFF/WAVE container, over any `ByteSource`.
use crate::head::{spec_head_of_bytes, ChunkHead};
use crate::stream::ByteSource;
use crate::tags::{riff_tag, spec_riff_tag, spec_wave_tag, tags_equal, wave_tag};
use crate::{ChunkDefinition, Error};
use vstd::bytes::spec_u32_from_le_bytes;
use vstd::prelude::*;

verus! {

/// Whether the bytes of `d` at position `p` open a valid WAVE container: an
/// 8-byte `RIFF` head whose declared size is even, followed by the form tag
/// `WAVE`.
pub open spec fn spec_riff_head_ok(d: Seq<u8>, p: int) -> bool {
    &&& p + 12 <= d.len()
    &&& d.subrange(p, p + 4) == spec_riff_tag()
    &&& d.subrange(p + 8, p + 12) == spec_wave_tag()
    &&& spec_riff_size(d, p) % 2 == 0
}

/// The declared top-level size in the `RIFF` head at position `p` of `d`.
pub open spec fn spec_riff_size(d: Seq<u8>, p: int) -> u32 {
    spec_u32_from_le_bytes(d.subrange(p + 4, p + 8))
}

/// The outcome of scanning the chunks of a container body for a chunk: a
/// matching chunk's tag and payload with the stream position after them (pad
/// byte included); the position reached when no chunk matched; a malformed
/// container, whose next head or declared chunk size would cross the
/// container end; or an underlying stream that could not supply bytes the
/// container end allows.
pub ghost enum Scan {
    Found { tag: Seq<u8>, payload: Seq<u8>, pos: int },
    Absent { pos: int },
    Malformed,
    Fail,
}

/// The view of an executable tag filter: no filter, or the tag bytes.
pub open spec fn spec_filter(t: Option<[u8; 4]>) -> Option<Seq<u8>> {
    match t {
        Option::None => Option::None,
        Option::Some(a) => Option::Some(a@),
    }
}

/// How many positions remain before `end`.
pub open spec fn scan_remaining(pos: int, end: int) -> int {
    if pos < end {
        end - pos
    } else {
        0
    }
}

/// The outcome of scanning `d` from position `pos` up to `end` for a chunk
/// matching `filter`: while the position is strictly before `end`, a chunk
/// head is read; a chunk matching the filter (or any chunk, without one) is
/// returned with its payload; any other is stepped over by its declared size
/// plus one pad byte when that size is odd. The scan never reads or seeks
/// past `end`: a head or a declared (padded) size that would cross `end` is
/// malformed, and a declared size is never trusted beyond the container.
/// Reading a head or payload within `end` that `d` cannot supply fails.
pub open spec fn chunk_scan(d: Seq<u8>, pos: int, end: int, filter: Option<Seq<u8>>) -> Scan
    decreases scan_remaining(pos, end),
{
    if pos >= end {
        Scan::Absent { pos }
    } else if pos + 8 > end {
        Scan::Malformed
    } else if pos + 8 > d.len() {
        Scan::Fail
    } else {
        let tag = d.subrange(pos, pos + 4);
        let size = spec_u32_from_le_bytes(d.subrange(pos + 4, pos + 8)) as int;
        let pad: int = if size % 2 == 1 {
            1
        } else {
            0
        };
        let matched = filter is None || filter == Option::Some(tag);
        let next = pos + 8 + size + pad;
        if next > end {
            Scan::Malformed
        } else if matched {
            if pos + 8 + size <= d.len() {
                Scan::Found { tag, payload: d.subrange(pos + 8, pos + 8 + size), pos: next }
            } else {
                Scan::Fail
            }
        } else {
            if next >= end {
                Scan::Absent { pos: next }
            } else {
                chunk_scan(d, next, end, filter)
            }
        }
    }
}

/// Whether chunks (each padded to even length) tile `d` exactly from `pos`
/// to `end`: each head and payload lies within `d`, and the padded chunks
/// end exactly at `end`.
pub open spec fn chunks_tile(d: Seq<u8>, pos: int, end: int) -> bool
    decreases scan_remaining(pos, end),
{
    if pos >= end {
        pos == end
    } else {
        &&& pos + 8 <= d.len()
        &&& {
            let size = spec_u32_from_le_bytes(d.subrange(pos + 4, pos + 8)) as int;
            let pad: int = if size % 2 == 1 {
                1
            } else {
                0
            };
            let next = pos + 8 + size + pad;
            &&& next <= end
            &&& chunks_tile(d, next, end)
        }
    }
}

/// The (tag, payload) pairs of the chunks tiling `d` from `pos` to `end`.
pub open spec fn spec_chunks(d: Seq<u8>, pos: int, end: int) -> Seq<(Seq<u8>, Seq<u8>)>
    recommends
        chunks_tile(d, pos, end),
    decreases scan_remaining(pos, end),
{
    if pos >= end || pos + 8 > d.len() {
        seq![]
    } else {
        let size = spec_u32_from_le_bytes(d.subrange(pos + 4, pos + 8)) as int;
        let pad: int = if size % 2 == 1 {
            1
        } else {
            0
        };
        let here = (d.subrange(pos, pos + 4), d.subrange(pos + 8, pos + 8 + size));
        seq![here] + spec_chunks(d, pos + 8 + size + pad, end)
    }
}

/// When chunks tile `[pos, end)` of `d` and no chunk there bears the tag
/// `t`, a scan filtered on `t` returns the explicit absent result, never a
/// failure, and stops exactly at `end`.
pub proof fn lemma_scan_absent(d: Seq<u8>, pos: int, end: int, t: Seq<u8>)
    requires
        chunks_tile(d, pos, end),
        0 <= pos,
        forall|i: int|
            0 <= i < spec_chunks(d, pos, end).len() ==> (#[trigger] spec_chunks(d, pos, end)[i]).0
                != t,
    ensures
        chunk_scan(d, pos, end, Option::Some(t)) == (Scan::Absent { pos: end }),
    decreases scan_remaining(pos, end),
{
    if pos >= end {
    } else {
        let size = spec_u32_from_le_bytes(d.subrange(pos + 4, pos + 8)) as int;
        let pad: int = if size % 2 == 1 {
            1
        } else {
            0
        };
        let next = pos + 8 + size + pad;
        assert(spec_chunks(d, pos, end)[0].0 == d.subrange(pos, pos + 4));
        assert forall|i: int| 0 <= i < spec_chunks(d, next, end).len() implies (
        #[trigger] spec_chunks(d, next, end)[i]).0 != t by {
            assert(spec_chunks(d, next, end)[i] == spec_chunks(d, pos, end)[i + 1]);
        }
        lemma_scan_absent(d, next, end, t);
    }
}

/// Tiling and the tiled chunks depend only on the bytes of the tiled range:
/// two data sequences that agree on `[pos, end)` tile alike and carry the
/// same chunks there.
pub proof fn lemma_tile_unchanged(d1: Seq<u8>, d2: Seq<u8>, pos: int, end: int)
    requires
        chunks_tile(d1, pos, end),
        0 <= pos,
        end <= d1.len(),
        end <= d2.len(),
        forall|i: int| pos <= i < end ==> d1[i] == d2[i],
    ensures
        chunks_tile(d2, pos, end),
        spec_chunks(d2, pos, end) == spec_chunks(d1, pos, end),
    decreases scan_remaining(pos, end),
{
    if pos >= end {
    } else {
        assert(d2.subrange(pos, pos + 4) =~= d1.subrange(pos, pos + 4));
        assert(d2.subrange(pos + 4, pos + 8) =~= d1.subrange(pos + 4, pos + 8));
        let size = spec_u32_from_le_bytes(d1.subrange(pos + 4, pos + 8)) as int;
        let pad: int = if size % 2 == 1 {
            1
        } else {
            0
        };
        let next = pos + 8 + size + pad;
        assert(d2.subrange(pos + 8, pos + 8 + size) =~= d1.subrange(pos + 8, pos + 8 + size));
        lemma_tile_unchanged(d1, d2, next, end);
        assert(spec_chunks(d2, pos, end) =~= spec_chunks(d1, pos, end));
    }
}

/// A filtered scan steps straight over tiled chunks none of which bears the
/// filter's tag: scanning from before them equals scanning from after them.
pub proof fn lemma_scan_skips_tiled(d: Seq<u8>, pos: int, q: int, end: int, t: Seq<u8>)
    requires
        chunks_tile(d, pos, q),
        0 <= pos,
        q <= end,
        forall|i: int|
            0 <= i < spec_chunks(d, pos, q).len() ==> (#[trigger] spec_chunks(d, pos, q)[i]).0
                != t,
    ensures
        chunk_scan(d, pos, end, Option::Some(t)) == chunk_scan(d, q, end, Option::Some(t)),
    decreases scan_remaining(pos, q),
{
    if pos >= q {
    } else {
        let size = spec_u32_from_le_bytes(d.subrange(pos + 4, pos + 8)) as int;
        let pad: int = if size % 2 == 1 {
            1
        } else {
            0
        };
        let next = pos + 8 + size + pad;
        assert(spec_chunks(d, pos, q)[0].0 == d.subrange(pos, pos + 4));
        assert forall|i: int| 0 <= i < spec_chunks(d, next, q).len() implies (
        #[trigger] spec_chunks(d, next, q)[i]).0 != t by {
            assert(spec_chunks(d, next, q)[i] == spec_chunks(d, pos, q)[i + 1]);
        }
        lemma_scan_skips_tiled(d, next, q, end, t);
    }
}

/// A filtered scan of a tiled container finds the first chunk that bears the
/// filter's tag, and returns exactly that chunk's payload.
pub proof fn lemma_scan_finds_first(d: Seq<u8>, pos: int, end: int, t: Seq<u8>)
    requires
        chunks_tile(d, pos, end),
        0 <= pos,
        end <= d.len(),
        exists|j: int|
            0 <= j < spec_chunks(d, pos, end).len() && (#[trigger] spec_chunks(d, pos, end)[j]).0
                == t,
    ensures
        exists|j: int|
            {
                &&& 0 <= j < spec_chunks(d, pos, end).len()
                &&& (#[trigger] spec_chunks(d, pos, end)[j]).0 == t
                &&& forall|k: int|
                    0 <= k < j ==> (#[trigger] spec_chunks(d, pos, end)[k]).0 != t
                &&& chunk_scan(d, pos, end, Option::Some(t)) matches Scan::Found {
                    tag,
                    payload,
                    pos: _,
                } && tag == t && payload == spec_chunks(d, pos, end)[j].1
            },
    decreases scan_remaining(pos, end),
{
    let cks = spec_chunks(d, pos, end);
    let size = spec_u32_from_le_bytes(d.subrange(pos + 4, pos + 8)) as int;
    let pad: int = if size % 2 == 1 {
        1
    } else {
        0
    };
    let next = pos + 8 + size + pad;
    if cks[0].0 == t {
        assert(chunk_scan(d, pos, end, Option::Some(t)) == (Scan::Found {
            tag: t,
            payload: cks[0].1,
            pos: next,
        }));
        assert({
            &&& 0 <= 0 < cks.len()
            &&& cks[0].0 == t
            &&& forall|k: int| 0 <= k < 0 ==> (#[trigger] cks[k]).0 != t
            &&& chunk_scan(d, pos, end, Option::Some(t)) matches Scan::Found {
                tag,
                payload,
                pos: _,
            } && tag == t && payload == cks[0].1
        });
    } else {
        let tail = spec_chunks(d, next, end);
        assert forall|i: int| 0 <= i < tail.len() implies #[trigger] tail[i] == cks[i + 1] by {}
        let j0 = choose|j: int| 0 <= j < cks.len() && (#[trigger] cks[j]).0 == t;
        assert(tail[j0 - 1] == cks[j0]);
        lemma_scan_finds_first(d, next, end, t);
        let j1 = choose|j: int|
            {
                &&& 0 <= j < tail.len()
                &&& (#[trigger] tail[j]).0 == t
                &&& forall|k: int| 0 <= k < j ==> (#[trigger] tail[k]).0 != t
                &&& chunk_scan(d, next, end, Option::Some(t)) matches Scan::Found {
                    tag,
                    payload,
                    pos: _,
                } && tag == t && payload == tail[j].1
            };
        assert({
            &&& 0 <= j1 + 1 < cks.len()
            &&& cks[j1 + 1].0 == t
            &&& forall|k: int| 0 <= k < j1 + 1 ==> (#[trigger] cks[k]).0 != t
            &&& chunk_scan(d, pos, end, Option::Some(t)) matches Scan::Found {
                tag,
                payload,
                pos: _,
            } && tag == t && payload == cks[j1 + 1].1
        });
    }
}

/// A chunk whose declared size is odd is followed by exactly one skipped
/// pad byte: a scan that steps over such a chunk reads the next chunk head
/// at the chunk's start plus 8, plus its declared size, plus one.
pub proof fn lemma_odd_chunk_pad(d: Seq<u8>, pos: int, end: int, filter: Option<Seq<u8>>)
    requires
        pos < end,
        pos + 8 <= d.len(),
        (spec_u32_from_le_bytes(d.subrange(pos + 4, pos + 8)) as int) % 2 == 1,
        !(filter is None || filter == Option::Some(d.subrange(pos, pos + 4))),
        pos + 9 + spec_u32_from_le_bytes(d.subrange(pos + 4, pos + 8)) < end,
    ensures
        chunk_scan(d, pos, end, filter) == chunk_scan(
            d,
            pos + 8 + spec_u32_from_le_bytes(d.subrange(pos + 4, pos + 8)) + 1,
            end,
            filter,
        ),
{
}

/// Reads a `RIFF`+size+`WAVE` container opening from the stream, leaving the
/// position just past the form tag. Fails with a format failure when the
/// tags are wrong or the declared size is odd, and with the stream's own
/// failure when 12 bytes cannot be read.
pub(crate) fn read_riff_head<S: ByteSource>(cursor: &mut S) -> (r: Result<ChunkHead, Error>)
    requires
        old(cursor).spos() >= 0,
    ensures
        final(cursor).contents() == old(cursor).contents(),
        forall|end: int| #[trigger]
            final(cursor).read_past_end_is_io(end) == old(cursor).read_past_end_is_io(end),
        match r {
            Ok(h) => {
                &&& spec_riff_head_ok(old(cursor).contents(), old(cursor).spos())
                &&& h@ == spec_head_of_bytes(
                    old(cursor).contents().subrange(old(cursor).spos(), old(cursor).spos() + 8),
                )
                &&& final(cursor).spos() == old(cursor).spos() + 12
            },
            Err(e) => {
                &&& !spec_riff_head_ok(old(cursor).contents(), old(cursor).spos())
                &&& (old(cursor).spos() + 12 <= old(cursor).contents().len() ==> {
                    &&& e is Wave
                    &&& final(cursor).spos() == old(cursor).spos() + 12
                })
                &&& (old(cursor).spos() + 12 > old(cursor).contents().len() ==> {
                    &&& (e is Io <==> old(cursor).read_past_end_is_io(
                        if old(cursor).spos() + 8 > old(cursor).contents().len() {
                            old(cursor).spos() + 8
                        } else {
                            old(cursor).spos() + 12
                        },
                    ))
                    &&& (e is Io || e is Wave)
                })
            },
        },
{
    let head = match ChunkHead::parse(cursor) {
        Ok(h) => h,
        Err(e) => {
            return Err(e);
        },
    };
    let wave_id = match cursor.read_exact(4) {
        Ok(v) => v,
        Err(e) => {
            return Err(e);
        },
    };
    let wave_arr: [u8; 4] = [wave_id[0], wave_id[1], wave_id[2], wave_id[3]];
    proof {
        assert(wave_arr@ =~= old(cursor).contents().subrange(
            old(cursor).spos() + 8,
            old(cursor).spos() + 12,
        ));
        assert(old(cursor).contents().subrange(old(cursor).spos(), old(cursor).spos() + 8)
            .subrange(0, 4) =~= old(cursor).contents().subrange(
            old(cursor).spos(),
            old(cursor).spos() + 4,
        ));
        assert(old(cursor).contents().subrange(old(cursor).spos(), old(cursor).spos() + 8)
            .subrange(4, 8) =~= old(cursor).contents().subrange(
            old(cursor).spos() + 4,
            old(cursor).spos() + 8,
        ));
    }
    if !tags_equal(&head.tag, &riff_tag()) || !tags_equal(&wave_arr, &wave_tag()) {
        return Err(Error::wave("Not a WAVE file"));
    }
    if head.size % 2 == 1 {
        return Err(Error::wave("Malformed file: Odd RIFF size"));
    }
    Ok(head)
}

/// A reader over the top-level chunks of a WAVE container. Construction
/// validates the container opening and records where the container and its
/// first chunk begin and where the container ends; scanning never reads or
/// seeks past that end.
#[derive(Debug)]
pub struct WaveCursor<S: ByteSource> {
    /// The validated `RIFF` head.
    pub head: ChunkHead,
    /// The underlying stream; this reader owns its position until
    /// `restore_cursor` hands it back.
    pub base_cursor: S,
    /// The absolute position of the container's first byte.
    pub wave_start: u64,
    /// The exclusive upper bound: `wave_start + 8 +` the declared size.
    pub wave_end: u64,
    /// The absolute position just past the form tag, where chunks begin.
    pub first_chunk_pos: u64,
}

impl<S: ByteSource> WaveCursor<S> {
    /// The reader's structural invariant: the recorded head and bounds match
    /// the container opening found at `wave_start`.
    pub open spec fn wf(&self) -> bool {
        &&& spec_riff_head_ok(self.base_cursor.contents(), self.wave_start as int)
        &&& self.head@ == spec_head_of_bytes(
            self.base_cursor.contents().subrange(
                self.wave_start as int,
                self.wave_start as int + 8,
            ),
        )
        &&& self.wave_end as int == self.wave_start as int + 8 + self.head@.size
        &&& self.first_chunk_pos as int == self.wave_start as int + 12
    }

    /// Validates the container opening at the stream's current position and
    /// takes ownership of the stream, positioned at the first chunk.
    /// Succeeds exactly when a valid opening is present and the container
    /// end fits the position space.
    pub fn new(cursor: S) -> (r: Result<WaveCursor<S>, Error>)
        ensures
            match r {
                Ok(w) => {
                    &&& spec_riff_head_ok(cursor.contents(), cursor.spos())
                    &&& w.wf()
                    &&& w.base_cursor.contents() == cursor.contents()
                    &&& forall|end: int| #[trigger]
                        w.base_cursor.read_past_end_is_io(end) == cursor.read_past_end_is_io(end)
                    &&& w.wave_start as int == cursor.spos()
                    &&& w.base_cursor.spos() == cursor.spos() + 12
                    &&& cursor.spos() + 8 + spec_riff_size(cursor.contents(), cursor.spos())
                        <= u64::MAX
                },
                Err(e) => {
                    &&& !(spec_riff_head_ok(cursor.contents(), cursor.spos()) && cursor.spos() + 8
                        + spec_riff_size(cursor.contents(), cursor.spos()) <= u64::MAX)
                    &&& (e is Io || e is Wave)
                    &&& (spec_riff_head_ok(cursor.contents(), cursor.spos()) ==> e is Wave)
                    &&& (cursor.spos() + 12 <= cursor.contents().len() ==> e is Wave)
                    &&& (cursor.spos() + 12 > cursor.contents().len() ==> (e is Io
                        <==> cursor.read_past_end_is_io(
                        if cursor.spos() + 8 > cursor.contents().len() {
                            cursor.spos() + 8
                        } else {
                            cursor.spos() + 12
                        },
                    )))
                },
            },
    {
        let mut cursor = cursor;
        let ghost c0 = cursor.contents();
        let ghost p0 = cursor.spos();
        let wave_start = cursor.position();
        let head = match read_riff_head(&mut cursor) {
            Ok(h) => h,
            Err(e) => {
                return Err(e);
            },
        };
        let first_chunk_pos = cursor.position();
        proof {
            assert(c0.subrange(p0, p0 + 8).subrange(4, 8) =~= c0.subrange(p0 + 4, p0 + 8));
        }
        if head.size as u64 > u64::MAX - 8 || wave_start > u64::MAX - 8 - head.size as u64 {
            return Err(Error::wave("WAVE size too large for file"));
        }
        let wave_end = wave_start + 8 + head.size as u64;
        Ok(WaveCursor { head, base_cursor: cursor, wave_start, wave_end, first_chunk_pos })
    }

    /// Repositions the stream to just after the container head, so that a
    /// full scan may start again.
    pub fn reset(&mut self) -> (r: Result<(), Error>)
        ensures
            r is Ok,
            final(self).head == old(self).head,
            final(self).wave_start == old(self).wave_start,
            final(self).wave_end == old(self).wave_end,
            final(self).first_chunk_pos == old(self).first_chunk_pos,
            final(self).base_cursor.contents() == old(self).base_cursor.contents(),
            forall|end: int| #[trigger]
                final(self).base_cursor.read_past_end_is_io(end) == old(
                    self,
                ).base_cursor.read_past_end_is_io(end),
            final(self).base_cursor.spos() == old(self).first_chunk_pos as int,
    {
        self.base_cursor.seek_to(self.first_chunk_pos);
        Ok(())
    }

    /// Repositions the stream to the exact offset it held when this reader
    /// was constructed — however much scanning has happened — and hands it
    /// back; the reader is consumed.
    pub fn restore_cursor(self) -> (r: Result<S, Error>)
        ensures
            match r {
                Ok(c) => {
                    &&& c.contents() == self.base_cursor.contents()
                    &&& forall|end: int| #[trigger]
                        c.read_past_end_is_io(end) == self.base_cursor.read_past_end_is_io(end)
                    &&& c.spos() == self.wave_start as int
                },
                Err(_) => false,
            },
    {
        let mut base = self.base_cursor;
        base.seek_to(self.wave_start);
        Ok(base)
    }

    /// Scans forward from the current position for the next chunk whose tag
    /// matches `tag` (or for the very next chunk, given no filter), reading
    /// its payload into a fresh buffer; chunks that do not match are stepped
    /// over by their declared size plus any pad byte. The scan never reads
    /// or seeks past the container end: a declared size is not trusted
    /// beyond it, and a head or padded size that would cross it is a format
    /// failure. A filtered chunk that is absent yields `Ok(None)` — not an
    /// error — with the position at the container end.
    pub fn read_next_chunk(&mut self, tag: Option<[u8; 4]>) -> (r: Result<
        Option<ChunkDefinition>,
        Error,
    >)
        requires
            old(self).wf(),
            old(self).base_cursor.spos() >= 0,
        ensures
            final(self).wf(),
            final(self).head == old(self).head,
            final(self).wave_start == old(self).wave_start,
            final(self).wave_end == old(self).wave_end,
            final(self).first_chunk_pos == old(self).first_chunk_pos,
            final(self).base_cursor.contents() == old(self).base_cursor.contents(),
            forall|end: int| #[trigger]
                final(self).base_cursor.read_past_end_is_io(end) == old(
                    self,
                ).base_cursor.read_past_end_is_io(end),
            match r {
                Ok(Some((t, payload))) => chunk_scan(
                    old(self).base_cursor.contents(),
                    old(self).base_cursor.spos(),
                    old(self).wave_end as int,
                    spec_filter(tag),
                ) == (Scan::Found {
                    tag: t@,
                    payload: payload@,
                    pos: final(self).base_cursor.spos(),
                }),
                Ok(None) => chunk_scan(
                    old(self).base_cursor.contents(),
                    old(self).base_cursor.spos(),
                    old(self).wave_end as int,
                    spec_filter(tag),
                ) == (Scan::Absent { pos: final(self).base_cursor.spos() }),
                Err(e) => {
                    &&& (chunk_scan(
                        old(self).base_cursor.contents(),
                        old(self).base_cursor.spos(),
                        old(self).wave_end as int,
                        spec_filter(tag),
                    ) is Malformed || chunk_scan(
                        old(self).base_cursor.contents(),
                        old(self).base_cursor.spos(),
                        old(self).wave_end as int,
                        spec_filter(tag),
                    ) is Fail)
                    &&& (chunk_scan(
                        old(self).base_cursor.contents(),
                        old(self).base_cursor.spos(),
                        old(self).wave_end as int,
                        spec_filter(tag),
                    ) is Malformed ==> e is Wave)
                },
            },
    {
        let ghost c = self.base_cursor.contents();
        let ghost pos0 = self.base_cursor.spos();
        let ghost end = self.wave_end as int;
        let ghost f = spec_filter(tag);
        loop
            invariant
                self.wf(),
                self.head == old(self).head,
                self.wave_start == old(self).wave_start,
                self.wave_end == old(self).wave_end,
                self.first_chunk_pos == old(self).first_chunk_pos,
                self.base_cursor.contents() == c,
                forall|e: int| #[trigger]
                    self.base_cursor.read_past_end_is_io(e) == old(
                        self,
                    ).base_cursor.read_past_end_is_io(e),
                self.base_cursor.spos() >= 0,
                c == old(self).base_cursor.contents(),
                pos0 == old(self).base_cursor.spos(),
                end == old(self).wave_end as int,
                f == spec_filter(tag),
                chunk_scan(c, self.base_cursor.spos(), end, f) == chunk_scan(c, pos0, end, f),
            decreases scan_remaining(self.base_cursor.spos(), end),
        {
            let pos = self.base_cursor.position();
            if pos >= self.wave_end {
                return Ok(None);
            }
            if self.wave_end - pos < 8 {
                return Err(Error::wave("Malformed file: chunk head crosses WAVE container end"));
            }
            let ghost p = pos as int;
            let chunk_head = match ChunkHead::parse(&mut self.base_cursor) {
                Ok(h) => h,
                Err(e) => {
                    return Err(e);
                },
            };
            proof {
                assert(c.subrange(p, p + 8).subrange(0, 4) =~= c.subrange(p, p + 4));
                assert(c.subrange(p, p + 8).subrange(4, 8) =~= c.subrange(p + 4, p + 8));
            }
            let size = chunk_head.size;
            let pad: u64 = if size % 2 == 1 {
                1
            } else {
                0
            };
            if size as u64 + pad > self.wave_end - (pos + 8) {
                return Err(Error::wave("Malformed file: chunk size crosses WAVE container end"));
            }
            let next = pos + 8 + size as u64 + pad;
            let matched = match &tag {
                None => true,
                Some(t) => tags_equal(t, &chunk_head.tag),
            };
            if matched {
                let buffer = match self.base_cursor.read_exact(size as usize) {
                    Ok(v) => v,
                    Err(e) => {
                        return Err(e);
                    },
                };
                if pad == 1 {
                    self.base_cursor.seek_to(next);
                }
                return Ok(Some((chunk_head.tag, buffer)));
            } else {
                self.base_cursor.seek_to(next);
            }
        }
    }
}

} // verus!
