//! The append engine: validates a container's opening, patches its declared
//! top-level size, and appends a new `cue ` or `LIST/adtl` chunk at the
//! container's current end, with every size computation checked against the
//! 32-bit size field before any byte is written.
use crate::cue::{
    lemma_cue_list_round_trip, lemma_cues_concat_push, spec_cue_list, spec_cue_list_payload,
    CuePoint, CuePointV,
};
use crate::head::{spec_head_bytes, ChunkHead, ChunkHeadV};
use crate::ltxt::{
    lemma_ltxt_subs_concat_even, lemma_ltxt_subs_concat_push, lemma_ltxt_subs_split,
    spec_adtl_payload, spec_ltxt_sub_chunk, spec_ltxt_subs_concat, LabeledText, LabeledTextV,
};
use crate::reader::{
    chunk_scan, chunks_tile, lemma_scan_skips_tiled, lemma_tile_unchanged, read_riff_head,
    spec_chunks, spec_riff_head_ok, spec_riff_size, Scan,
};
use crate::stream::{spec_write_bytes, ByteCursor, ByteSource};
use crate::tags::{
    adtl_tag, cue_tag, list_tag, ltxt_tag, spec_adtl_tag, spec_cue_tag, spec_list_tag,
};
use crate::Error;
use vstd::bytes::{spec_u32_to_le_bytes, u32_to_le_bytes};
use vstd::prelude::*;
use vstd::string::StringSliceAdditionalSpecFns;
use vstd::utf8::encode_utf8;

verus! {

/// The message of every size-exceeded failure.
pub const CHUNK_TOO_BIG: &'static str = "Chunk size exceeds bounds of 32-bit integer";

/// Whether a chunk with a payload of `payload_len` bytes can be appended to
/// the container at position `p` of `d`: the container opening must be
/// valid, the payload and the grown top-level size must fit the 32-bit size
/// field, and the end of the appended chunk must be addressable.
pub open spec fn spec_can_append(d: Seq<u8>, p: int, payload_len: int) -> bool {
    &&& spec_riff_head_ok(d, p)
    &&& payload_len <= u32::MAX
    &&& payload_len + 8 + spec_riff_size(d, p) <= u32::MAX
    &&& p + 16 + spec_riff_size(d, p) + payload_len <= usize::MAX
}

/// Whether appending a chunk with a payload of `payload_len` bytes fails
/// with a format/size failure: the container opening was read but is
/// invalid, or it is valid and a size check fails. Every such failure is
/// detected before any byte is written.
pub open spec fn spec_append_wave_error(d: Seq<u8>, p: int, payload_len: int) -> bool {
    ||| (p + 12 <= d.len() && !spec_riff_head_ok(d, p))
    ||| (spec_riff_head_ok(d, p) && (payload_len > u32::MAX || payload_len + 8 + spec_riff_size(
        d,
        p,
    ) > u32::MAX))
}

/// The bytes of `d` after appending the encoded chunk `chunk` (head
/// included) to the container at position `p`: the 4-byte size field at
/// `p + 4` is overwritten with the old size grown by the chunk's length, and
/// the chunk is written at the container's old end.
pub open spec fn spec_appended(d: Seq<u8>, p: int, chunk: Seq<u8>) -> Seq<u8> {
    let s_old = spec_riff_size(d, p) as int;
    let patched = spec_write_bytes(d, p + 4, spec_u32_to_le_bytes((chunk.len() + s_old) as u32));
    spec_write_bytes(patched, p + 8 + s_old, chunk)
}

/// The whole encoded `cue ` chunk for the cue points of `cs`: an 8-byte head
/// and the count-prefixed records.
pub open spec fn spec_cue_chunk_bytes(cs: Seq<CuePointV>) -> Seq<u8>
    recommends
        4 + 24 * cs.len() <= u32::MAX,
{
    spec_head_bytes(ChunkHeadV { tag: spec_cue_tag(), size: (4 + 24 * cs.len()) as u32 })
        + spec_cue_list_payload(cs)
}

/// The given size rounded up to even: a chunk body of odd declared size is
/// followed by one pad byte on the wire. `None` only when the rounded size
/// would not be representable.
pub fn pad_size_16(size: usize) -> (r: Option<usize>)
    ensures
        match r {
            Some(v) => v as int == size + (
            if size % 2 == 1 {
                1int
            } else {
                0int
            }),
            None => size == usize::MAX,
        },
{
    if size % 2 == 1 {
        size.checked_add(1)
    } else {
        Some(size)
    }
}

/// Appends one `cue ` chunk holding `cues` at the container's current end:
/// validates the opening at the stream position, checks the new sizes
/// against the 32-bit size field, patches the top-level size, and writes the
/// chunk head, the record count and the records.
///
/// Succeeds exactly when the opening is valid and the sizes fit. A size
/// failure is reported before anything is written, so the stream bytes are
/// unchanged; only a write failure after the size patch (an unaddressable
/// end) can leave the patch without the chunk.
pub fn append_cue_chunk(cursor: &mut ByteCursor, cues: &[CuePoint]) -> (r: Result<(), Error>)
    ensures
        match r {
            Ok(_) => {
                &&& spec_can_append(
                    old(cursor).contents(),
                    old(cursor).spos(),
                    4 + 24 * cues.deep_view().len() as int,
                )
                &&& final(cursor).contents() == spec_appended(
                    old(cursor).contents(),
                    old(cursor).spos(),
                    spec_cue_chunk_bytes(cues.deep_view()),
                )
                &&& final(cursor).spos() == old(cursor).spos() + 20 + spec_riff_size(
                    old(cursor).contents(),
                    old(cursor).spos(),
                ) + 24 * cues.deep_view().len()
                &&& (old(cursor).contents().len() == old(cursor).spos() + 8 + spec_riff_size(
                    old(cursor).contents(),
                    old(cursor).spos(),
                ) ==> final(cursor).contents().len() == old(cursor).contents().len() + 12 + 24
                    * cues.deep_view().len())
            },
            Err(e) => {
                &&& !spec_can_append(
                    old(cursor).contents(),
                    old(cursor).spos(),
                    4 + 24 * cues.deep_view().len() as int,
                )
                &&& (e is Wave <==> spec_append_wave_error(
                    old(cursor).contents(),
                    old(cursor).spos(),
                    4 + 24 * cues.deep_view().len() as int,
                ))
                &&& (e is Io || e is Wave)
                &&& (e is Wave ==> final(cursor).contents() == old(cursor).contents()
                    && final(cursor).spos() == old(cursor).spos() + 12)
                &&& (old(cursor).spos() + 12 > old(cursor).contents().len()
                    ==> final(cursor).contents() == old(cursor).contents())
                &&& (e is Io && old(cursor).spos() + 12 <= old(cursor).contents().len()
                    ==> final(cursor).contents() == spec_write_bytes(
                    old(cursor).contents(),
                    old(cursor).spos() + 4,
                    spec_u32_to_le_bytes(
                        ((4 + 24 * cues.deep_view().len()) + 8 + spec_riff_size(
                            old(cursor).contents(),
                            old(cursor).spos(),
                        )) as u32,
                    ),
                ))
            },
        },
{
    let ghost d = old(cursor).contents();
    let ghost p = old(cursor).spos();
    let ghost cs = cues.deep_view();
    proof {
        vstd::std_specs::vec::axiom_spec_len(&old(cursor).data);
        assert forall|i: int| 0 <= i < cs.len() implies (#[trigger] cs[i]).wf() by {
            assert(cs[i] == cues@[i]@);
        }
    }
    let old_size = match read_riff_head(cursor) {
        Ok(h) => h,
        Err(e) => {
            return Err(e);
        },
    }.size;
    proof {
        assert(d.subrange(p, p + 8).subrange(4, 8) =~= d.subrange(p + 4, p + 8));
    }
    let sz_pos = cursor.position() - 8;
    let n = cues.len();
    if n > (u32::MAX as usize - 4) / 24 {
        return Err(Error::wave(CHUNK_TOO_BIG));
    }
    let chunk_size = 24 * n + 4;
    let new_size64 = chunk_size as u64 + 8 + old_size as u64;
    if new_size64 > u32::MAX as u64 {
        return Err(Error::wave(CHUNK_TOO_BIG));
    }
    let new_size = new_size64 as u32;
    cursor.seek_to(sz_pos);
    proof {
        assert(p + 12 <= d.len());
        assert(d.len() <= usize::MAX);
        assert(cursor.spos() == p + 4);
    }
    let nb = u32_to_le_bytes(new_size);
    match cursor.write_all(nb.as_slice()) {
        Ok(_) => (),
        Err(e) => {
            return Err(e);
        },
    }
    let after_patch = cursor.position();
    let chunk_start = match after_patch.checked_add(old_size as u64) {
        Some(t) => t,
        None => {
            return Err(Error::io("seek out of range"));
        },
    };
    cursor.seek_to(chunk_start);
    let chunk_head = ChunkHead { tag: cue_tag(), size: chunk_size as u32 };
    let mut chunk: Vec<u8> = Vec::new();
    let hb = chunk_head.as_bytes();
    chunk.extend_from_slice(hb.as_slice());
    let count_b = u32_to_le_bytes(n as u32);
    chunk.extend_from_slice(count_b.as_slice());
    proof {
        assert(cs.take(0) =~= Seq::<CuePointV>::empty());
        assert(chunk@ =~= spec_head_bytes(chunk_head@) + spec_u32_to_le_bytes(cs.len() as u32)
            + crate::cue::spec_cues_concat(cs.take(0)));
    }
    let mut i: usize = 0;
    while i < cues.len()
        invariant
            0 <= i <= cs.len(),
            cs == cues.deep_view(),
            cs.len() == cues@.len(),
            cs.len() <= (u32::MAX - 4) / 24,
            chunk_head@ == (ChunkHeadV { tag: spec_cue_tag(), size: (4 + 24 * cs.len()) as u32 }),
            chunk@ == spec_head_bytes(chunk_head@) + spec_u32_to_le_bytes(cs.len() as u32)
                + crate::cue::spec_cues_concat(cs.take(i as int)),
        decreases cues@.len() - i,
    {
        let cue = cues[i];
        let cb = cue.as_bytes();
        chunk.extend_from_slice(cb.as_slice());
        proof {
            assert(cue@ == cs[i as int]);
            assert(cs.take(i + 1) =~= cs.take(i as int).push(cs[i as int]));
            lemma_cues_concat_push(cs.take(i as int), cs[i as int]);
        }
        i = i + 1;
    }
    proof {
        assert(cs.take(cs.len() as int) =~= cs);
        assert(chunk@ =~= spec_cue_chunk_bytes(cs));
        lemma_cue_list_round_trip(cs);
    }
    match cursor.write_all(chunk.as_slice()) {
        Ok(_) => (),
        Err(e) => {
            return Err(e);
        },
    }
    proof {
        assert(final(cursor).contents() =~= spec_appended(d, p, spec_cue_chunk_bytes(cs)));
    }
    Ok(())
}

/// The whole encoded `LIST` chunk for the labeled-text records of `ls`: an
/// 8-byte head and the `adtl` payload.
pub open spec fn spec_label_chunk_bytes(ls: Seq<LabeledTextV>) -> Seq<u8>
    recommends
        spec_adtl_payload(ls).len() <= u32::MAX,
{
    spec_head_bytes(
        ChunkHeadV { tag: spec_list_tag(), size: spec_adtl_payload(ls).len() as u32 },
    ) + spec_adtl_payload(ls)
}

/// Appends one `LIST/adtl` chunk holding `labeled_texts` at the container's
/// current end: validates the opening at the stream position, sums each
/// record's padded sub-chunk size with explicit overflow checks, patches the
/// top-level size, and writes the chunk head, the list type, and each
/// sub-chunk with its pad byte.
///
/// Succeeds exactly when the opening is valid and the sizes fit. A size
/// failure is reported before anything is written, so the stream bytes are
/// unchanged; only a write failure after the size patch (an unaddressable
/// end) can leave the patch without the chunk.
pub fn append_label_chunk(cursor: &mut ByteCursor, labeled_texts: &[LabeledText]) -> (r: Result<
    (),
    Error,
>)
    ensures
        match r {
            Ok(_) => {
                &&& spec_can_append(
                    old(cursor).contents(),
                    old(cursor).spos(),
                    spec_adtl_payload(labeled_texts.deep_view()).len() as int,
                )
                &&& final(cursor).contents() == spec_appended(
                    old(cursor).contents(),
                    old(cursor).spos(),
                    spec_label_chunk_bytes(labeled_texts.deep_view()),
                )
                &&& final(cursor).spos() == old(cursor).spos() + 16 + spec_riff_size(
                    old(cursor).contents(),
                    old(cursor).spos(),
                ) + spec_adtl_payload(labeled_texts.deep_view()).len()
                &&& (old(cursor).contents().len() == old(cursor).spos() + 8 + spec_riff_size(
                    old(cursor).contents(),
                    old(cursor).spos(),
                ) ==> final(cursor).contents().len() == old(cursor).contents().len() + 8
                    + spec_adtl_payload(labeled_texts.deep_view()).len())
            },
            Err(e) => {
                &&& !spec_can_append(
                    old(cursor).contents(),
                    old(cursor).spos(),
                    spec_adtl_payload(labeled_texts.deep_view()).len() as int,
                )
                &&& (e is Wave <==> spec_append_wave_error(
                    old(cursor).contents(),
                    old(cursor).spos(),
                    spec_adtl_payload(labeled_texts.deep_view()).len() as int,
                ))
                &&& (e is Io || e is Wave)
                &&& (e is Wave ==> final(cursor).contents() == old(cursor).contents()
                    && final(cursor).spos() == old(cursor).spos() + 12)
                &&& (old(cursor).spos() + 12 > old(cursor).contents().len()
                    ==> final(cursor).contents() == old(cursor).contents())
                &&& (e is Io && old(cursor).spos() + 12 <= old(cursor).contents().len()
                    ==> final(cursor).contents() == spec_write_bytes(
                    old(cursor).contents(),
                    old(cursor).spos() + 4,
                    spec_u32_to_le_bytes(
                        (spec_adtl_payload(labeled_texts.deep_view()).len() + 8 + spec_riff_size(
                            old(cursor).contents(),
                            old(cursor).spos(),
                        )) as u32,
                    ),
                ))
            },
        },
{
    let ghost d = old(cursor).contents();
    let ghost p = old(cursor).spos();
    let ghost ls = labeled_texts.deep_view();
    proof {
        vstd::std_specs::vec::axiom_spec_len(&old(cursor).data);
        assert forall|k: int| 0 <= k < ls.len() implies (#[trigger] ls[k]).wf() by {
            assert(ls[k] == labeled_texts@[k]@);
        }
    }
    let old_size = match read_riff_head(cursor) {
        Ok(h) => h,
        Err(e) => {
            return Err(e);
        },
    }.size;
    proof {
        assert(d.subrange(p, p + 8).subrange(4, 8) =~= d.subrange(p + 4, p + 8));
    }
    let sz_pos = cursor.position() - 8;
    let mut total: u64 = 4;
    let mut i: usize = 0;
    proof {
        assert(ls.take(0) =~= Seq::<LabeledTextV>::empty());
    }
    while i < labeled_texts.len()
        invariant
            0 <= i <= ls.len(),
            ls == labeled_texts.deep_view(),
            ls.len() == labeled_texts@.len(),
            total as int == 4 + spec_ltxt_subs_concat(ls.take(i as int)).len(),
            total <= u32::MAX as u64,
            forall|k: int| 0 <= k < ls.len() ==> (#[trigger] ls[k]).wf(),
            d == old(cursor).contents(),
            p == old(cursor).spos(),
            spec_riff_head_ok(d, p),
            cursor.contents() == d,
            cursor.spos() == p + 12,
        decreases labeled_texts@.len() - i,
    {
        let l = &labeled_texts[i];
        let text_str = l.text.as_str();
        let text_bytes = text_str.as_bytes();
        let tlen = text_bytes.len();
        proof {
            vstd::bytes::lemma_auto_spec_u32_to_from_le_bytes();
            assert(l@ == ls[i as int]);
            assert(text_str@ == ls[i as int].text);
            assert(text_bytes@ == encode_utf8(text_str@));
            assert(encode_utf8(ls[i as int].text).len() == tlen);
            crate::ltxt::lemma_ltxt_round_trip(ls[i as int]);
            lemma_ltxt_subs_split(ls, i as int);
            assert(ls.skip(i as int)[0] == ls[i as int]);
            assert(ls.skip(i as int).skip(1) =~= ls.skip(i + 1));
            assert(spec_ltxt_sub_chunk(ls[i as int]).len() == 8 + (20 + tlen) + (
            if (20 + tlen) % 2 == 1 {
                1int
            } else {
                0int
            }));
        }
        if tlen > u32::MAX as usize - 28 {
            proof {
                assert(spec_ltxt_sub_chunk(ls[i as int]).len() > u32::MAX);
                assert(spec_ltxt_subs_concat(ls.skip(i as int)) == spec_ltxt_sub_chunk(
                    ls[i as int],
                ) + spec_ltxt_subs_concat(ls.skip(i as int).skip(1)));
                assert(spec_adtl_payload(ls).len() > u32::MAX);
            }
            return Err(Error::wave(CHUNK_TOO_BIG));
        }
        let sub_total: u64 = 28 + tlen as u64 + (tlen as u64 % 2);
        total = total + sub_total;
        proof {
            assert(ls.take(i + 1) =~= ls.take(i as int).push(ls[i as int]));
            lemma_ltxt_subs_concat_push(ls.take(i as int), ls[i as int]);
        }
        if total > u32::MAX as u64 {
            proof {
                lemma_ltxt_subs_split(ls, i + 1);
                assert(spec_adtl_payload(ls).len() > u32::MAX);
            }
            return Err(Error::wave(CHUNK_TOO_BIG));
        }
        i = i + 1;
    }
    proof {
        assert(ls.take(ls.len() as int) =~= ls);
        assert(total as int == spec_adtl_payload(ls).len());
    }
    let chunk_size = total as u32;
    let new_size64 = chunk_size as u64 + 8 + old_size as u64;
    if new_size64 > u32::MAX as u64 {
        return Err(Error::wave(CHUNK_TOO_BIG));
    }
    let new_size = new_size64 as u32;
    cursor.seek_to(sz_pos);
    proof {
        assert(p + 12 <= d.len());
        assert(d.len() <= usize::MAX);
        assert(cursor.spos() == p + 4);
    }
    let nb = u32_to_le_bytes(new_size);
    match cursor.write_all(nb.as_slice()) {
        Ok(_) => (),
        Err(e) => {
            return Err(e);
        },
    }
    let after_patch = cursor.position();
    let chunk_start = match after_patch.checked_add(old_size as u64) {
        Some(t) => t,
        None => {
            return Err(Error::io("seek out of range"));
        },
    };
    cursor.seek_to(chunk_start);
    let chunk_head = ChunkHead { tag: list_tag(), size: chunk_size };
    let mut chunk: Vec<u8> = Vec::new();
    let hb = chunk_head.as_bytes();
    chunk.extend_from_slice(hb.as_slice());
    let at = adtl_tag();
    chunk.extend_from_slice(at.as_slice());
    proof {
        assert(chunk@ =~= spec_head_bytes(chunk_head@) + spec_adtl_tag()
            + spec_ltxt_subs_concat(ls.take(0)));
    }
    let mut j: usize = 0;
    while j < labeled_texts.len()
        invariant
            0 <= j <= ls.len(),
            ls == labeled_texts.deep_view(),
            ls.len() == labeled_texts@.len(),
            spec_adtl_payload(ls).len() <= u32::MAX,
            chunk_head@ == (ChunkHeadV {
                tag: spec_list_tag(),
                size: spec_adtl_payload(ls).len() as u32,
            }),
            chunk@ == spec_head_bytes(chunk_head@) + spec_adtl_tag() + spec_ltxt_subs_concat(
                ls.take(j as int),
            ),
            forall|k: int| 0 <= k < ls.len() ==> (#[trigger] ls[k]).wf(),
        decreases labeled_texts@.len() - j,
    {
        let l = &labeled_texts[j];
        let text_str = l.text.as_str();
        let text_bytes = text_str.as_bytes();
        let tlen = text_bytes.len();
        proof {
            vstd::bytes::lemma_auto_spec_u32_to_from_le_bytes();
            assert(l@ == ls[j as int]);
            assert(text_str@ == ls[j as int].text);
            assert(text_bytes@ == encode_utf8(text_str@));
            assert(encode_utf8(ls[j as int].text).len() == tlen);
            crate::ltxt::lemma_ltxt_round_trip(ls[j as int]);
            lemma_ltxt_subs_split(ls, j as int);
            assert(ls.skip(j as int)[0] == ls[j as int]);
            assert(spec_ltxt_subs_concat(ls.skip(j as int)) == spec_ltxt_sub_chunk(ls[j as int])
                + spec_ltxt_subs_concat(ls.skip(j as int).skip(1)));
            assert(spec_ltxt_sub_chunk(ls[j as int]).len() <= spec_ltxt_subs_concat(ls).len());
            assert(tlen + 20 <= u32::MAX);
        }
        let sub_head = ChunkHead { tag: ltxt_tag(), size: (tlen + 20) as u32 };
        let shb = sub_head.as_bytes();
        chunk.extend_from_slice(shb.as_slice());
        let rb = l.as_bytes();
        chunk.extend_from_slice(rb.as_slice());
        if tlen % 2 == 1 {
            chunk.push(0u8);
        }
        proof {
            assert(ls.take(j + 1) =~= ls.take(j as int).push(ls[j as int]));
            lemma_ltxt_subs_concat_push(ls.take(j as int), ls[j as int]);
            assert(chunk@ =~= spec_head_bytes(chunk_head@) + spec_adtl_tag()
                + spec_ltxt_subs_concat(ls.take(j + 1)));
        }
        j = j + 1;
    }
    proof {
        assert(ls.take(ls.len() as int) =~= ls);
        assert(chunk@ =~= spec_label_chunk_bytes(ls));
    }
    match cursor.write_all(chunk.as_slice()) {
        Ok(_) => (),
        Err(e) => {
            return Err(e);
        },
    }
    proof {
        assert(final(cursor).contents() =~= spec_appended(d, p, spec_label_chunk_bytes(ls)));
    }
    Ok(())
}

/// A writer that appends chunks to one WAVE container. Construction
/// validates the container opening at the stream's current position and
/// remembers that position; each append re-reads the container's current
/// (already grown) size from the stream, so repeated appends compose with no
/// caller-maintained state; `restore_cursor` hands the stream back at the
/// remembered position.
pub struct ChunkWriter {
    /// The underlying stream; this writer owns its position until
    /// `restore_cursor` hands it back.
    pub base_cursor: ByteCursor,
    /// The absolute position of the container's first byte.
    pub start: u64,
}

impl ChunkWriter {
    /// The writer's structural invariant: a valid container opening stands
    /// at the remembered start.
    pub open spec fn wf(&self) -> bool {
        spec_riff_head_ok(self.base_cursor.contents(), self.start as int)
    }

    /// Validates the container opening at the stream's current position and
    /// takes ownership of the stream. Succeeds exactly when a valid opening
    /// is present.
    pub fn new(cursor: ByteCursor) -> (r: Result<ChunkWriter, Error>)
        ensures
            match r {
                Ok(w) => {
                    &&& spec_riff_head_ok(cursor.contents(), cursor.spos())
                    &&& w.wf()
                    &&& w.base_cursor.contents() == cursor.contents()
                    &&& w.start as int == cursor.spos()
                },
                Err(e) => {
                    &&& !spec_riff_head_ok(cursor.contents(), cursor.spos())
                    &&& (e is Io || e is Wave)
                    &&& (cursor.spos() + 12 <= cursor.contents().len() ==> e is Wave)
                },
            },
    {
        let mut cursor = cursor;
        let start = cursor.position();
        match read_riff_head(&mut cursor) {
            Ok(_) => (),
            Err(e) => {
                return Err(e);
            },
        }
        Ok(ChunkWriter { base_cursor: cursor, start })
    }

    /// Appends one `cue ` chunk at the container's current end, as
    /// [`append_cue_chunk`] does from the remembered start. When the
    /// container body is not shorter than its form tag, the opening stays
    /// valid, so further appends may follow.
    pub fn append_cue_chunk(&mut self, cues: &[CuePoint]) -> (r: Result<(), Error>)
        requires
            old(self).wf(),
        ensures
            final(self).start == old(self).start,
            match r {
                Ok(_) => {
                    &&& spec_can_append(
                        old(self).base_cursor.contents(),
                        old(self).start as int,
                        4 + 24 * cues.deep_view().len() as int,
                    )
                    &&& final(self).base_cursor.contents() == spec_appended(
                        old(self).base_cursor.contents(),
                        old(self).start as int,
                        spec_cue_chunk_bytes(cues.deep_view()),
                    )
                    &&& (spec_riff_size(old(self).base_cursor.contents(), old(self).start as int)
                        >= 4 ==> final(self).wf())
                },
                Err(e) => {
                    &&& !spec_can_append(
                        old(self).base_cursor.contents(),
                        old(self).start as int,
                        4 + 24 * cues.deep_view().len() as int,
                    )
                    &&& (e is Wave <==> spec_append_wave_error(
                        old(self).base_cursor.contents(),
                        old(self).start as int,
                        4 + 24 * cues.deep_view().len() as int,
                    ))
                    &&& (e is Io || e is Wave)
                    &&& (e is Wave ==> final(self).base_cursor.contents() == old(
                        self,
                    ).base_cursor.contents())
                },
            },
    {
        let ghost d = self.base_cursor.contents();
        let ghost p = self.start as int;
        self.base_cursor.seek_to(self.start);
        let r = append_cue_chunk(&mut self.base_cursor, cues);
        proof {
            if r is Ok && spec_riff_size(d, p) >= 4 {
                let cs = cues.deep_view();
                vstd::bytes::lemma_auto_spec_u32_to_from_le_bytes();
                assert forall|k: int| 0 <= k < cs.len() implies (#[trigger] cs[k]).wf() by {
                    assert(cs[k] == cues@[k]@);
                }
                lemma_cue_list_round_trip(cs);
                assert(spec_cue_chunk_bytes(cs).len() == 12 + 24 * cs.len());
                lemma_append_keeps_head(d, p, spec_cue_chunk_bytes(cs));
            }
        }
        r
    }

    /// Appends one `LIST/adtl` chunk at the container's current end, as
    /// [`append_label_chunk`] does from the remembered start. When the
    /// container body is not shorter than its form tag, the opening stays
    /// valid, so further appends may follow.
    pub fn append_label_chunk(&mut self, labeled_texts: &[LabeledText]) -> (r: Result<(), Error>)
        requires
            old(self).wf(),
        ensures
            final(self).start == old(self).start,
            match r {
                Ok(_) => {
                    &&& spec_can_append(
                        old(self).base_cursor.contents(),
                        old(self).start as int,
                        spec_adtl_payload(labeled_texts.deep_view()).len() as int,
                    )
                    &&& final(self).base_cursor.contents() == spec_appended(
                        old(self).base_cursor.contents(),
                        old(self).start as int,
                        spec_label_chunk_bytes(labeled_texts.deep_view()),
                    )
                    &&& (spec_riff_size(old(self).base_cursor.contents(), old(self).start as int)
                        >= 4 ==> final(self).wf())
                },
                Err(e) => {
                    &&& !spec_can_append(
                        old(self).base_cursor.contents(),
                        old(self).start as int,
                        spec_adtl_payload(labeled_texts.deep_view()).len() as int,
                    )
                    &&& (e is Wave <==> spec_append_wave_error(
                        old(self).base_cursor.contents(),
                        old(self).start as int,
                        spec_adtl_payload(labeled_texts.deep_view()).len() as int,
                    ))
                    &&& (e is Io || e is Wave)
                    &&& (e is Wave ==> final(self).base_cursor.contents() == old(
                        self,
                    ).base_cursor.contents())
                },
            },
    {
        let ghost d = self.base_cursor.contents();
        let ghost p = self.start as int;
        let ghost ls = labeled_texts.deep_view();
        self.base_cursor.seek_to(self.start);
        let r = append_label_chunk(&mut self.base_cursor, labeled_texts);
        proof {
            if r is Ok && spec_riff_size(d, p) >= 4 {
                assert forall|k: int| 0 <= k < ls.len() implies (#[trigger] ls[k]).wf() by {
                    assert(ls[k] == labeled_texts@[k]@);
                }
                lemma_ltxt_subs_concat_even(ls);
                vstd::bytes::lemma_auto_spec_u32_to_from_le_bytes();
                assert(spec_label_chunk_bytes(ls).len() == 8 + spec_adtl_payload(ls).len());
                lemma_append_keeps_head(d, p, spec_label_chunk_bytes(ls));
            }
        }
        r
    }

    /// Repositions the stream to the exact offset recorded at construction
    /// time and hands it back; the writer is consumed.
    pub fn restore_cursor(self) -> (r: Result<ByteCursor, Error>)
        ensures
            match r {
                Ok(c) => {
                    &&& c.contents() == self.base_cursor.contents()
                    &&& c.spos() == self.start as int
                },
                Err(_) => false,
            },
    {
        let mut base = self.base_cursor;
        base.seek_to(self.start);
        Ok(base)
    }
}

/// For any list of cue points appended to a container whose chunks tile its
/// body exactly, none of them a `cue ` chunk, a scan of the grown container
/// filtered on `cue ` finds exactly the appended chunk, stops at the new
/// container end, and decoding the found payload reproduces the list.
pub proof fn lemma_appended_cues_read_back(d: Seq<u8>, p: int, cs: Seq<CuePointV>)
    requires
        0 <= p,
        spec_riff_head_ok(d, p),
        spec_riff_size(d, p) >= 4,
        d.len() == p + 8 + spec_riff_size(d, p),
        chunks_tile(d, p + 12, p + 8 + spec_riff_size(d, p)),
        forall|i: int|
            0 <= i < spec_chunks(d, p + 12, p + 8 + spec_riff_size(d, p)).len() ==> (
            #[trigger] spec_chunks(d, p + 12, p + 8 + spec_riff_size(d, p))[i]).0
                != spec_cue_tag(),
        forall|i: int| 0 <= i < cs.len() ==> (#[trigger] cs[i]).wf(),
        spec_can_append(d, p, 4 + 24 * cs.len() as int),
    ensures
        ({
            let d2 = spec_appended(d, p, spec_cue_chunk_bytes(cs));
            let new_end = p + 8 + spec_riff_size(d2, p);
            &&& spec_riff_head_ok(d2, p)
            &&& new_end == d2.len()
            &&& chunk_scan(d2, p + 12, new_end, Option::Some(spec_cue_tag())) == (Scan::Found {
                tag: spec_cue_tag(),
                payload: spec_cue_list_payload(cs),
                pos: new_end,
            })
            &&& spec_cue_list(spec_cue_list_payload(cs)) == cs
        }),
{
    vstd::bytes::lemma_auto_spec_u32_to_from_le_bytes();
    lemma_cue_list_round_trip(cs);
    let chunk = spec_cue_chunk_bytes(cs);
    let csize = 4 + 24 * cs.len() as int;
    assert(chunk.len() == 8 + csize);
    let s_old = spec_riff_size(d, p) as int;
    let q = p + 8 + s_old;
    lemma_append_keeps_head(d, p, chunk);
    let d2 = spec_appended(d, p, chunk);
    let new_end = p + 8 + spec_riff_size(d2, p) as int;
    assert(d2.len() == q + chunk.len());
    assert(new_end == d2.len());
    assert forall|i: int| p + 12 <= i < q implies d2[i] == d[i] by {
        assert(spec_write_bytes(d, p + 4, spec_u32_to_le_bytes((chunk.len() + s_old) as u32))[i]
            == d[i]);
    }
    lemma_tile_unchanged(d, d2, p + 12, q);
    lemma_scan_skips_tiled(d2, p + 12, q, new_end, spec_cue_tag());
    assert forall|i: int| 0 <= i < chunk.len() implies d2[q + i] == chunk[i] by {}
    assert(d2.subrange(q, q + 4) =~= spec_cue_tag());
    assert(d2.subrange(q + 4, q + 8) =~= spec_u32_to_le_bytes(csize as u32));
    assert(d2.subrange(q + 8, q + 8 + csize) =~= spec_cue_list_payload(cs));
    assert(chunk_scan(d2, q, new_end, Option::Some(spec_cue_tag())) == (Scan::Found {
        tag: spec_cue_tag(),
        payload: spec_cue_list_payload(cs),
        pos: new_end,
    }));
}

/// Appending a chunk of even length to a container whose body holds at
/// least its form tag leaves a valid container opening in place: the tags
/// are untouched and the grown size is still even.
proof fn lemma_append_keeps_head(d: Seq<u8>, p: int, chunk: Seq<u8>)
    requires
        0 <= p,
        spec_riff_head_ok(d, p),
        spec_riff_size(d, p) >= 4,
        chunk.len() % 2 == 0,
        chunk.len() + spec_riff_size(d, p) <= u32::MAX,
    ensures
        spec_riff_head_ok(spec_appended(d, p, chunk), p),
        spec_riff_size(spec_appended(d, p, chunk), p) == chunk.len() + spec_riff_size(d, p),
    decreases 0int,
{
    vstd::bytes::lemma_auto_spec_u32_to_from_le_bytes();
    let s_old = spec_riff_size(d, p) as int;
    let b = spec_u32_to_le_bytes((chunk.len() + s_old) as u32);
    assert(b.len() == 4);
    let w1 = spec_write_bytes(d, p + 4, b);
    assert(w1.len() == d.len());
    let out = spec_appended(d, p, chunk);
    assert(out.len() >= d.len());
    assert forall|i: int| p <= i < p + 4 implies out[i] == d[i] by {
        assert(w1[i] == d[i]);
    }
    assert forall|i: int| p + 8 <= i < p + 12 implies out[i] == d[i] by {
        assert(w1[i] == d[i]);
    }
    assert(out.subrange(p, p + 4) =~= d.subrange(p, p + 4));
    assert(out.subrange(p + 8, p + 12) =~= d.subrange(p + 8, p + 12));
    assert(out.subrange(p + 4, p + 8) =~= b);
}

} // verus!
