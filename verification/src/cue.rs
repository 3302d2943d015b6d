//! The cue point codec: fixed 24-byte records of six little-endian 32-bit
//! fields, and the decoding of a whole `cue ` chunk body, whose first 4 bytes
//! hold the record count and whose remainder holds consecutive records.
use crate::tags::spec_data_tag;
use vstd::bytes::{spec_u32_from_le_bytes, spec_u32_to_le_bytes, u32_from_le_bytes, u32_to_le_bytes};
use vstd::prelude::*;
use vstd::slice::slice_subrange;

verus! {

/// The mathematical model of a cue point.
pub ghost struct CuePointV {
    pub id: u32,
    pub position: u32,
    pub data_tag: Seq<u8>,
    pub chunk_start: u32,
    pub block_start: u32,
    pub sample_offset: u32,
}

impl CuePointV {
    /// A well-formed model has a 4-byte data tag; the model of every
    /// executable `CuePoint` is well-formed.
    pub open spec fn wf(self) -> bool {
        self.data_tag.len() == 4
    }
}

/// The 24 bytes that encode `c`: six 4-byte fields in fixed order.
pub open spec fn spec_cue_bytes(c: CuePointV) -> Seq<u8>
    recommends
        c.wf(),
{
    spec_u32_to_le_bytes(c.id) + spec_u32_to_le_bytes(c.position) + c.data_tag
        + spec_u32_to_le_bytes(c.chunk_start) + spec_u32_to_le_bytes(c.block_start)
        + spec_u32_to_le_bytes(c.sample_offset)
}

/// The cue point encoded in the 24 bytes `b`.
pub open spec fn spec_cue_of_bytes(b: Seq<u8>) -> CuePointV
    recommends
        b.len() == 24,
{
    CuePointV {
        id: spec_u32_from_le_bytes(b.subrange(0, 4)),
        position: spec_u32_from_le_bytes(b.subrange(4, 8)),
        data_tag: b.subrange(8, 12),
        chunk_start: spec_u32_from_le_bytes(b.subrange(12, 16)),
        block_start: spec_u32_from_le_bytes(b.subrange(16, 20)),
        sample_offset: spec_u32_from_le_bytes(b.subrange(20, 24)),
    }
}

/// The consecutive complete 24-byte records at the start of `b`; trailing
/// bytes that do not fill a record are ignored.
pub open spec fn spec_cue_records(b: Seq<u8>) -> Seq<CuePointV>
    decreases b.len(),
{
    if b.len() < 24 {
        seq![]
    } else {
        seq![spec_cue_of_bytes(b.subrange(0, 24))] + spec_cue_records(b.skip(24))
    }
}

/// The cue points decoded from a whole `cue ` chunk body `b`: the records
/// after the 4-byte count prefix, which is owned by the caller and ignored.
pub open spec fn spec_cue_list(b: Seq<u8>) -> Seq<CuePointV>
    recommends
        b.len() >= 4,
{
    spec_cue_records(b.skip(4))
}

/// The concatenated encodings of the cue points of `cs`.
pub open spec fn spec_cues_concat(cs: Seq<CuePointV>) -> Seq<u8>
    decreases cs.len(),
{
    if cs.len() == 0 {
        seq![]
    } else {
        spec_cue_bytes(cs[0]) + spec_cues_concat(cs.skip(1))
    }
}

/// The whole body of a `cue ` chunk holding the cue points of `cs`: a 32-bit
/// little-endian record count followed by the 24-byte records.
pub open spec fn spec_cue_list_payload(cs: Seq<CuePointV>) -> Seq<u8>
    recommends
        cs.len() <= u32::MAX,
{
    spec_u32_to_le_bytes(cs.len() as u32) + spec_cues_concat(cs)
}

/// Decoding inverts encoding on every well-formed cue point.
pub proof fn lemma_cue_round_trip(c: CuePointV)
    requires
        c.wf(),
    ensures
        spec_cue_bytes(c).len() == 24,
        spec_cue_of_bytes(spec_cue_bytes(c)) == c,
{
    vstd::bytes::lemma_auto_spec_u32_to_from_le_bytes();
    let b = spec_cue_bytes(c);
    assert(b.subrange(0, 4) =~= spec_u32_to_le_bytes(c.id));
    assert(b.subrange(4, 8) =~= spec_u32_to_le_bytes(c.position));
    assert(b.subrange(8, 12) =~= c.data_tag);
    assert(b.subrange(12, 16) =~= spec_u32_to_le_bytes(c.chunk_start));
    assert(b.subrange(16, 20) =~= spec_u32_to_le_bytes(c.block_start));
    assert(b.subrange(20, 24) =~= spec_u32_to_le_bytes(c.sample_offset));
}

/// Decoding a record sequence inverts concatenated encoding: every list of
/// well-formed cue points is recovered, in order, from its records.
pub proof fn lemma_cue_records_round_trip(cs: Seq<CuePointV>)
    requires
        forall|i: int| 0 <= i < cs.len() ==> (#[trigger] cs[i]).wf(),
    ensures
        spec_cue_records(spec_cues_concat(cs)) == cs,
    decreases cs.len(),
{
    if cs.len() == 0 {
        assert(spec_cues_concat(cs).len() == 0);
        assert(spec_cue_records(spec_cues_concat(cs)) =~= cs);
    } else {
        let b = spec_cues_concat(cs);
        lemma_cue_round_trip(cs[0]);
        assert(b.subrange(0, 24) =~= spec_cue_bytes(cs[0]));
        assert(b.skip(24) =~= spec_cues_concat(cs.skip(1)));
        lemma_cue_records_round_trip(cs.skip(1));
        assert(spec_cue_records(b) =~= cs);
    }
}

/// For any list of well-formed cue points, decoding the encoded chunk body
/// (count prefix included) reproduces the original list.
pub proof fn lemma_cue_list_round_trip(cs: Seq<CuePointV>)
    requires
        forall|i: int| 0 <= i < cs.len() ==> (#[trigger] cs[i]).wf(),
        cs.len() <= u32::MAX,
    ensures
        spec_cue_list_payload(cs).len() == 4 + 24 * cs.len(),
        spec_cue_list(spec_cue_list_payload(cs)) == cs,
{
    vstd::bytes::lemma_auto_spec_u32_to_from_le_bytes();
    let b = spec_cue_list_payload(cs);
    lemma_cues_concat_len(cs);
    assert(b.skip(4) =~= spec_cues_concat(cs));
    lemma_cue_records_round_trip(cs);
}

/// The concatenated encodings of `n` cue points hold `24 * n` bytes.
pub proof fn lemma_cues_concat_len(cs: Seq<CuePointV>)
    requires
        forall|i: int| 0 <= i < cs.len() ==> (#[trigger] cs[i]).wf(),
    ensures
        spec_cues_concat(cs).len() == 24 * cs.len(),
    decreases cs.len(),
{
    if cs.len() == 0 {
    } else {
        lemma_cue_round_trip(cs[0]);
        lemma_cues_concat_len(cs.skip(1));
    }
}

/// Appending one cue point to a list appends its record to the concatenated
/// encodings.
pub proof fn lemma_cues_concat_push(cs: Seq<CuePointV>, c: CuePointV)
    ensures
        spec_cues_concat(cs.push(c)) == spec_cues_concat(cs) + spec_cue_bytes(c),
    decreases cs.len(),
{
    if cs.len() == 0 {
        assert(cs.push(c)[0] == c);
        assert(cs.push(c).skip(1) =~= cs);
        assert(spec_cues_concat(cs.push(c)) =~= spec_cues_concat(cs) + spec_cue_bytes(c));
    } else {
        assert(cs.push(c)[0] == cs[0]);
        assert(cs.push(c).skip(1) =~= cs.skip(1).push(c));
        lemma_cues_concat_push(cs.skip(1), c);
        assert(spec_cues_concat(cs.push(c)) =~= spec_cues_concat(cs) + spec_cue_bytes(c));
    }
}

/// A cue point: a marker at a sample offset within the audio data, carrying
/// the fixed fields of the 24-byte wire record.
#[derive(Debug, Clone, Copy)]
pub struct CuePoint {
    pub id: u32,
    pub position: u32,
    pub data_tag: [u8; 4],
    pub chunk_start: u32,
    pub block_start: u32,
    pub sample_offset: u32,
}

impl View for CuePoint {
    type V = CuePointV;

    open spec fn view(&self) -> CuePointV {
        CuePointV {
            id: self.id,
            position: self.position,
            data_tag: self.data_tag@,
            chunk_start: self.chunk_start,
            block_start: self.block_start,
            sample_offset: self.sample_offset,
        }
    }
}

impl DeepView for CuePoint {
    type V = CuePointV;

    open spec fn deep_view(&self) -> CuePointV {
        self@
    }
}

impl PartialEq for CuePoint {
    fn eq(&self, other: &CuePoint) -> (r: bool) {
        let tags = crate::tags::tags_equal(&self.data_tag, &other.data_tag);
        tags && self.id == other.id && self.position == other.position && self.chunk_start
            == other.chunk_start && self.block_start == other.block_start && self.sample_offset
            == other.sample_offset
    }
}

impl vstd::std_specs::cmp::PartialEqSpecImpl for CuePoint {
    open spec fn obeys_eq_spec() -> bool {
        true
    }

    open spec fn eq_spec(&self, other: &CuePoint) -> bool {
        self@ == other@
    }
}

impl CuePoint {
    /// Decodes one 24-byte record.
    pub fn parse(bytes: &[u8]) -> (r: CuePoint)
        requires
            bytes@.len() == crate::CUE_SZ,
        ensures
            r@ == spec_cue_of_bytes(bytes@),
    {
        let id = u32_from_le_bytes(slice_subrange(bytes, 0, 4));
        let position = u32_from_le_bytes(slice_subrange(bytes, 4, 8));
        let data_tag: [u8; 4] = [bytes[8], bytes[9], bytes[10], bytes[11]];
        let chunk_start = u32_from_le_bytes(slice_subrange(bytes, 12, 16));
        let block_start = u32_from_le_bytes(slice_subrange(bytes, 16, 20));
        let sample_offset = u32_from_le_bytes(slice_subrange(bytes, 20, 24));
        proof {
            assert(data_tag@ =~= bytes@.subrange(8, 12));
        }
        CuePoint { id, position, data_tag, chunk_start, block_start, sample_offset }
    }

    /// A minimal cue point at the given sample offset: the other positional
    /// fields are zero and the tag names the audio data chunk.
    pub fn from_sample_offset(id: u32, offset: u32) -> (r: CuePoint)
        ensures
            r@ == (CuePointV {
                id,
                position: 0,
                data_tag: spec_data_tag(),
                chunk_start: 0,
                block_start: 0,
                sample_offset: offset,
            }),
    {
        CuePoint {
            id,
            position: 0,
            data_tag: crate::tags::data_tag(),
            chunk_start: 0,
            block_start: 0,
            sample_offset: offset,
        }
    }

    /// The 24 bytes that encode this cue point.
    pub fn as_bytes(&self) -> (b: [u8; crate::CUE_SZ])
        ensures
            b@ == spec_cue_bytes(self@),
    {
        let id_b = u32_to_le_bytes(self.id);
        let po_b = u32_to_le_bytes(self.position);
        let cs_b = u32_to_le_bytes(self.chunk_start);
        let bs_b = u32_to_le_bytes(self.block_start);
        let so_b = u32_to_le_bytes(self.sample_offset);
        let b: [u8; 24] = [
            id_b[0],
            id_b[1],
            id_b[2],
            id_b[3],
            po_b[0],
            po_b[1],
            po_b[2],
            po_b[3],
            self.data_tag[0],
            self.data_tag[1],
            self.data_tag[2],
            self.data_tag[3],
            cs_b[0],
            cs_b[1],
            cs_b[2],
            cs_b[3],
            bs_b[0],
            bs_b[1],
            bs_b[2],
            bs_b[3],
            so_b[0],
            so_b[1],
            so_b[2],
            so_b[3],
        ];
        proof {
            assert(b@ =~= spec_cue_bytes(self@));
        }
        b
    }
}

/// Decodes a whole `cue ` chunk body: skips the 4-byte record count and
/// returns every complete 24-byte record that follows, ignoring trailing
/// bytes that do not fill a record.
pub fn parse_cue_points(bytes: &[u8]) -> (r: Vec<CuePoint>)
    requires
        bytes@.len() >= 4,
    ensures
        r.deep_view() == spec_cue_list(bytes@),
{
    let mut out: Vec<CuePoint> = Vec::new();
    let mut i: usize = 4;
    while bytes.len() - i >= crate::CUE_SZ
        invariant
            4 <= i <= bytes@.len(),
            i % 24 == 4,
            spec_cue_records(bytes@.skip(4)) == out.deep_view() + spec_cue_records(
                bytes@.skip(i as int),
            ),
        decreases bytes@.len() - i,
    {
        let cue = CuePoint::parse(slice_subrange(bytes, i, i + crate::CUE_SZ));
        proof {
            assert(bytes@.skip(i as int).subrange(0, 24) =~= bytes@.subrange(
                i as int,
                i + crate::CUE_SZ,
            ));
            assert(bytes@.skip(i as int).skip(24) =~= bytes@.skip(i + crate::CUE_SZ));
        }
        out.push(cue);
        proof {
            assert(out.deep_view() =~= out.deep_view().subrange(0, out.deep_view().len() - 1)
                + seq![cue@]);
        }
        i = i + crate::CUE_SZ;
    }
    proof {
        assert(spec_cue_records(bytes@.skip(i as int)) =~= Seq::<CuePointV>::empty());
        assert(out.deep_view() =~= spec_cue_list(bytes@));
    }
    out
}

} // verus!
