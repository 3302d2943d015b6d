//! The labeled-text codec: a variable-length `ltxt` record of 20 fixed bytes
//! followed by text, and the extraction of every well-formed `ltxt` record
//! from the body of a `LIST` chunk of list type `adtl`.
use crate::head::{spec_head_bytes, ChunkHeadV};
use crate::tags::{
    spec_adtl_tag, spec_blank2, spec_ltxt_tag, spec_mark_tag, tags_equal,
};
use vstd::bytes::{
    spec_u16_from_le_bytes, spec_u16_to_le_bytes, spec_u32_from_le_bytes, spec_u32_to_le_bytes,
    u16_from_le_bytes, u16_to_le_bytes, u32_from_le_bytes, u32_to_le_bytes,
};
use vstd::prelude::*;
use vstd::slice::slice_subrange;
use vstd::utf8::{decode_utf8, encode_utf8, valid_utf8};

verus! {

/// What `String::from_utf8_lossy` returns on the given bytes. The result is
/// a function of the bytes alone; beyond the valid-UTF-8 case stated at
/// [`bytes_to_string_lossy`], nothing is assumed of it.
pub uninterp spec fn utf8_lossy(b: Seq<u8>) -> Seq<char>;

/// The characters that decoding the given bytes as UTF-8 yields, with
/// invalid sequences replaced: exactly the decoded characters when the bytes
/// are valid UTF-8, and the (named, opaque) lossy result otherwise.
pub open spec fn spec_lossy(b: Seq<u8>) -> Seq<char> {
    if valid_utf8(b) {
        decode_utf8(b)
    } else {
        utf8_lossy(b)
    }
}

/// Relies on `String::from_utf8_lossy` (with `Cow::into_owned`): the result
/// depends on the bytes alone, and, as its documentation states, bytes that
/// are valid UTF-8 convert to the very string they encode.
#[verifier::external_body]
pub(crate) fn bytes_to_string_lossy(v: &[u8]) -> (r: String)
    ensures
        r@ == utf8_lossy(v@),
        valid_utf8(v@) ==> r@ == decode_utf8(v@),
{
    String::from_utf8_lossy(v).into_owned()
}

/// The mathematical model of a labeled-text record.
pub ghost struct LabeledTextV {
    pub cue_id: u32,
    pub sample_length: u32,
    pub purpose_id: Seq<u8>,
    pub country: Seq<u8>,
    pub language: Seq<u8>,
    pub dialect: Seq<u8>,
    pub code_page: u16,
    pub text: Seq<char>,
}

impl LabeledTextV {
    /// A well-formed model has fixed fields of their wire widths; the model
    /// of every executable `LabeledText` is well-formed.
    pub open spec fn wf(self) -> bool {
        &&& self.purpose_id.len() == 4
        &&& self.country.len() == 2
        &&& self.language.len() == 2
        &&& self.dialect.len() == 2
    }
}

/// The size in bytes of the encoding of `l`: the 20 fixed bytes plus the
/// UTF-8 encoding of the text, with no terminator and no padding.
pub open spec fn spec_ltxt_size(l: LabeledTextV) -> int {
    20 + encode_utf8(l.text).len() as int
}

/// The bytes that encode `l`.
pub open spec fn spec_ltxt_bytes(l: LabeledTextV) -> Seq<u8>
    recommends
        l.wf(),
{
    spec_u32_to_le_bytes(l.cue_id) + spec_u32_to_le_bytes(l.sample_length) + l.purpose_id
        + l.country + l.language + l.dialect + spec_u16_to_le_bytes(l.code_page) + encode_utf8(
        l.text,
    )
}

/// The labeled-text record encoded in `b` (at least 20 bytes): the fixed
/// fields, then all remaining bytes read as text, lossily.
pub open spec fn spec_ltxt_of_bytes(b: Seq<u8>) -> LabeledTextV
    recommends
        b.len() >= 20,
{
    LabeledTextV {
        cue_id: spec_u32_from_le_bytes(b.subrange(0, 4)),
        sample_length: spec_u32_from_le_bytes(b.subrange(4, 8)),
        purpose_id: b.subrange(8, 12),
        country: b.subrange(12, 14),
        language: b.subrange(14, 16),
        dialect: b.subrange(16, 18),
        code_page: spec_u16_from_le_bytes(b.subrange(18, 20)),
        text: spec_lossy(b.skip(20)),
    }
}

/// The records extracted from the sub-chunk area `s` of a `LIST/adtl` body:
/// while at least 8 bytes remain, an embedded head is read; a sub-chunk
/// whose tag is `ltxt`, whose size is at least 20 and whose body fits in the
/// remaining bytes is decoded and kept, any other is discarded; the scan
/// advances past the body (clamped to what remains) and past one pad byte
/// when the declared size is odd and a byte remains.
pub open spec fn spec_ltxt_list(s: Seq<u8>) -> Seq<LabeledTextV>
    decreases s.len(),
{
    if s.len() < 8 {
        seq![]
    } else {
        let tag = s.subrange(0, 4);
        let size = spec_u32_from_le_bytes(s.subrange(4, 8)) as int;
        let rest = s.skip(8);
        let hit = tag == spec_ltxt_tag() && size >= 20 && size <= rest.len();
        let consumed = if size <= rest.len() {
            size
        } else {
            rest.len() as int
        };
        let after1 = rest.skip(consumed);
        let after = if size % 2 == 1 && after1.len() > 0 {
            after1.skip(1)
        } else {
            after1
        };
        let tail = spec_ltxt_list(after);
        if hit {
            seq![spec_ltxt_of_bytes(rest.subrange(0, size))] + tail
        } else {
            tail
        }
    }
}

/// The records extracted from a whole `LIST` chunk body `b`: the 4-byte list
/// type is skipped, then the sub-chunks are scanned; a body of fewer than 4
/// bytes holds nothing.
pub open spec fn spec_extract_labeled_text(b: Seq<u8>) -> Seq<LabeledTextV> {
    if b.len() < 4 {
        seq![]
    } else {
        spec_ltxt_list(b.skip(4))
    }
}

/// One encoded `ltxt` sub-chunk as the append engine writes it: an 8-byte
/// head (tag `ltxt`, the record's size), the record, and one zero pad byte
/// when the size is odd.
pub open spec fn spec_ltxt_sub_chunk(l: LabeledTextV) -> Seq<u8>
    recommends
        l.wf(),
        spec_ltxt_size(l) <= u32::MAX,
{
    spec_head_bytes(ChunkHeadV { tag: spec_ltxt_tag(), size: spec_ltxt_size(l) as u32 })
        + spec_ltxt_bytes(l) + if spec_ltxt_size(l) % 2 == 1 {
        seq![0u8]
    } else {
        seq![]
    }
}

/// The concatenated encoded sub-chunks of the records of `ls`.
pub open spec fn spec_ltxt_subs_concat(ls: Seq<LabeledTextV>) -> Seq<u8>
    decreases ls.len(),
{
    if ls.len() == 0 {
        seq![]
    } else {
        spec_ltxt_sub_chunk(ls[0]) + spec_ltxt_subs_concat(ls.skip(1))
    }
}

/// The whole body of a `LIST` chunk holding the records of `ls`: the list
/// type `adtl` followed by the encoded sub-chunks.
pub open spec fn spec_adtl_payload(ls: Seq<LabeledTextV>) -> Seq<u8> {
    spec_adtl_tag() + spec_ltxt_subs_concat(ls)
}

/// The encoding of a well-formed record is its declared size long, and
/// decoding inverts encoding on it, whatever its text (empty, odd-length,
/// any characters).
pub proof fn lemma_ltxt_round_trip(l: LabeledTextV)
    requires
        l.wf(),
    ensures
        spec_ltxt_bytes(l).len() == spec_ltxt_size(l),
        spec_ltxt_of_bytes(spec_ltxt_bytes(l)) == l,
{
    vstd::bytes::lemma_auto_spec_u32_to_from_le_bytes();
    vstd::bytes::lemma_auto_spec_u16_to_from_le_bytes();
    let b = spec_ltxt_bytes(l);
    assert(b.subrange(0, 4) =~= spec_u32_to_le_bytes(l.cue_id));
    assert(b.subrange(4, 8) =~= spec_u32_to_le_bytes(l.sample_length));
    assert(b.subrange(8, 12) =~= l.purpose_id);
    assert(b.subrange(12, 14) =~= l.country);
    assert(b.subrange(14, 16) =~= l.language);
    assert(b.subrange(16, 18) =~= l.dialect);
    assert(b.subrange(18, 20) =~= spec_u16_to_le_bytes(l.code_page));
    assert(b.skip(20) =~= encode_utf8(l.text));
    vstd::utf8::encode_utf8_valid_utf8(l.text);
    vstd::utf8::encode_utf8_decode_utf8(l.text);
}

/// Extracting from the concatenated sub-chunks of well-formed records whose
/// sizes fit the 32-bit size field recovers every record, in order.
pub proof fn lemma_ltxt_list_round_trip(ls: Seq<LabeledTextV>)
    requires
        forall|i: int| 0 <= i < ls.len() ==> (#[trigger] ls[i]).wf(),
        forall|i: int| 0 <= i < ls.len() ==> spec_ltxt_size(#[trigger] ls[i]) <= u32::MAX,
    ensures
        spec_extract_labeled_text(spec_adtl_payload(ls)) == ls,
{
    let b = spec_adtl_payload(ls);
    assert(b.len() >= 4);
    assert(b.skip(4) =~= spec_ltxt_subs_concat(ls));
    lemma_ltxt_list_of_subs(ls);
}

/// Scanning the concatenated sub-chunks of well-formed records recovers
/// every record, in order.
proof fn lemma_ltxt_list_of_subs(ls: Seq<LabeledTextV>)
    requires
        forall|i: int| 0 <= i < ls.len() ==> (#[trigger] ls[i]).wf(),
        forall|i: int| 0 <= i < ls.len() ==> spec_ltxt_size(#[trigger] ls[i]) <= u32::MAX,
    ensures
        spec_ltxt_list(spec_ltxt_subs_concat(ls)) == ls,
    decreases ls.len(),
{
    vstd::bytes::lemma_auto_spec_u32_to_from_le_bytes();
    if ls.len() == 0 {
        assert(spec_ltxt_list(spec_ltxt_subs_concat(ls)) =~= ls);
    } else {
        let l0 = ls[0];
        let s = spec_ltxt_subs_concat(ls);
        let size = spec_ltxt_size(l0);
        lemma_ltxt_round_trip(l0);
        let head = spec_head_bytes(ChunkHeadV { tag: spec_ltxt_tag(), size: size as u32 });
        assert(head.len() == 8);
        assert(s.subrange(0, 4) =~= spec_ltxt_tag());
        assert(s.subrange(4, 8) =~= spec_u32_to_le_bytes(size as u32));
        let rest = s.skip(8);
        assert(spec_u32_from_le_bytes(s.subrange(4, 8)) as int == size);
        assert(rest.subrange(0, size) =~= spec_ltxt_bytes(l0));
        assert(size <= rest.len());
        let after1 = rest.skip(size);
        if size % 2 == 1 {
            assert(after1.len() > 0);
            assert(after1.skip(1) =~= spec_ltxt_subs_concat(ls.skip(1)));
        } else {
            assert(after1 =~= spec_ltxt_subs_concat(ls.skip(1)));
        }
        lemma_ltxt_list_of_subs(ls.skip(1));
        assert(spec_ltxt_list(s) =~= ls);
    }
}

/// Appending one record to a list appends its encoded sub-chunk to the
/// concatenated sub-chunks.
pub proof fn lemma_ltxt_subs_concat_push(ls: Seq<LabeledTextV>, l: LabeledTextV)
    ensures
        spec_ltxt_subs_concat(ls.push(l)) == spec_ltxt_subs_concat(ls) + spec_ltxt_sub_chunk(l),
    decreases ls.len(),
{
    if ls.len() == 0 {
        assert(ls.push(l)[0] == l);
        assert(ls.push(l).skip(1) =~= ls);
        assert(spec_ltxt_subs_concat(ls.push(l)) =~= spec_ltxt_subs_concat(ls)
            + spec_ltxt_sub_chunk(l));
    } else {
        assert(ls.push(l)[0] == ls[0]);
        assert(ls.push(l).skip(1) =~= ls.skip(1).push(l));
        lemma_ltxt_subs_concat_push(ls.skip(1), l);
        assert(spec_ltxt_subs_concat(ls.push(l)) =~= spec_ltxt_subs_concat(ls)
            + spec_ltxt_sub_chunk(l));
    }
}

/// The concatenated sub-chunks split at any index into the sub-chunks of
/// the records before it and those from it on.
pub proof fn lemma_ltxt_subs_split(ls: Seq<LabeledTextV>, i: int)
    requires
        0 <= i <= ls.len(),
    ensures
        spec_ltxt_subs_concat(ls) == spec_ltxt_subs_concat(ls.take(i)) + spec_ltxt_subs_concat(
            ls.skip(i),
        ),
    decreases i,
{
    if i == 0 {
        assert(ls.take(0) =~= Seq::<LabeledTextV>::empty());
        assert(ls.skip(0) =~= ls);
        assert(spec_ltxt_subs_concat(ls) =~= spec_ltxt_subs_concat(ls.take(0))
            + spec_ltxt_subs_concat(ls.skip(0)));
    } else {
        assert(ls.take(i)[0] == ls[0]);
        assert(ls.take(i).skip(1) =~= ls.skip(1).take(i - 1));
        assert(ls.skip(i) =~= ls.skip(1).skip(i - 1));
        lemma_ltxt_subs_split(ls.skip(1), i - 1);
        assert(spec_ltxt_subs_concat(ls) =~= spec_ltxt_subs_concat(ls.take(i))
            + spec_ltxt_subs_concat(ls.skip(i)));
    }
}

/// Concatenated sub-chunks have even length: each sub-chunk is padded to an
/// even length of its own.
pub proof fn lemma_ltxt_subs_concat_even(ls: Seq<LabeledTextV>)
    requires
        forall|i: int| 0 <= i < ls.len() ==> (#[trigger] ls[i]).wf(),
    ensures
        spec_ltxt_subs_concat(ls).len() % 2 == 0,
    decreases ls.len(),
{
    if ls.len() == 0 {
    } else {
        vstd::bytes::lemma_auto_spec_u32_to_from_le_bytes();
        lemma_ltxt_round_trip(ls[0]);
        assert(spec_ltxt_sub_chunk(ls[0]).len() % 2 == 0);
        lemma_ltxt_subs_concat_even(ls.skip(1));
    }
}

/// A labeled-text annotation tied to a cue point, carried in an `ltxt`
/// sub-chunk: fixed identification and locale fields and free text.
#[derive(Debug, Clone)]
pub struct LabeledText {
    pub cue_id: u32,
    pub sample_length: u32,
    pub purpose_id: [u8; 4],
    pub country: [u8; 2],
    pub language: [u8; 2],
    pub dialect: [u8; 2],
    pub code_page: u16,
    pub text: String,
}

impl View for LabeledText {
    type V = LabeledTextV;

    open spec fn view(&self) -> LabeledTextV {
        LabeledTextV {
            cue_id: self.cue_id,
            sample_length: self.sample_length,
            purpose_id: self.purpose_id@,
            country: self.country@,
            language: self.language@,
            dialect: self.dialect@,
            code_page: self.code_page,
            text: self.text@,
        }
    }
}

impl DeepView for LabeledText {
    type V = LabeledTextV;

    open spec fn deep_view(&self) -> LabeledTextV {
        self@
    }
}

impl PartialEq for LabeledText {
    fn eq(&self, other: &LabeledText) -> (r: bool) {
        let purpose = tags_equal(&self.purpose_id, &other.purpose_id);
        let locales = pairs_equal(&self.country, &other.country) && pairs_equal(
            &self.language,
            &other.language,
        ) && pairs_equal(&self.dialect, &other.dialect);
        purpose && locales && self.cue_id == other.cue_id && self.sample_length
            == other.sample_length && self.code_page == other.code_page && self.text == other.text
    }
}

impl vstd::std_specs::cmp::PartialEqSpecImpl for LabeledText {
    open spec fn obeys_eq_spec() -> bool {
        true
    }

    open spec fn eq_spec(&self, other: &LabeledText) -> bool {
        self@ == other@
    }
}

/// Whether two 2-byte fields hold the same bytes.
fn pairs_equal(a: &[u8; 2], b: &[u8; 2]) -> (r: bool)
    ensures
        r == (a@ == b@),
{
    let r = a[0] == b[0] && a[1] == b[1];
    proof {
        if r {
            assert(a@ =~= b@);
        }
    }
    r
}

impl LabeledText {
    /// Decodes one record from at least 20 bytes: the fixed fields, then all
    /// remaining bytes as text, with invalid UTF-8 replaced — malformed text
    /// never fails.
    pub fn parse(bytes: &[u8]) -> (r: LabeledText)
        requires
            bytes@.len() >= crate::LABELED_TEXT_MIN_SZ,
        ensures
            r@ == spec_ltxt_of_bytes(bytes@),
    {
        let cue_id = u32_from_le_bytes(slice_subrange(bytes, 0, 4));
        let sample_length = u32_from_le_bytes(slice_subrange(bytes, 4, 8));
        let purpose_id: [u8; 4] = [bytes[8], bytes[9], bytes[10], bytes[11]];
        let country: [u8; 2] = [bytes[12], bytes[13]];
        let language: [u8; 2] = [bytes[14], bytes[15]];
        let dialect: [u8; 2] = [bytes[16], bytes[17]];
        let code_page = u16_from_le_bytes(slice_subrange(bytes, 18, 20));
        let text = bytes_to_string_lossy(slice_subrange(bytes, 20, bytes.len()));
        proof {
            assert(purpose_id@ =~= bytes@.subrange(8, 12));
            assert(country@ =~= bytes@.subrange(12, 14));
            assert(language@ =~= bytes@.subrange(14, 16));
            assert(dialect@ =~= bytes@.subrange(16, 18));
            assert(bytes@.subrange(20, bytes@.len() as int) =~= bytes@.skip(20));
        }
        LabeledText { cue_id, sample_length, purpose_id, country, language, dialect, code_page, text }
    }

    /// The bytes that encode this record: the 20 fixed bytes, then the text,
    /// with no terminator and no padding.
    pub fn as_bytes(&self) -> (b: Vec<u8>)
        ensures
            b@ == spec_ltxt_bytes(self@),
            b@.len() == spec_ltxt_size(self@),
    {
        let mut b: Vec<u8> = Vec::new();
        b.extend_from_slice(u32_to_le_bytes(self.cue_id).as_slice());
        b.extend_from_slice(u32_to_le_bytes(self.sample_length).as_slice());
        b.extend_from_slice(self.purpose_id.as_slice());
        b.extend_from_slice(self.country.as_slice());
        b.extend_from_slice(self.language.as_slice());
        b.extend_from_slice(self.dialect.as_slice());
        b.extend_from_slice(u16_to_le_bytes(self.code_page).as_slice());
        b.extend_from_slice(self.text.as_str().as_bytes());
        proof {
            assert(b@ =~= spec_ltxt_bytes(self@));
        }
        b
    }

    /// A minimal record for the given cue: purpose `mark`, blank locale
    /// fields, code page zero and empty text.
    pub fn from_cue_length(cue_id: u32, sample_length: u32) -> (r: LabeledText)
        ensures
            r@ == (LabeledTextV {
                cue_id,
                sample_length,
                purpose_id: spec_mark_tag(),
                country: spec_blank2(),
                language: spec_blank2(),
                dialect: spec_blank2(),
                code_page: 0,
                text: Seq::<char>::empty(),
            }),
    {
        let r = LabeledText {
            cue_id,
            sample_length,
            purpose_id: crate::tags::mark_tag(),
            country: crate::tags::blank2(),
            language: crate::tags::blank2(),
            dialect: crate::tags::blank2(),
            code_page: 0,
            text: String::new(),
        };
        proof {
            assert(r@.text =~= Seq::<char>::empty());
        }
        r
    }
}

/// Extracts every well-formed `ltxt` record from a `LIST` chunk body: skips
/// the 4-byte list type, then repeatedly reads an embedded head; keeps a
/// sub-chunk exactly when its tag is `ltxt`, its size is at least 20 and its
/// body fits in what remains, and discards any other silently; advances past
/// each body and past one pad byte after an odd declared size.
pub fn extract_labeled_text_from_list(bytes: &[u8]) -> (r: Vec<LabeledText>)
    ensures
        r.deep_view() == spec_extract_labeled_text(bytes@),
{
    let mut out: Vec<LabeledText> = Vec::new();
    if bytes.len() < 4 {
        return out;
    }
    let mut off: usize = 4;
    while bytes.len() - off >= 8
        invariant
            4 <= off <= bytes@.len(),
            spec_ltxt_list(bytes@.skip(4)) == out.deep_view() + spec_ltxt_list(
                bytes@.skip(off as int),
            ),
        decreases bytes@.len() - off,
    {
        let ghost s = bytes@.skip(off as int);
        let sub_tag: [u8; 4] = [bytes[off], bytes[off + 1], bytes[off + 2], bytes[off + 3]];
        let size32 = u32_from_le_bytes(slice_subrange(bytes, off + 4, off + 8));
        let size = size32 as usize;
        let hit_tag = tags_equal(&sub_tag, &crate::tags::ltxt_tag());
        proof {
            assert(sub_tag@ =~= s.subrange(0, 4));
            assert(bytes@.subrange(off + 4, off + 8) =~= s.subrange(4, 8));
        }
        let ghost rest = s.skip(8);
        off = off + 8;
        proof {
            assert(rest =~= bytes@.skip(off as int));
        }
        let remaining = bytes.len() - off;
        if hit_tag && size >= crate::LABELED_TEXT_MIN_SZ && size <= remaining {
            let record = LabeledText::parse(slice_subrange(bytes, off, off + size));
            proof {
                assert(bytes@.subrange(off as int, off + size) =~= rest.subrange(0, size as int));
            }
            let ghost before = out.deep_view();
            out.push(record);
            proof {
                assert(out.deep_view() =~= before + seq![record@]);
            }
        }
        let consumed = if size <= remaining {
            size
        } else {
            remaining
        };
        proof {
            assert(rest.skip(consumed as int) =~= bytes@.skip(off + consumed));
        }
        off = off + consumed;
        if size % 2 == 1 && off < bytes.len() {
            proof {
                assert(bytes@.skip(off as int).skip(1) =~= bytes@.skip(off + 1));
            }
            off = off + 1;
        }
    }
    proof {
        assert(out.deep_view() =~= spec_extract_labeled_text(bytes@));
    }
    out
}

} // verus!
