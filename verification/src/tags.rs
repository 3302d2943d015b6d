//! The 4-byte chunk tags and 2-byte locale fields of the wire format, as both
//! spec-level byte sequences and executable arrays.
use vstd::prelude::*;

verus! {

/// The bytes of the ASCII tag `RIFF`, which opens every container.
pub open spec fn spec_riff_tag() -> Seq<u8> {
    seq![0x52u8, 0x49u8, 0x46u8, 0x46u8]
}

/// The bytes of the ASCII form tag `WAVE`.
pub open spec fn spec_wave_tag() -> Seq<u8> {
    seq![0x57u8, 0x41u8, 0x56u8, 0x45u8]
}

/// The ASCII tag `RIFF`.
pub fn riff_tag() -> (t: [u8; 4])
    ensures
        t@ == spec_riff_tag(),
{
    let t: [u8; 4] = [0x52u8, 0x49u8, 0x46u8, 0x46u8];
    proof {
        assert(t@ =~= spec_riff_tag());
    }
    t
}

/// The ASCII tag `WAVE`.
pub fn wave_tag() -> (t: [u8; 4])
    ensures
        t@ == spec_wave_tag(),
{
    let t: [u8; 4] = [0x57u8, 0x41u8, 0x56u8, 0x45u8];
    proof {
        assert(t@ =~= spec_wave_tag());
    }
    t
}

/// The bytes of the ASCII tag `data`, which marks the audio data chunk.
pub open spec fn spec_data_tag() -> Seq<u8> {
    seq![0x64u8, 0x61u8, 0x74u8, 0x61u8]
}

/// The ASCII tag `data`.
pub fn data_tag() -> (t: [u8; 4])
    ensures
        t@ == spec_data_tag(),
{
    let t: [u8; 4] = [0x64u8, 0x61u8, 0x74u8, 0x61u8];
    proof {
        assert(t@ =~= spec_data_tag());
    }
    t
}

/// The bytes of the ASCII tag `fmt `, which marks the format chunk.
pub open spec fn spec_fmt_tag() -> Seq<u8> {
    seq![0x66u8, 0x6du8, 0x74u8, 0x20u8]
}

/// The ASCII tag `fmt `.
pub fn fmt_tag() -> (t: [u8; 4])
    ensures
        t@ == spec_fmt_tag(),
{
    let t: [u8; 4] = [0x66u8, 0x6du8, 0x74u8, 0x20u8];
    proof {
        assert(t@ =~= spec_fmt_tag());
    }
    t
}

/// The bytes of the ASCII tag `cue `, which marks the cue point chunk.
pub open spec fn spec_cue_tag() -> Seq<u8> {
    seq![0x63u8, 0x75u8, 0x65u8, 0x20u8]
}

/// The ASCII tag `cue `.
pub fn cue_tag() -> (t: [u8; 4])
    ensures
        t@ == spec_cue_tag(),
{
    let t: [u8; 4] = [0x63u8, 0x75u8, 0x65u8, 0x20u8];
    proof {
        assert(t@ =~= spec_cue_tag());
    }
    t
}

/// The bytes of the ASCII tag `LIST`, which marks a list chunk.
pub open spec fn spec_list_tag() -> Seq<u8> {
    seq![0x4cu8, 0x49u8, 0x53u8, 0x54u8]
}

/// The ASCII tag `LIST`.
pub fn list_tag() -> (t: [u8; 4])
    ensures
        t@ == spec_list_tag(),
{
    let t: [u8; 4] = [0x4cu8, 0x49u8, 0x53u8, 0x54u8];
    proof {
        assert(t@ =~= spec_list_tag());
    }
    t
}

/// The bytes of the ASCII list type `adtl` (associated data list).
pub open spec fn spec_adtl_tag() -> Seq<u8> {
    seq![0x61u8, 0x64u8, 0x74u8, 0x6cu8]
}

/// The ASCII list type `adtl`.
pub fn adtl_tag() -> (t: [u8; 4])
    ensures
        t@ == spec_adtl_tag(),
{
    let t: [u8; 4] = [0x61u8, 0x64u8, 0x74u8, 0x6cu8];
    proof {
        assert(t@ =~= spec_adtl_tag());
    }
    t
}

/// The bytes of the ASCII sub-chunk tag `ltxt` (labeled text).
pub open spec fn spec_ltxt_tag() -> Seq<u8> {
    seq![0x6cu8, 0x74u8, 0x78u8, 0x74u8]
}

/// The ASCII sub-chunk tag `ltxt`.
pub fn ltxt_tag() -> (t: [u8; 4])
    ensures
        t@ == spec_ltxt_tag(),
{
    let t: [u8; 4] = [0x6cu8, 0x74u8, 0x78u8, 0x74u8];
    proof {
        assert(t@ =~= spec_ltxt_tag());
    }
    t
}

/// The bytes of the ASCII purpose tag `mark`, used for synthesized labels.
pub open spec fn spec_mark_tag() -> Seq<u8> {
    seq![0x6du8, 0x61u8, 0x72u8, 0x6bu8]
}

/// The ASCII purpose tag `mark`.
pub fn mark_tag() -> (t: [u8; 4])
    ensures
        t@ == spec_mark_tag(),
{
    let t: [u8; 4] = [0x6du8, 0x61u8, 0x72u8, 0x6bu8];
    proof {
        assert(t@ =~= spec_mark_tag());
    }
    t
}

/// Two ASCII space bytes: the blank value of a 2-byte locale field.
pub open spec fn spec_blank2() -> Seq<u8> {
    seq![0x20u8, 0x20u8]
}

/// A blank 2-byte locale field: two ASCII spaces.
pub fn blank2() -> (t: [u8; 2])
    ensures
        t@ == spec_blank2(),
{
    let t: [u8; 2] = [0x20u8, 0x20u8];
    proof {
        assert(t@ =~= spec_blank2());
    }
    t
}

/// Whether two 4-byte tags hold the same bytes; tags are compared
/// byte-for-byte, with no case folding.
pub fn tags_equal(a: &[u8; 4], b: &[u8; 4]) -> (r: bool)
    ensures
        r == (a@ == b@),
{
    let r = a[0] == b[0] && a[1] == b[1] && a[2] == b[2] && a[3] == b[3];
    proof {
        if r {
            assert(a@ =~= b@);
        }
    }
    r
}

} // verus!
