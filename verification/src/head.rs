//! The chunk head codec: a fixed 8-byte header of a 4-byte tag followed by a
//! 32-bit little-endian payload size. The size excludes the 8-byte header
//! itself and excludes the pad byte that follows an odd-sized payload.
use crate::stream::ByteSource;
use crate::Error;
use vstd::bytes::{spec_u32_from_le_bytes, spec_u32_to_le_bytes, u32_from_le_bytes, u32_to_le_bytes};
use vstd::prelude::*;
use vstd::slice::slice_subrange;

verus! {

/// The mathematical model of a chunk head: the tag bytes and the declared
/// payload size.
pub ghost struct ChunkHeadV {
    pub tag: Seq<u8>,
    pub size: u32,
}

impl ChunkHeadV {
    /// A well-formed model has a 4-byte tag; the model of every executable
    /// `ChunkHead` is well-formed.
    pub open spec fn wf(self) -> bool {
        self.tag.len() == 4
    }
}

/// The 8 bytes that encode `h`.
pub open spec fn spec_head_bytes(h: ChunkHeadV) -> Seq<u8>
    recommends
        h.wf(),
{
    h.tag + spec_u32_to_le_bytes(h.size)
}

/// The chunk head encoded in the 8 bytes `b`.
pub open spec fn spec_head_of_bytes(b: Seq<u8>) -> ChunkHeadV
    recommends
        b.len() == 8,
{
    ChunkHeadV { tag: b.subrange(0, 4), size: spec_u32_from_le_bytes(b.subrange(4, 8)) }
}

/// Decoding inverts encoding on every well-formed chunk head.
pub proof fn lemma_head_round_trip(h: ChunkHeadV)
    requires
        h.wf(),
    ensures
        spec_head_of_bytes(spec_head_bytes(h)) == h,
{
    vstd::bytes::lemma_auto_spec_u32_to_from_le_bytes();
    let b = spec_head_bytes(h);
    assert(b.subrange(0, 4) =~= h.tag);
    assert(b.subrange(4, 8) =~= spec_u32_to_le_bytes(h.size));
}

/// A top-level or nested chunk header: a 4-byte tag and the declared size of
/// the payload that follows.
#[derive(Debug, Clone, Copy)]
pub struct ChunkHead {
    pub tag: [u8; 4],
    pub size: u32,
}

impl View for ChunkHead {
    type V = ChunkHeadV;

    open spec fn view(&self) -> ChunkHeadV {
        ChunkHeadV { tag: self.tag@, size: self.size }
    }
}

impl PartialEq for ChunkHead {
    fn eq(&self, other: &ChunkHead) -> (r: bool) {
        let tags = crate::tags::tags_equal(&self.tag, &other.tag);
        tags && self.size == other.size
    }
}

impl vstd::std_specs::cmp::PartialEqSpecImpl for ChunkHead {
    open spec fn obeys_eq_spec() -> bool {
        true
    }

    open spec fn eq_spec(&self, other: &ChunkHead) -> bool {
        self@ == other@
    }
}

impl ChunkHead {
    /// Reads a chunk head from the stream: 4 raw tag bytes, then a 32-bit
    /// little-endian size. Fails, without a position change, exactly when the
    /// stream cannot supply 8 bytes.
    pub fn parse<S: ByteSource>(cursor: &mut S) -> (r: Result<ChunkHead, Error>)
        requires
            old(cursor).spos() >= 0,
        ensures
            final(cursor).contents() == old(cursor).contents(),
            forall|end: int| #[trigger]
                final(cursor).read_past_end_is_io(end) == old(cursor).read_past_end_is_io(end),
            match r {
                Ok(h) => {
                    &&& old(cursor).spos() + 8 <= old(cursor).contents().len()
                    &&& h@ == spec_head_of_bytes(
                        old(cursor).contents().subrange(
                            old(cursor).spos(),
                            old(cursor).spos() + 8,
                        ),
                    )
                    &&& final(cursor).spos() == old(cursor).spos() + 8
                },
                Err(e) => {
                    &&& old(cursor).spos() + 8 > old(cursor).contents().len()
                    &&& final(cursor).spos() == old(cursor).spos()
                    &&& (e is Io <==> old(cursor).read_past_end_is_io(old(cursor).spos() + 8))
                    &&& (e is Io || e is Wave)
                },
            },
    {
        let bytes = match cursor.read_exact(8) {
            Ok(v) => v,
            Err(e) => {
                return Err(e);
            },
        };
        let tag: [u8; 4] = [bytes[0], bytes[1], bytes[2], bytes[3]];
        let size = u32_from_le_bytes(slice_subrange(bytes.as_slice(), 4, 8));
        proof {
            assert(tag@ =~= bytes@.subrange(0, 4));
        }
        Ok(ChunkHead { tag, size })
    }

    /// The 4-byte tag.
    pub fn tag(&self) -> (t: [u8; 4])
        ensures
            t@ == self@.tag,
    {
        self.tag
    }

    /// The declared payload size.
    pub fn size(&self) -> (s: u32)
        ensures
            s == self@.size,
    {
        self.size
    }

    /// The 8 bytes that encode this head.
    pub fn as_bytes(&self) -> (b: [u8; crate::CHUNK_HEAD_SZ])
        ensures
            b@ == spec_head_bytes(self@),
    {
        let s = u32_to_le_bytes(self.size);
        let b: [u8; 8] = [
            self.tag[0],
            self.tag[1],
            self.tag[2],
            self.tag[3],
            s[0],
            s[1],
            s[2],
            s[3],
        ];
        proof {
            assert(b@ =~= spec_head_bytes(self@));
        }
        b
    }
}

} // verus!
