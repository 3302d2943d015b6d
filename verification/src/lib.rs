//! Reading and writing of metadata chunks embedded in RIFF/WAVE containers:
//! cue points (named sample-offset markers), labeled-text annotations, generic
//! chunk traversal, in-place appending of new chunks, and carving a WAVE
//! region out of a larger byte stream.
//!
//! All I/O is expressed over an in-memory seekable byte stream, `ByteCursor`,
//! so that every byte of the wire format handled here is verified.
use vstd::prelude::*;

pub mod bounded;
pub mod cue;
pub mod head;
pub mod ltxt;
pub mod reader;
pub mod split;
pub mod stream;
pub mod tags;
pub mod writer;

pub use bounded::BoundedCursor;
pub use cue::{parse_cue_points, CuePoint};
pub use head::ChunkHead;
pub use ltxt::{extract_labeled_text_from_list, LabeledText};
pub use reader::WaveCursor;
pub use split::ContainerSplit;
pub use stream::{ByteCursor, ByteSource};
pub use writer::{append_cue_chunk, append_label_chunk, pad_size_16, ChunkWriter, CHUNK_TOO_BIG};

verus! {

/// A chunk as the reader hands it out: the 4-byte tag and the payload bytes.
pub type ChunkDefinition = ([u8; 4], Vec<u8>);

/// Size in bytes of an encoded chunk head: a 4-byte tag and a 32-bit size.
pub const CHUNK_HEAD_SZ: usize = 8;

/// Size in bytes of one encoded cue-point record.
pub const CUE_SZ: usize = 24;

/// Minimum size in bytes of an encoded labeled-text record (its fixed fields).
pub const LABELED_TEXT_MIN_SZ: usize = 20;

/// The two failure kinds: an underlying stream could not supply or accept
/// bytes (`Io`), or the bytes are malformed or out of range (`Wave`).
/// "Chunk not found" is never an error; it is a normal empty result.
#[derive(Debug)]
pub enum Error {
    /// Malformed or out-of-range data, with a human-readable message.
    Wave(String),
    /// The underlying stream failed to read, write or seek.
    Io(String),
}

impl Error {
    /// A format/domain failure carrying the given message.
    pub fn wave(msg: &str) -> (e: Error)
        ensures
            e matches Error::Wave(m) && m@ == msg@,
    {
        Error::Wave(msg.to_owned())
    }

    /// A stream failure carrying the given message.
    pub fn io(msg: &str) -> (e: Error)
        ensures
            e matches Error::Io(m) && m@ == msg@,
    {
        Error::Io(msg.to_owned())
    }

    /// The failure's human-readable message: the carried variant field.
    pub fn message(&self) -> (r: String)
        ensures
            r@ == (match self {
                Error::Wave(s) => s@,
                Error::Io(s) => s@,
            }),
    {
        match self {
            Error::Wave(s) => s.clone(),
            Error::Io(s) => s.clone(),
        }
    }
}

} // verus!
