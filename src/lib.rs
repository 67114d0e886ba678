//! Decoder for compiled proof-assistant library files (`.vo`): a verified reader of
//! the marshal format that rebuilds each segment's object graph in memory, checks
//! every segment and the file's checksum, and projects the summary segment into
//! typed values that share what the stream shares.

pub mod text;
pub mod error;
pub mod reader;
pub mod repr;
pub mod memory;
pub mod fill;
pub mod types;
pub mod typed;
pub mod schema;
pub mod segment;
pub mod driver;
pub mod laws;
pub mod deserialize;

pub use crate::deserialize::VoDeserializer;
pub use crate::driver::{check_checksum, file, summary_segment};
pub use crate::error::{ErrorKind, SemanticError, E};
pub use crate::memory::{Cell, Data, Memory};
pub use crate::repr::{parse_object, Repr};
pub use crate::schema::{
    block1, block2, block3, nullable, string_with, tuple2, vec_of, wrapped, FromCell,
};
pub use crate::segment::{header, segment, Segment, SegmentHeader, VO_MAGIC};
pub use crate::typed::{
    as_string, block_children, int63_at, int_at, record_children, seq_children, str_bytes, unshare, Cache,
    Projector,
};
pub use crate::types::{Dependency, DigestBytes, DirPath, SummaryDisk};
