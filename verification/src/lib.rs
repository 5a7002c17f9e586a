//! Reading and writing Unreal Engine IoStore `.uasset` packages.

pub mod le_bytes;
pub mod text_codec;
pub mod chars;
pub mod numtext;
pub mod b64;
pub mod names;
pub mod types;
pub mod format;
pub mod reader;
pub mod writer;
pub mod write_check;
pub mod laws;
pub mod text_format;
pub mod text_writer;
pub mod text_parse;
pub mod text_reader;
pub mod text_facts;
pub mod text_lines;
pub mod text_roundtrip;
pub mod text_readback;
pub mod text_table;

pub use format::UassetError;
pub use text_format::TextPiece;
pub use text_parse::TextError;
pub use text_reader::float_candidates;
pub use types::{
    IoUObject, StringType, UObjectProperty, UObjectPropertyData, UObjectPropertyHeader,
    UObjectPropertyMetadata, UObjectSummary, UObjectSummaryHeader,
};
