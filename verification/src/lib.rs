//! Decoder for length-framed binary waveform files.
//!
//! A file is decoded either whole, into one table per sweep point, or as a
//! stream of chunks of rows that never holds more than the rows of the blocks
//! read for one chunk. Both ways parse the same header and read the same
//! blocks. Values are carried as IEEE 754 bit patterns.

pub mod api;
pub mod block_reader;
pub mod header;
pub mod ieee;
pub mod layout;
pub mod parser;
pub mod raw_parser;
pub mod reader;
pub mod stream;
pub mod text;
pub mod theorems;
pub mod types;
pub mod writer;

pub use api::{read, read_and_convert, read_and_convert_debug, read_debug};
pub use parser::{hspice_read_impl, parse_header_only, HeaderMetadata};
pub use stream::{
    read_stream, read_stream_chunked, read_stream_signals, DataChunk, HspiceStreamReader,
    StreamMetadata, StreamState, DEFAULT_CHUNK_SIZE,
};
pub use writer::write_spice3_raw;
pub use types::{
    AnalysisType, ComplexBits, DataTable, Endian, HspiceError, HspiceResult, PostVersion, VarType,
    Variable, VectorData, WaveformError, WaveformResult, COMPLEX_VAR, END_MARKER_2001,
    END_MARKER_9601, FREQUENCY_TYPE, REAL_VAR,
};
