//! Reading Whisper time-series database files: the on-disk value types, a
//! big-endian parser and encoder for them, and the fetch engine that picks
//! the archive able to answer a time window and filters its points.

pub mod bytes;
pub mod codes;
pub mod encoder;
pub mod errors;
pub mod io;
pub mod laws;
pub mod parser;
pub mod read;
pub mod types;

pub use codes::MementoErrorCode;
pub use io::{SeekRead, SliceReader, SliceReaderDirect, SliceReaderMapped};
pub use read::{DateRangeSearch, FetchRequest, FetchResponse, MementoParser};
