//! A verified reader for jitdump files.
//!
//! The reader does no input or output of its own. Open it with the first bytes of a file, and
//! call `next_record`. Where it answers with `NeedBytes`, read from the file, hand what was read
//! to `supply`, or report with `end_of_input` that there is nothing to read, and call again.

pub mod buffered_reader;
pub mod bytes;
pub mod error;
pub mod file_laws;
pub mod header;
pub mod jitdump_reader;
pub mod laws;
pub mod model;
pub mod reading_laws;
pub mod record;
pub mod stored;

pub use bytes::Endianness;
pub use error::{JitDumpError, RecordSizeTooSmall, UnexpectedEof};
pub use header::JitDumpHeader;
pub use jitdump_reader::{is_known_record_header, seek_target, JitDumpReader};
pub use model::{Progress, SkipProgress};
pub use record::{
    JitDumpCodeLoadRecord, JitDumpRawRecord, JitDumpRecord, JitDumpRecordHeader, JitDumpRecordType,
};
