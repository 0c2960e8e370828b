//! A Bitcask-style log-structured key-value store: file naming, directory
//! classification, record framing and encoding, the engine's index with
//! replay and compaction, and the messages of its network protocol.

pub mod document;
pub mod engine;
pub mod entry;
pub mod error;
pub mod extract;
pub mod file_id;
pub mod frame;
pub mod log_io;
pub mod protocol;
pub mod table;

pub use engine::{
    entry_value, live_values, read_value, write_compact_file, KvIndex, DUPLICATE_THRESHOLD,
};
pub use entry::LogEntry;
pub use error::KvError;
pub use extract::{extract_files, FileExtract};
pub use file_id::FileId;
pub use frame::{encode_frame, header_bytes, header_value, FRAME_HEADER_SIZE};
pub use log_io::{frame_size, parse_frame, LogFrame, LogReader, LogSink, LogSource, LogWriter, MemLog};
pub use protocol::{
    get_response, parse_get_response, parse_void_response, void_response, Command, CommandResult,
};
pub use table::TableEntry;
