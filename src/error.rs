//! The error kinds of the store.

use vstd::prelude::*;

use crate::entry::LogEntry;

verus! {

#[verifier::external_type_specification]
#[verifier::external_body]
pub struct ExIoError(std::io::Error);

#[verifier::external_type_specification]
#[verifier::external_body]
pub struct ExWalkDirError(walkdir::Error);

#[verifier::external_type_specification]
#[verifier::external_body]
pub struct ExBsonDeError(bson::de::Error);

#[verifier::external_type_specification]
#[verifier::external_body]
pub struct ExBsonSerError(bson::ser::Error);

/// Everything that can go wrong in the store, its server and its client.
#[derive(Debug)]
pub enum KvError {
    /// A file name in the data directory is not a log file name.
    ParseFileId { path: String },
    /// Walking the data directory failed.
    Dir { path: String, source: walkdir::Error },
    /// An underlying read, write, open or delete failed.
    Io(std::io::Error),
    /// The payload of the frame at `pos` is not a log entry.
    DeserializeEntry { pos: u32, source: bson::de::Error },
    /// A log entry could not be encoded.
    SerializeEntry { entry: LogEntry, source: bson::ser::Error },
    /// A removed key was not in the store.
    KeyNotFound,
    /// The alternate engine failed on the given key.
    SledAccess { key: String, msg: String },
    /// The alternate engine failed.
    Sled { msg: String },
    /// A stored value is not valid UTF-8.
    Ut8Conversion { key: String },
    /// A protocol message could not be encoded.
    BsonSerialize(bson::ser::Error),
    /// A protocol message could not be decoded.
    BsonDeserialize(bson::de::Error),
    /// The server answered with an error.
    Server { msg: String },
    /// The server answered with a value where none was expected.
    UnexpectedResult { val: String },
    /// A thread pool could not be built.
    PoolBuild { msg: String },
}

} // verus!

verus! {

/// Relies on `std::io::Error::from` with `ErrorKind::UnexpectedEof`: the
/// error that a read ending before a whole frame gives.
#[verifier::external_body]
pub(crate) fn unexpected_eof() -> std::io::Error {
    std::io::Error::from(std::io::ErrorKind::UnexpectedEof)
}

/// Relies on `std::io::Error::new` with `ErrorKind::InvalidData`.
#[verifier::external_body]
pub(crate) fn invalid_data(msg: &str) -> std::io::Error {
    std::io::Error::new(std::io::ErrorKind::InvalidData, msg)
}

} // verus!
