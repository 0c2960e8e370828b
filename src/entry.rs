//! Log entries and their encoding as documents with a `cmd` tag.

use vstd::prelude::*;
use vstd::string::*;

use crate::document::{
    bson_document_bytes, bson_document_fields, decode_document, decode_error, encode_document,
    field_value, fields_view, find_field, text,
};
use crate::error::KvError;

verus! {

/// One record of the log: a write of a value, or the removal of a key.
#[derive(Debug, Clone)]
pub enum LogEntry {
    Put { key: String, val: String },
    Remove { key: String },
}

/// What a log entry says, over plain character sequences.
pub enum EntryModel {
    Put { key: Seq<char>, val: Seq<char> },
    Remove { key: Seq<char> },
}

impl View for LogEntry {
    type V = EntryModel;

    open spec fn view(&self) -> EntryModel {
        match self {
            LogEntry::Put { key, val } => EntryModel::Put { key: key@, val: val@ },
            LogEntry::Remove { key } => EntryModel::Remove { key: key@ },
        }
    }
}

/// The fields of the document that records an entry: the tag `cmd` (`Set`
/// or `Remove`), then `key`, then `val` for a write.
pub open spec fn entry_fields(e: EntryModel) -> Seq<(Seq<char>, Seq<char>)> {
    match e {
        EntryModel::Put { key, val } => seq![("cmd"@, "Set"@), ("key"@, key), ("val"@, val)],
        EntryModel::Remove { key } => seq![("cmd"@, "Remove"@), ("key"@, key)],
    }
}

/// The entry that a document's fields record, if any.
pub open spec fn entry_of_fields(fs: Seq<(Seq<char>, Seq<char>)>) -> Option<EntryModel> {
    match (field_value(fs, "cmd"@), field_value(fs, "key"@)) {
        (Some(cmd), Some(key)) => if cmd == "Set"@ {
            match field_value(fs, "val"@) {
                Some(val) => Some(EntryModel::Put { key, val }),
                None => None,
            }
        } else if cmd == "Remove"@ {
            Some(EntryModel::Remove { key })
        } else {
            None
        },
        _ => None,
    }
}

/// The bytes that encode an entry, where BSON can hold it.
pub open spec fn entry_bytes(e: EntryModel) -> Option<Seq<u8>> {
    bson_document_bytes(entry_fields(e))
}

/// The entry that `bytes` decode to, if any.
pub open spec fn entry_of_bytes(bytes: Seq<u8>) -> Option<EntryModel> {
    match bson_document_fields(bytes) {
        Some(fs) => entry_of_fields(fs),
        None => None,
    }
}

/// Reading back the fields that record an entry gives the same entry.
pub proof fn lemma_entry_fields_round_trip(e: EntryModel)
    ensures
        entry_of_fields(entry_fields(e)) == Some(e),
{
    reveal_strlit("cmd");
    reveal_strlit("key");
    reveal_strlit("val");
    reveal_strlit("Set");
    reveal_strlit("Remove");
    let fs = entry_fields(e);
    reveal_with_fuel(field_value, 4);
    assert("cmd"@ != "key"@) by {
        assert("cmd"@[0] != "key"@[0]);
    }
    assert("cmd"@ != "val"@) by {
        assert("cmd"@[0] != "val"@[0]);
    }
    assert("key"@ != "val"@) by {
        assert("key"@[0] != "val"@[0]);
    }
    assert("Set"@ != "Remove"@) by {
        assert("Set"@.len() != "Remove"@.len());
    }
    assert(fs.drop_first()[0] == fs[1]);
    match e {
        EntryModel::Put { key, val } => {
            assert(fs.drop_first().drop_first()[0] == fs[2]);
            assert(field_value(fs, "cmd"@) == Some("Set"@));
            assert(field_value(fs, "key"@) == Some(key));
            assert(field_value(fs, "val"@) == Some(val));
        },
        EntryModel::Remove { key } => {
            assert(field_value(fs, "cmd"@) == Some("Remove"@));
            assert(field_value(fs, "key"@) == Some(key));
        },
    }
}

impl LogEntry {
    /// The fields of the document that records this entry.
    pub fn fields(&self) -> (r: Vec<(String, String)>)
        ensures
            fields_view(r@) == entry_fields(self@),
    {
        let mut r: Vec<(String, String)> = Vec::new();
        match self {
            LogEntry::Put { key, val } => {
                r.push((text("cmd"), text("Set")));
                r.push((text("key"), key.clone()));
                r.push((text("val"), val.clone()));
            },
            LogEntry::Remove { key } => {
                r.push((text("cmd"), text("Remove")));
                r.push((text("key"), key.clone()));
            },
        }
        assert(fields_view(r@) =~= entry_fields(self@));
        r
    }

    /// The entry that a document's fields record, if any.
    pub fn from_fields(fields: &Vec<(String, String)>) -> (r: Option<LogEntry>)
        ensures
            match entry_of_fields(fields_view(fields@)) {
                Some(e) => r matches Some(x) && x@ == e,
                None => r is None,
            },
    {
        let cmd = match find_field(fields, "cmd") {
            Some(c) => c,
            None => return None,
        };
        let key = match find_field(fields, "key") {
            Some(k) => k,
            None => return None,
        };
        if cmd == text("Set") {
            match find_field(fields, "val") {
                Some(val) => Some(LogEntry::Put { key, val }),
                None => None,
            }
        } else if cmd == text("Remove") {
            Some(LogEntry::Remove { key })
        } else {
            None
        }
    }

    /// Encodes this entry as the payload of a log frame.
    pub fn encode(&self) -> (r: Result<Vec<u8>, KvError>)
        ensures
            match entry_bytes(self@) {
                Some(b) => r matches Ok(v) && v@ == b,
                None => r matches Err(KvError::SerializeEntry { entry, .. }) && entry@ == self@,
            },
    {
        let fields = self.fields();
        match encode_document(&fields) {
            Ok(v) => Ok(v),
            Err(source) => {
                let entry = self.clone_entry();
                Err(KvError::SerializeEntry { entry, source })
            },
        }
    }

    /// Decodes the payload of the log frame at `pos`.
    pub fn decode(bytes: &[u8], pos: u32) -> (r: Result<LogEntry, KvError>)
        ensures
            match entry_of_bytes(bytes@) {
                Some(e) => r matches Ok(x) && x@ == e,
                None => r matches Err(KvError::DeserializeEntry { pos: p, .. }) && p == pos,
            },
    {
        match decode_document(bytes) {
            Ok(fields) => match LogEntry::from_fields(&fields) {
                Some(e) => Ok(e),
                None => Err(KvError::DeserializeEntry { pos, source: decode_error("not a log entry") }),
            },
            Err(source) => Err(KvError::DeserializeEntry { pos, source }),
        }
    }

    /// A copy of this entry.
    pub fn clone_entry(&self) -> (r: LogEntry)
        ensures
            r@ == self@,
    {
        match self {
            LogEntry::Put { key, val } => LogEntry::Put { key: key.clone(), val: val.clone() },
            LogEntry::Remove { key } => LogEntry::Remove { key: key.clone() },
        }
    }
}

} // verus!
