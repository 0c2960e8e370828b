//! Requests and responses of the network protocol, encoded as documents:
//! a request carries its tag in `cmd`, a response in `t`, with a response's
//! string in `__field0`.

use vstd::prelude::*;
use vstd::string::*;

use crate::document::{
    bson_document_bytes, bson_document_fields, decode_document, encode_document, field_value,
    fields_view, find_field, text,
};
use crate::error::KvError;

verus! {

/// A request to the server.
#[derive(Debug, Clone)]
pub enum Command {
    Get { key: String },
    Put { key: String, val: String },
    Remove { key: String },
}

/// The server's answer to a request.
#[derive(Debug, Clone)]
pub enum CommandResult {
    /// Done, with no value (also a read of an absent key).
    Success,
    /// Done, with the value read.
    Value(String),
    /// Failed, with the error's message.
    Error(String),
}

pub enum CommandModel {
    Get { key: Seq<char> },
    Put { key: Seq<char>, val: Seq<char> },
    Remove { key: Seq<char> },
}

pub enum ResultModel {
    Success,
    Value(Seq<char>),
    Error(Seq<char>),
}

impl View for Command {
    type V = CommandModel;

    open spec fn view(&self) -> CommandModel {
        match self {
            Command::Get { key } => CommandModel::Get { key: key@ },
            Command::Put { key, val } => CommandModel::Put { key: key@, val: val@ },
            Command::Remove { key } => CommandModel::Remove { key: key@ },
        }
    }
}

impl View for CommandResult {
    type V = ResultModel;

    open spec fn view(&self) -> ResultModel {
        match self {
            CommandResult::Success => ResultModel::Success,
            CommandResult::Value(v) => ResultModel::Value(v@),
            CommandResult::Error(m) => ResultModel::Error(m@),
        }
    }
}

pub open spec fn command_fields(c: CommandModel) -> Seq<(Seq<char>, Seq<char>)> {
    match c {
        CommandModel::Get { key } => seq![("cmd"@, "Get"@), ("key"@, key)],
        CommandModel::Put { key, val } => seq![("cmd"@, "Set"@), ("key"@, key), ("val"@, val)],
        CommandModel::Remove { key } => seq![("cmd"@, "Remove"@), ("key"@, key)],
    }
}

pub open spec fn command_of_fields(fs: Seq<(Seq<char>, Seq<char>)>) -> Option<CommandModel> {
    match (field_value(fs, "cmd"@), field_value(fs, "key"@)) {
        (Some(cmd), Some(key)) => if cmd == "Get"@ {
            Some(CommandModel::Get { key })
        } else if cmd == "Set"@ {
            match field_value(fs, "val"@) {
                Some(val) => Some(CommandModel::Put { key, val }),
                None => None,
            }
        } else if cmd == "Remove"@ {
            Some(CommandModel::Remove { key })
        } else {
            None
        },
        _ => None,
    }
}

pub open spec fn result_fields(r: ResultModel) -> Seq<(Seq<char>, Seq<char>)> {
    match r {
        ResultModel::Success => seq![("t"@, "Ok"@)],
        ResultModel::Value(v) => seq![("t"@, "OkVal"@), ("__field0"@, v)],
        ResultModel::Error(m) => seq![("t"@, "Err"@), ("__field0"@, m)],
    }
}

pub open spec fn result_of_fields(fs: Seq<(Seq<char>, Seq<char>)>) -> Option<ResultModel> {
    match field_value(fs, "t"@) {
        Some(t) => if t == "Ok"@ {
            Some(ResultModel::Success)
        } else if t == "OkVal"@ || t == "Err"@ {
            match field_value(fs, "__field0"@) {
                Some(s) => if t == "OkVal"@ {
                    Some(ResultModel::Value(s))
                } else {
                    Some(ResultModel::Error(s))
                },
                None => None,
            }
        } else {
            None
        },
        None => None,
    }
}

/// Reading back the fields of a request gives the same request.
pub proof fn lemma_command_fields_round_trip(c: CommandModel)
    ensures
        command_of_fields(command_fields(c)) == Some(c),
{
    reveal_strlit("cmd");
    reveal_strlit("key");
    reveal_strlit("val");
    reveal_strlit("Get");
    reveal_strlit("Set");
    reveal_strlit("Remove");
    reveal_with_fuel(field_value, 4);
    assert("cmd"@[0] != "key"@[0]);
    assert("cmd"@[0] != "val"@[0]);
    assert("key"@[0] != "val"@[0]);
    assert("Get"@[0] != "Set"@[0]);
    assert("Get"@.len() != "Remove"@.len());
    assert("Set"@.len() != "Remove"@.len());
}

/// Reading back the fields of a response gives the same response.
pub proof fn lemma_result_fields_round_trip(r: ResultModel)
    ensures
        result_of_fields(result_fields(r)) == Some(r),
{
    reveal_strlit("t");
    reveal_strlit("__field0");
    reveal_strlit("Ok");
    reveal_strlit("OkVal");
    reveal_strlit("Err");
    reveal_with_fuel(field_value, 3);
    assert("t"@.len() != "__field0"@.len());
    assert("Ok"@.len() != "OkVal"@.len());
    assert("Ok"@.len() != "Err"@.len() || "Ok"@[0] != "Err"@[0]);
    assert("OkVal"@.len() != "Err"@.len());
}

impl Command {
    pub fn fields(&self) -> (r: Vec<(String, String)>)
        ensures
            fields_view(r@) == command_fields(self@),
    {
        let mut r: Vec<(String, String)> = Vec::new();
        match self {
            Command::Get { key } => {
                r.push((text("cmd"), text("Get")));
                r.push((text("key"), key.clone()));
            },
            Command::Put { key, val } => {
                r.push((text("cmd"), text("Set")));
                r.push((text("key"), key.clone()));
                r.push((text("val"), val.clone()));
            },
            Command::Remove { key } => {
                r.push((text("cmd"), text("Remove")));
                r.push((text("key"), key.clone()));
            },
        }
        assert(fields_view(r@) =~= command_fields(self@));
        r
    }

    pub fn from_fields(fields: &Vec<(String, String)>) -> (r: Option<Command>)
        ensures
            match command_of_fields(fields_view(fields@)) {
                Some(c) => r matches Some(x) && x@ == c,
                None => r is None,
            },
    {
        let cmd = match find_field(fields, "cmd") {
            Some(c) => c,
            None => return None,
        };
        let key = match find_field(fields, "key") {
            Some(k) => k,
            None => return None,
        };
        if cmd == text("Get") {
            Some(Command::Get { key })
        } else if cmd == text("Set") {
            match find_field(fields, "val") {
                Some(val) => Some(Command::Put { key, val }),
                None => None,
            }
        } else if cmd == text("Remove") {
            Some(Command::Remove { key })
        } else {
            None
        }
    }

    /// The payload of a request frame.
    pub fn encode(&self) -> (r: Result<Vec<u8>, KvError>)
        ensures
            match bson_document_bytes(command_fields(self@)) {
                Some(b) => r matches Ok(v) && v@ == b,
                None => r matches Err(KvError::BsonSerialize(_)),
            },
    {
        match encode_document(&self.fields()) {
            Ok(v) => Ok(v),
            Err(e) => Err(KvError::BsonSerialize(e)),
        }
    }

    /// The request in the payload of a request frame, if any.
    pub fn decode(bytes: &[u8]) -> (r: Result<Command, KvError>)
        ensures
            match bson_document_fields(bytes@) {
                Some(fs) => match command_of_fields(fs) {
                    Some(c) => r matches Ok(x) && x@ == c,
                    None => r matches Err(KvError::BsonDeserialize(_)),
                },
                None => r matches Err(KvError::BsonDeserialize(_)),
            },
    {
        match decode_document(bytes) {
            Ok(fields) => match Command::from_fields(&fields) {
                Some(c) => Ok(c),
                None => Err(KvError::BsonDeserialize(crate::document::decode_error("not a request"))),
            },
            Err(e) => Err(KvError::BsonDeserialize(e)),
        }
    }
}

impl CommandResult {
    pub fn fields(&self) -> (r: Vec<(String, String)>)
        ensures
            fields_view(r@) == result_fields(self@),
    {
        let mut r: Vec<(String, String)> = Vec::new();
        match self {
            CommandResult::Success => {
                r.push((text("t"), text("Ok")));
            },
            CommandResult::Value(v) => {
                r.push((text("t"), text("OkVal")));
                r.push((text("__field0"), v.clone()));
            },
            CommandResult::Error(m) => {
                r.push((text("t"), text("Err")));
                r.push((text("__field0"), m.clone()));
            },
        }
        assert(fields_view(r@) =~= result_fields(self@));
        r
    }

    pub fn from_fields(fields: &Vec<(String, String)>) -> (r: Option<CommandResult>)
        ensures
            match result_of_fields(fields_view(fields@)) {
                Some(c) => r matches Some(x) && x@ == c,
                None => r is None,
            },
    {
        let t = match find_field(fields, "t") {
            Some(t) => t,
            None => return None,
        };
        if t == text("Ok") {
            return Some(CommandResult::Success);
        }
        let is_val = t == text("OkVal");
        let is_err = t == text("Err");
        if !is_val && !is_err {
            return None;
        }
        match find_field(fields, "__field0") {
            Some(s) => if is_val {
                Some(CommandResult::Value(s))
            } else {
                Some(CommandResult::Error(s))
            },
            None => None,
        }
    }

    /// The payload of a response frame.
    pub fn encode(&self) -> (r: Result<Vec<u8>, KvError>)
        ensures
            match bson_document_bytes(result_fields(self@)) {
                Some(b) => r matches Ok(v) && v@ == b,
                None => r matches Err(KvError::BsonSerialize(_)),
            },
    {
        match encode_document(&self.fields()) {
            Ok(v) => Ok(v),
            Err(e) => Err(KvError::BsonSerialize(e)),
        }
    }

    /// The response in the payload of a response frame, if any.
    pub fn decode(bytes: &[u8]) -> (r: Result<CommandResult, KvError>)
        ensures
            match bson_document_fields(bytes@) {
                Some(fs) => match result_of_fields(fs) {
                    Some(c) => r matches Ok(x) && x@ == c,
                    None => r matches Err(KvError::BsonDeserialize(_)),
                },
                None => r matches Err(KvError::BsonDeserialize(_)),
            },
    {
        match decode_document(bytes) {
            Ok(fields) => match CommandResult::from_fields(&fields) {
                Some(c) => Ok(c),
                None => Err(KvError::BsonDeserialize(crate::document::decode_error("not a response"))),
            },
            Err(e) => Err(KvError::BsonDeserialize(e)),
        }
    }
}

/// The server's response to a read: the value, success without a value
/// for an absent key, or the error's message.
pub fn get_response(outcome: Result<Option<String>, String>) -> (r: CommandResult)
    ensures
        match outcome {
            Ok(Some(v)) => r@ == ResultModel::Value(v@),
            Ok(None) => r@ == ResultModel::Success,
            Err(m) => r@ == ResultModel::Error(m@),
        },
{
    match outcome {
        Ok(Some(v)) => CommandResult::Value(v),
        Ok(None) => CommandResult::Success,
        Err(m) => CommandResult::Error(m),
    }
}

/// The server's response to a write or a removal: success, or the
/// error's message.
pub fn void_response(outcome: Result<(), String>) -> (r: CommandResult)
    ensures
        match outcome {
            Ok(()) => r@ == ResultModel::Success,
            Err(m) => r@ == ResultModel::Error(m@),
        },
{
    match outcome {
        Ok(()) => CommandResult::Success,
        Err(m) => CommandResult::Error(m),
    }
}

/// The outcome of a write or a removal, from the server's response.
pub fn parse_void_response(result: CommandResult) -> (r: Result<(), KvError>)
    ensures
        match result@ {
            ResultModel::Success => r is Ok,
            ResultModel::Error(m) => r matches Err(KvError::Server { msg }) && msg@ == m,
            ResultModel::Value(v) => r matches Err(KvError::UnexpectedResult { val }) && val@ == v,
        },
{
    match result {
        CommandResult::Success => Ok(()),
        CommandResult::Error(msg) => Err(KvError::Server { msg }),
        CommandResult::Value(val) => Err(KvError::UnexpectedResult { val }),
    }
}

/// The outcome of a read, from the server's response.
pub fn parse_get_response(result: CommandResult) -> (r: Result<Option<String>, KvError>)
    ensures
        match result@ {
            ResultModel::Success => r matches Ok(None),
            ResultModel::Value(v) => r matches Ok(Some(s)) && s@ == v,
            ResultModel::Error(m) => r matches Err(KvError::Server { msg }) && msg@ == m,
        },
{
    match result {
        CommandResult::Success => Ok(None),
        CommandResult::Value(val) => Ok(Some(val)),
        CommandResult::Error(msg) => Err(KvError::Server { msg }),
    }
}

} // verus!
