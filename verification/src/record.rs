//! Log records and their text.
//!
//! A record is one JSON object: `{"Set":{"key":..,"value":..}}` or
//! `{"Remove":{"key":..}}`. The text of the strings inside is left to
//! `serde_json`; the object around them is written and taken apart here.

use crate::bytes::{append_bytes, sub_slice, text_is};
use crate::error::KvsError;
use crate::frame::{is_single_frame, next_frame, skip_spaces, Frame};
use crate::json::{
    json_error_text, json_nested, json_text, read_json_nested, write_json_text, Nested,
};
use vstd::prelude::*;
use vstd::string::*;

verus! {

/// One entry of the log.
#[derive(Debug)]
pub enum Command {
    /// The key is given the value. Its text calls it `Set`.
    Put { key: String, value: String },
    /// The key is deleted.
    Remove { key: String },
}

/// What a `Command` says, as mathematics.
pub enum Record {
    Put { key: Seq<char>, value: Seq<char> },
    Remove { key: Seq<char> },
}

impl View for Command {
    type V = Record;

    open spec fn view(&self) -> Record {
        match self {
            Command::Put { key, value } => Record::Put { key: key@, value: value@ },
            Command::Remove { key } => Record::Remove { key: key@ },
        }
    }
}

impl Record {
    /// The key the record is about.
    pub open spec fn key(self) -> Seq<char> {
        match self {
            Record::Put { key, .. } => key,
            Record::Remove { key } => key,
        }
    }
}

/// The value of the first field from position `i` on that is called `name`.
pub open spec fn field_from(fields: Seq<(Seq<char>, Seq<char>)>, name: Seq<char>, i: int) -> Option<
    Seq<char>,
>
    decreases fields.len() - i,
{
    if 0 <= i < fields.len() {
        if fields[i].0 == name {
            Some(fields[i].1)
        } else {
            field_from(fields, name, i + 1)
        }
    } else {
        None
    }
}

/// The value of the field called `name`.
pub open spec fn field(fields: Seq<(Seq<char>, Seq<char>)>, name: Seq<char>) -> Option<Seq<char>> {
    field_from(fields, name, 0)
}

/// The record that an object with these members stands for: the object has
/// one member, named after the kind of record, which holds the record's
/// fields. Fields that the record does not have are passed over.
pub open spec fn record_of_members(
    members: Seq<(Seq<char>, Seq<(Seq<char>, Seq<char>)>)>,
) -> Option<Record> {
    if members.len() != 1 {
        None
    } else if members[0].0 == "Set"@ {
        match (field(members[0].1, "key"@), field(members[0].1, "value"@)) {
            (Some(key), Some(value)) => Some(Record::Put { key, value }),
            _ => None,
        }
    } else if members[0].0 == "Remove"@ {
        match field(members[0].1, "key"@) {
            Some(key) => Some(Record::Remove { key }),
            None => None,
        }
    } else {
        None
    }
}

/// The record that the JSON text `bytes` stands for.
pub open spec fn record_of(bytes: Seq<u8>) -> Option<Record> {
    match json_nested(bytes) {
        Some(members) => record_of_members(members),
        None => None,
    }
}

/// The record that `bytes` holds, where `bytes` is white space and then one
/// object, and nothing after it.
pub open spec fn record_in(bytes: Seq<u8>) -> Option<Record> {
    if is_single_frame(bytes) {
        record_of(bytes.subrange(skip_spaces(bytes, 0), bytes.len() as int))
    } else {
        None
    }
}

/// `{"Set":{"key":`
pub open spec fn set_head() -> Seq<u8> {
    seq![0x7bu8, 0x22, 0x53, 0x65, 0x74, 0x22, 0x3a, 0x7b, 0x22, 0x6b, 0x65, 0x79, 0x22, 0x3a]
}

/// `,"value":`
pub open spec fn value_head() -> Seq<u8> {
    seq![0x2cu8, 0x22, 0x76, 0x61, 0x6c, 0x75, 0x65, 0x22, 0x3a]
}

/// `{"Remove":{"key":`
pub open spec fn remove_head() -> Seq<u8> {
    seq![
        0x7bu8,
        0x22,
        0x52,
        0x65,
        0x6d,
        0x6f,
        0x76,
        0x65,
        0x22,
        0x3a,
        0x7b,
        0x22,
        0x6b,
        0x65,
        0x79,
        0x22,
        0x3a,
    ]
}

/// `}}`
pub open spec fn record_tail() -> Seq<u8> {
    seq![0x7du8, 0x7d]
}

/// The text of a `Set` record around the JSON texts of its key and value.
pub open spec fn set_text(key_text: Seq<u8>, value_text: Seq<u8>) -> Seq<u8> {
    set_head() + key_text + value_head() + value_text + record_tail()
}

/// The text of a `Remove` record around the JSON text of its key.
pub open spec fn remove_text(key_text: Seq<u8>) -> Seq<u8> {
    remove_head() + key_text + record_tail()
}

/// The text written for a record; `None` where one of its strings has no
/// JSON text.
pub open spec fn record_text(record: Record) -> Option<Seq<u8>> {
    match record {
        Record::Put { key, value } => match (json_text(key), json_text(value)) {
            (Some(k), Some(v)) => Some(set_text(k, v)),
            _ => None,
        },
        Record::Remove { key } => match json_text(key) {
            Some(k) => Some(remove_text(k)),
            None => None,
        },
    }
}

/// Looks a field up by its name.
pub fn find_field(fields: &Vec<(String, String)>, name: &str) -> (found: Option<String>)
    ensures
        found matches Some(value) ==> field(fields.deep_view(), name@) == Some(value@),
        found is None ==> field(fields.deep_view(), name@) is None,
{
    let mut i: usize = 0;
    while i < fields.len()
        invariant
            0 <= i <= fields.len(),
            field(fields.deep_view(), name@) == field_from(fields.deep_view(), name@, i as int),
        decreases fields.len() - i,
    {
        assert(fields.deep_view()[i as int] == (fields[i as int].0@, fields[i as int].1@));
        if text_is(&fields[i].0, name) {
            return Some(fields[i].1.clone());
        }
        i += 1;
    }
    None
}

/// Turns the members of an object into the record they stand for.
pub fn command_of_members(members: &Nested) -> (command: Option<Command>)
    ensures
        command matches Some(c) ==> record_of_members(members.deep_view()) == Some(c@),
        command is None ==> record_of_members(members.deep_view()) is None,
{
    if members.len() != 1 {
        return None;
    }
    assert(members.deep_view()[0] == (members[0].0@, members[0].1.deep_view()));
    let fields = &members[0].1;
    if text_is(&members[0].0, "Set") {
        match (find_field(fields, "key"), find_field(fields, "value")) {
            (Some(key), Some(value)) => Some(Command::Put { key, value }),
            _ => None,
        }
    } else if text_is(&members[0].0, "Remove") {
        match find_field(fields, "key") {
            Some(key) => Some(Command::Remove { key }),
            None => None,
        }
    } else {
        None
    }
}

/// Reads the record that the JSON text `bytes` stands for.
pub fn decode_command(bytes: &[u8]) -> (r: Result<Command, KvsError>)
    ensures
        match r {
            Ok(command) => record_of(bytes@) == Some(command@),
            Err(e) => record_of(bytes@) is None && e is Serde,
        },
{
    match read_json_nested(bytes) {
        Ok(members) => match command_of_members(&members) {
            Some(command) => Ok(command),
            None => Err(KvsError::Serde(String::from_str("not a record of the log"))),
        },
        Err(e) => Err(KvsError::Serde(json_error_text(&e))),
    }
}

/// Reads the one record that `bytes` holds.
pub fn read_record(bytes: &[u8]) -> (r: Result<Command, KvsError>)
    ensures
        match r {
            Ok(command) => record_in(bytes@) == Some(command@),
            Err(e) => record_in(bytes@) is None && e is Serde,
        },
{
    match next_frame(bytes, 0) {
        Frame::Object { start, end } => {
            if end == bytes.len() {
                decode_command(sub_slice(bytes, start, end))
            } else {
                Err(KvsError::Serde(String::from_str("bytes after the end of a record")))
            }
        },
        _ => Err(KvsError::Serde(String::from_str("not a complete record"))),
    }
}

/// Writes a `Set` record around the JSON texts of its key and value.
pub fn frame_set(key_text: &[u8], value_text: &[u8]) -> (text: Vec<u8>)
    ensures
        text@ == set_text(key_text@, value_text@),
{
    let mut text: Vec<u8> = vec![
        0x7bu8,
        0x22,
        0x53,
        0x65,
        0x74,
        0x22,
        0x3a,
        0x7b,
        0x22,
        0x6b,
        0x65,
        0x79,
        0x22,
        0x3a,
    ];
    assert(text@ == set_head());
    append_bytes(&mut text, key_text);
    let middle: Vec<u8> = vec![0x2cu8, 0x22, 0x76, 0x61, 0x6c, 0x75, 0x65, 0x22, 0x3a];
    assert(middle@ == value_head());
    append_bytes(&mut text, middle.as_slice());
    append_bytes(&mut text, value_text);
    text.push(0x7d);
    text.push(0x7d);
    assert(text@ == set_text(key_text@, value_text@));
    text
}

/// Writes a `Remove` record around the JSON text of its key.
pub fn frame_remove(key_text: &[u8]) -> (text: Vec<u8>)
    ensures
        text@ == remove_text(key_text@),
{
    let mut text: Vec<u8> = vec![
        0x7bu8,
        0x22,
        0x52,
        0x65,
        0x6d,
        0x6f,
        0x76,
        0x65,
        0x22,
        0x3a,
        0x7b,
        0x22,
        0x6b,
        0x65,
        0x79,
        0x22,
        0x3a,
    ];
    assert(text@ == remove_head());
    append_bytes(&mut text, key_text);
    text.push(0x7d);
    text.push(0x7d);
    assert(text@ == remove_text(key_text@));
    text
}

/// Writes the JSON text of a string.
pub fn encode_text(s: &String) -> (r: Result<Vec<u8>, KvsError>)
    ensures
        match r {
            Ok(text) => json_text(s@) == Some(text@),
            Err(e) => json_text(s@) is None && e is Serde,
        },
{
    match write_json_text(s.as_str()) {
        Ok(text) => Ok(text),
        Err(e) => Err(KvsError::Serde(json_error_text(&e))),
    }
}

/// Writes the text of a record.
pub fn encode_command(command: &Command) -> (r: Result<Vec<u8>, KvsError>)
    ensures
        match r {
            Ok(text) => record_text(command@) == Some(text@),
            Err(e) => record_text(command@) is None && e is Serde,
        },
{
    match command {
        Command::Put { key, value } => {
            let key_text = encode_text(key)?;
            let value_text = encode_text(value)?;
            Ok(frame_set(key_text.as_slice(), value_text.as_slice()))
        },
        Command::Remove { key } => {
            let key_text = encode_text(key)?;
            Ok(frame_remove(key_text.as_slice()))
        },
    }
}

} // verus!
