//! The messages between client and server, and their text on the wire.
//!
//! Each message is one JSON object; messages follow one another on the
//! stream with nothing between them but, at most, white space. A request is
//! `{"Get":{"key":..}}`, `{"Set":{"key":..,"value":..}}` or
//! `{"Remove":{"key":..}}`; a response is `{"Ok":null}`, `{"Ok":".."}` or
//! `{"Err":".."}`.

use crate::bytes::{append_bytes, sub_slice, text_is};
use crate::error::KvsError;
use crate::frame::{frame_at, next_frame, Frame};
use crate::json::{
    json_error_text, json_flat, json_nested, json_text, read_json_flat, read_json_nested, Flat,
    Nested,
};
use crate::record::{
    encode_text, field, find_field, frame_remove, frame_set, record_tail, remove_text, set_text,
};
use vstd::prelude::*;
use vstd::string::*;

verus! {

/// What a client asks of the server.
#[derive(Debug)]
pub enum Request {
    /// Give the key the value. The wire calls it `Set`.
    Put { key: String, value: String },
    /// Tell the key's value.
    Get { key: String },
    /// Delete the key.
    Remove { key: String },
}

/// What the server answers.
#[derive(Debug)]
pub enum Response {
    /// The request was carried out; for a `Get`, with the value of the key,
    /// if it has one. The wire calls it `Ok`.
    Done(Option<String>),
    /// The request failed, for the reason given. The wire calls it `Err`.
    Failed(String),
}

/// What a `Request` says, as mathematics.
pub enum Asked {
    Put { key: Seq<char>, value: Seq<char> },
    Get { key: Seq<char> },
    Remove { key: Seq<char> },
}

/// What a `Response` says, as mathematics.
pub enum Answered {
    Done(Option<Seq<char>>),
    Failed(Seq<char>),
}

impl View for Request {
    type V = Asked;

    open spec fn view(&self) -> Asked {
        match self {
            Request::Put { key, value } => Asked::Put { key: key@, value: value@ },
            Request::Get { key } => Asked::Get { key: key@ },
            Request::Remove { key } => Asked::Remove { key: key@ },
        }
    }
}

impl View for Response {
    type V = Answered;

    open spec fn view(&self) -> Answered {
        match self {
            Response::Done(Some(value)) => Answered::Done(Some(value@)),
            Response::Done(None) => Answered::Done(None),
            Response::Failed(reason) => Answered::Failed(reason@),
        }
    }
}

/// `{"Get":{"key":`
pub open spec fn get_head() -> Seq<u8> {
    seq![0x7bu8, 0x22, 0x47, 0x65, 0x74, 0x22, 0x3a, 0x7b, 0x22, 0x6b, 0x65, 0x79, 0x22, 0x3a]
}

/// `{"Ok":`
pub open spec fn done_head() -> Seq<u8> {
    seq![0x7bu8, 0x22, 0x4f, 0x6b, 0x22, 0x3a]
}

/// `{"Err":`
pub open spec fn failed_head() -> Seq<u8> {
    seq![0x7bu8, 0x22, 0x45, 0x72, 0x72, 0x22, 0x3a]
}

/// `null`
pub open spec fn null_text() -> Seq<u8> {
    seq![0x6eu8, 0x75, 0x6c, 0x6c]
}

/// `}`
pub open spec fn close_text() -> Seq<u8> {
    seq![0x7du8]
}

/// The text of a request; `None` where one of its strings has no JSON text.
pub open spec fn request_text(request: Asked) -> Option<Seq<u8>> {
    match request {
        Asked::Put { key, value } => match (json_text(key), json_text(value)) {
            (Some(k), Some(v)) => Some(set_text(k, v)),
            _ => None,
        },
        Asked::Get { key } => match json_text(key) {
            Some(k) => Some(get_head() + k + record_tail()),
            None => None,
        },
        Asked::Remove { key } => match json_text(key) {
            Some(k) => Some(remove_text(k)),
            None => None,
        },
    }
}

/// The text of a response; `None` where its string has no JSON text.
pub open spec fn response_text(response: Answered) -> Option<Seq<u8>> {
    match response {
        Answered::Done(None) => Some(done_head() + null_text() + close_text()),
        Answered::Done(Some(value)) => match json_text(value) {
            Some(v) => Some(done_head() + v + close_text()),
            None => None,
        },
        Answered::Failed(reason) => match json_text(reason) {
            Some(r) => Some(failed_head() + r + close_text()),
            None => None,
        },
    }
}

/// The request that an object with these members stands for: the object has
/// one member, named after the kind of request, which holds the request's
/// fields.
pub open spec fn request_of_members(
    members: Seq<(Seq<char>, Seq<(Seq<char>, Seq<char>)>)>,
) -> Option<Asked> {
    if members.len() != 1 {
        None
    } else if members[0].0 == "Set"@ {
        match (field(members[0].1, "key"@), field(members[0].1, "value"@)) {
            (Some(key), Some(value)) => Some(Asked::Put { key, value }),
            _ => None,
        }
    } else if members[0].0 == "Get"@ {
        match field(members[0].1, "key"@) {
            Some(key) => Some(Asked::Get { key }),
            None => None,
        }
    } else if members[0].0 == "Remove"@ {
        match field(members[0].1, "key"@) {
            Some(key) => Some(Asked::Remove { key }),
            None => None,
        }
    } else {
        None
    }
}

/// The response that an object with these members stands for: the object
/// has one member, `Ok` with a string or `null`, or `Err` with a string.
pub open spec fn response_of_members(members: Seq<(Seq<char>, Option<Seq<char>>)>) -> Option<
    Answered,
> {
    if members.len() != 1 {
        None
    } else if members[0].0 == "Ok"@ {
        Some(Answered::Done(members[0].1))
    } else if members[0].0 == "Err"@ {
        match members[0].1 {
            Some(reason) => Some(Answered::Failed(reason)),
            None => None,
        }
    } else {
        None
    }
}

/// The request that the JSON text `bytes` stands for.
pub open spec fn request_of(bytes: Seq<u8>) -> Option<Asked> {
    match json_nested(bytes) {
        Some(members) => request_of_members(members),
        None => None,
    }
}

/// The response that the JSON text `bytes` stands for.
pub open spec fn response_of(bytes: Seq<u8>) -> Option<Answered> {
    match json_flat(bytes) {
        Some(members) => response_of_members(members),
        None => None,
    }
}

/// Writes a `Get` request around the JSON text of its key.
pub fn frame_get(key_text: &[u8]) -> (text: Vec<u8>)
    ensures
        text@ == get_head() + key_text@ + record_tail(),
{
    let mut text: Vec<u8> = vec![
        0x7bu8,
        0x22,
        0x47,
        0x65,
        0x74,
        0x22,
        0x3a,
        0x7b,
        0x22,
        0x6b,
        0x65,
        0x79,
        0x22,
        0x3a,
    ];
    assert(text@ == get_head());
    append_bytes(&mut text, key_text);
    text.push(0x7d);
    text.push(0x7d);
    assert(text@ == get_head() + key_text@ + record_tail());
    text
}

/// Writes a response that carries a string, or `null`, after `Ok` or `Err`.
pub fn frame_response(failed: bool, payload: Option<&[u8]>) -> (text: Vec<u8>)
    ensures
        text@ == (if failed {
            failed_head()
        } else {
            done_head()
        }) + (match payload {
            Some(p) => p@,
            None => null_text(),
        }) + close_text(),
{
    let mut text: Vec<u8> = if failed {
        vec![0x7bu8, 0x22, 0x45, 0x72, 0x72, 0x22, 0x3a]
    } else {
        vec![0x7bu8, 0x22, 0x4f, 0x6b, 0x22, 0x3a]
    };
    let ghost head = text@;
    assert(head == if failed {
        failed_head()
    } else {
        done_head()
    });
    match payload {
        Some(p) => {
            append_bytes(&mut text, p);
        },
        None => {
            text.push(0x6e);
            text.push(0x75);
            text.push(0x6c);
            text.push(0x6c);
            assert(text@ == head + null_text());
        },
    }
    let ghost body = text@;
    text.push(0x7d);
    assert(text@ == body + close_text());
    text
}

/// Writes the text of a request.
pub fn encode_request(request: &Request) -> (r: Result<Vec<u8>, KvsError>)
    ensures
        match r {
            Ok(text) => request_text(request@) == Some(text@),
            Err(e) => request_text(request@) is None && e is Serde,
        },
{
    match request {
        Request::Put { key, value } => {
            let key_text = encode_text(key)?;
            let value_text = encode_text(value)?;
            Ok(frame_set(key_text.as_slice(), value_text.as_slice()))
        },
        Request::Get { key } => {
            let key_text = encode_text(key)?;
            Ok(frame_get(key_text.as_slice()))
        },
        Request::Remove { key } => {
            let key_text = encode_text(key)?;
            Ok(frame_remove(key_text.as_slice()))
        },
    }
}

/// Writes the text of a response.
pub fn encode_response(response: &Response) -> (r: Result<Vec<u8>, KvsError>)
    ensures
        match r {
            Ok(text) => response_text(response@) == Some(text@),
            Err(e) => response_text(response@) is None && e is Serde,
        },
{
    match response {
        Response::Done(None) => Ok(frame_response(false, None)),
        Response::Done(Some(value)) => {
            let value_text = encode_text(value)?;
            Ok(frame_response(false, Some(value_text.as_slice())))
        },
        Response::Failed(reason) => {
            let reason_text = encode_text(reason)?;
            Ok(frame_response(true, Some(reason_text.as_slice())))
        },
    }
}

/// Turns the members of an object into the request they stand for.
pub fn request_of_object(members: &Nested) -> (request: Option<Request>)
    ensures
        request matches Some(q) ==> request_of_members(members.deep_view()) == Some(q@),
        request is None ==> request_of_members(members.deep_view()) is None,
{
    if members.len() != 1 {
        return None;
    }
    assert(members.deep_view()[0] == (members[0].0@, members[0].1.deep_view()));
    let fields = &members[0].1;
    if text_is(&members[0].0, "Set") {
        match (find_field(fields, "key"), find_field(fields, "value")) {
            (Some(key), Some(value)) => Some(Request::Put { key, value }),
            _ => None,
        }
    } else if text_is(&members[0].0, "Get") {
        match find_field(fields, "key") {
            Some(key) => Some(Request::Get { key }),
            None => None,
        }
    } else if text_is(&members[0].0, "Remove") {
        match find_field(fields, "key") {
            Some(key) => Some(Request::Remove { key }),
            None => None,
        }
    } else {
        None
    }
}

/// Turns the members of an object into the response they stand for.
pub fn response_of_object(members: &Flat) -> (response: Option<Response>)
    ensures
        response matches Some(p) ==> response_of_members(members.deep_view()) == Some(p@),
        response is None ==> response_of_members(members.deep_view()) is None,
{
    if members.len() != 1 {
        return None;
    }
    assert(members.deep_view()[0] == (members[0].0@, members[0].1.deep_view()));
    if text_is(&members[0].0, "Ok") {
        match &members[0].1 {
            Some(value) => Some(Response::Done(Some(value.clone()))),
            None => Some(Response::Done(None)),
        }
    } else if text_is(&members[0].0, "Err") {
        match &members[0].1 {
            Some(reason) => Some(Response::Failed(reason.clone())),
            None => None,
        }
    } else {
        None
    }
}

/// Reads the request that the JSON text `bytes` stands for.
pub fn decode_request(bytes: &[u8]) -> (r: Result<Request, KvsError>)
    ensures
        match r {
            Ok(request) => request_of(bytes@) == Some(request@),
            Err(e) => request_of(bytes@) is None && e is Serde,
        },
{
    match read_json_nested(bytes) {
        Ok(members) => match request_of_object(&members) {
            Some(request) => Ok(request),
            None => Err(KvsError::Serde(String::from_str("not a request"))),
        },
        Err(e) => Err(KvsError::Serde(json_error_text(&e))),
    }
}

/// Reads the response that the JSON text `bytes` stands for.
pub fn decode_response(bytes: &[u8]) -> (r: Result<Response, KvsError>)
    ensures
        match r {
            Ok(response) => response_of(bytes@) == Some(response@),
            Err(e) => response_of(bytes@) is None && e is Serde,
        },
{
    match read_json_flat(bytes) {
        Ok(members) => match response_of_object(&members) {
            Some(response) => Ok(response),
            None => Err(KvsError::Serde(String::from_str("not a response"))),
        },
        Err(e) => Err(KvsError::Serde(json_error_text(&e))),
    }
}

/// What a stream holds next.
pub enum Incoming<M> {
    /// No whole message yet: white space only, or a message that is not yet
    /// complete.
    Pending,
    /// A message, and the position at which it ends.
    Message { message: M, end: usize },
    /// Something that is no message.
    Refused(KvsError),
}

/// What a stream holds next, as mathematics.
pub enum Arrival<V> {
    Pending,
    Message { message: V, end: int },
    Refused,
}

/// What the stream `bytes` holds from position `from` on, `decode` telling
/// what the text of an object stands for.
pub open spec fn arrival<V>(
    bytes: Seq<u8>,
    from: int,
    decode: spec_fn(Seq<u8>) -> Option<V>,
) -> Arrival<V> {
    match frame_at(bytes, from) {
        Frame::End => Arrival::Pending,
        Frame::Cut => Arrival::Pending,
        Frame::Broken => Arrival::Refused,
        Frame::Object { start, end } => match decode(bytes.subrange(start as int, end as int)) {
            Some(message) => Arrival::Message { message, end: end as int },
            None => Arrival::Refused,
        },
    }
}

/// The request that the stream holds from position `from` on.
pub open spec fn request_at(bytes: Seq<u8>, from: int) -> Arrival<Asked> {
    arrival(bytes, from, |text: Seq<u8>| request_of(text))
}

/// The response that the stream holds from position `from` on.
pub open spec fn response_at(bytes: Seq<u8>, from: int) -> Arrival<Answered> {
    arrival(bytes, from, |text: Seq<u8>| response_of(text))
}

/// Takes the next request off a stream, from position `from` on.
pub fn next_request(bytes: &[u8], from: usize) -> (r: Incoming<Request>)
    requires
        from <= bytes.len(),
    ensures
        match r {
            Incoming::Pending => request_at(bytes@, from as int) is Pending,
            Incoming::Message { message, end } => {
                &&& request_at(bytes@, from as int) == (Arrival::Message {
                    message: message@,
                    end: end as int,
                })
                &&& from < end <= bytes.len()
            },
            Incoming::Refused(e) => request_at(bytes@, from as int) is Refused && e is Serde,
        },
{
    match next_frame(bytes, from) {
        Frame::End => Incoming::Pending,
        Frame::Cut => Incoming::Pending,
        Frame::Broken => Incoming::Refused(KvsError::Serde(String::from_str("not a request"))),
        Frame::Object { start, end } => match decode_request(sub_slice(bytes, start, end)) {
            Ok(message) => Incoming::Message { message, end },
            Err(e) => Incoming::Refused(e),
        },
    }
}

/// Takes the next response off a stream, from position `from` on.
pub fn next_response(bytes: &[u8], from: usize) -> (r: Incoming<Response>)
    requires
        from <= bytes.len(),
    ensures
        match r {
            Incoming::Pending => response_at(bytes@, from as int) is Pending,
            Incoming::Message { message, end } => {
                &&& response_at(bytes@, from as int) == (Arrival::Message {
                    message: message@,
                    end: end as int,
                })
                &&& from < end <= bytes.len()
            },
            Incoming::Refused(e) => response_at(bytes@, from as int) is Refused && e is Serde,
        },
{
    match next_frame(bytes, from) {
        Frame::End => Incoming::Pending,
        Frame::Cut => Incoming::Pending,
        Frame::Broken => Incoming::Refused(KvsError::Serde(String::from_str("not a response"))),
        Frame::Object { start, end } => match decode_response(sub_slice(bytes, start, end)) {
            Ok(message) => Incoming::Message { message, end },
            Err(e) => Incoming::Refused(e),
        },
    }
}

} // verus!
