use kvs::client::{done_of_response, value_of_response};
use kvs::engine::{read_engine, select_engine, write_engine, Selection};
use kvs::frame::{next_frame, skip_white_space, Frame};
use kvs::protocol::{
    decode_request, decode_response, encode_request, encode_response, next_request,
    next_response, Incoming,
};
use kvs::record::{decode_command, encode_command, encode_text, read_record, Command};
use kvs::server::{answer_get, answer_write};
use kvs::{Engine, KvStoreInner, KvsError, Request, Response};

fn text(s: &str) -> String {
    s.to_owned()
}

#[test]
fn wire_protocol() {
    let mut store = KvStoreInner::open(Vec::new()).unwrap();

    let request = decode_request(b"{\"Set\":{\"key\":\"x\",\"value\":\"y\"}}").unwrap();
    let response = match request {
        Request::Put { key, value } => answer_write(store.set(key, value)),
        _ => panic!("not a set"),
    };
    assert_eq!(encode_response(&response).unwrap(), b"{\"Ok\":null}");

    let request = decode_request(b"{\"Get\":{\"key\":\"x\"}}").unwrap();
    let response = match request {
        Request::Get { key } => answer_get(store.get(key)),
        _ => panic!("not a get"),
    };
    assert_eq!(encode_response(&response).unwrap(), b"{\"Ok\":\"y\"}");

    let request = decode_request(b"{\"Remove\":{\"key\":\"z\"}}").unwrap();
    let response = match request {
        Request::Remove { key } => answer_write(store.remove(key)),
        _ => panic!("not a remove"),
    };
    assert_eq!(encode_response(&response).unwrap(), b"{\"Err\":\"Key not found\"}");
}

#[test]
fn requests_have_their_text() {
    let set = Request::Put { key: text("x"), value: text("y") };
    assert_eq!(encode_request(&set).unwrap(), b"{\"Set\":{\"key\":\"x\",\"value\":\"y\"}}");
    let get = Request::Get { key: text("x") };
    assert_eq!(encode_request(&get).unwrap(), b"{\"Get\":{\"key\":\"x\"}}");
    let remove = Request::Remove { key: text("x") };
    assert_eq!(encode_request(&remove).unwrap(), b"{\"Remove\":{\"key\":\"x\"}}");
}

#[test]
fn requests_read_back() {
    for (key, value) in [("x", "y"), ("", ""), ("a\"b", "c\\d"), ("{", "}}"), ("\u{e9}", "\n")] {
        let bytes = encode_request(&Request::Put { key: text(key), value: text(value) }).unwrap();
        match decode_request(&bytes).unwrap() {
            Request::Put { key: k, value: v } => {
                assert_eq!(k, key);
                assert_eq!(v, value);
            }
            other => panic!("{:?}", other),
        }
        let bytes = encode_request(&Request::Get { key: text(key) }).unwrap();
        match decode_request(&bytes).unwrap() {
            Request::Get { key: k } => assert_eq!(k, key),
            other => panic!("{:?}", other),
        }
        let bytes = encode_request(&Request::Remove { key: text(key) }).unwrap();
        match decode_request(&bytes).unwrap() {
            Request::Remove { key: k } => assert_eq!(k, key),
            other => panic!("{:?}", other),
        }
    }
}

#[test]
fn responses_have_their_text_and_read_back() {
    assert_eq!(encode_response(&Response::Done(None)).unwrap(), b"{\"Ok\":null}");
    assert_eq!(
        encode_response(&Response::Done(Some(text("a\"b")))).unwrap(),
        b"{\"Ok\":\"a\\\"b\"}"
    );
    assert_eq!(
        encode_response(&Response::Failed(text("Key not found"))).unwrap(),
        b"{\"Err\":\"Key not found\"}"
    );
    assert!(matches!(decode_response(b"{\"Ok\":null}"), Ok(Response::Done(None))));
    match decode_response(b" { \"Ok\" : \"a\\\"b\" } ").unwrap() {
        Response::Done(Some(value)) => assert_eq!(value, "a\"b"),
        other => panic!("{:?}", other),
    }
    match decode_response(b"{\"Err\":\"no\"}").unwrap() {
        Response::Failed(reason) => assert_eq!(reason, "no"),
        other => panic!("{:?}", other),
    }
}

#[test]
fn what_is_no_message_is_refused() {
    for bytes in [
        b"{\"Ok\":1}".as_slice(),
        b"{\"Err\":null}",
        b"{\"Done\":null}",
        b"{\"Ok\":null,\"Err\":\"x\"}",
        b"{}",
        b"null",
        b"{\"Ok\":null",
    ] {
        assert!(matches!(decode_response(bytes), Err(KvsError::Serde(_))));
    }
    for bytes in [
        b"{\"Put\":{\"key\":\"k\",\"value\":\"v\"}}".as_slice(),
        b"{\"Get\":{}}",
        b"{\"Get\":{\"value\":\"v\"}}",
        b"{\"Set\":{\"key\":\"k\"}}",
        b"{\"Get\":\"k\"}",
        b"{\"Get\":{\"key\":\"k\"}} x",
        b"",
    ] {
        assert!(matches!(decode_request(bytes), Err(KvsError::Serde(_))));
    }
}

#[test]
fn requests_come_off_a_stream_one_by_one() {
    let mut stream =
        b" {\"Set\":{\"key\":\"x\",\"value\":\"}{\"}}\n{\"Get\":{\"key\":\"x\"}}{\"Rem".to_vec();
    let first = match next_request(&stream, 0) {
        Incoming::Message { message: Request::Put { key, value }, end } => {
            assert_eq!(key, "x");
            assert_eq!(value, "}{");
            assert_eq!(end, 33);
            end
        }
        _ => panic!("no set"),
    };
    let second = match next_request(&stream, first) {
        Incoming::Message { message: Request::Get { key }, end } => {
            assert_eq!(key, "x");
            assert_eq!(end, 53);
            end
        }
        _ => panic!("no get"),
    };
    assert!(matches!(next_request(&stream, second), Incoming::Pending));
    stream.extend_from_slice(b"ove\":{\"key\":\"z\"}}  ");
    let third = match next_request(&stream, second) {
        Incoming::Message { message: Request::Remove { key }, end } => {
            assert_eq!(key, "z");
            end
        }
        _ => panic!("no remove"),
    };
    assert_eq!(&stream[third..], b"  ");
    assert!(matches!(next_request(&stream, third), Incoming::Pending));
    assert!(matches!(next_request(&stream, stream.len()), Incoming::Pending));
    assert!(matches!(next_request(b"", 0), Incoming::Pending));
    assert!(matches!(next_request(b"x", 0), Incoming::Refused(KvsError::Serde(_))));
    assert!(matches!(next_request(b"{\"Ok\":null}", 0), Incoming::Refused(KvsError::Serde(_))));
}

#[test]
fn responses_come_off_a_stream_one_by_one() {
    let stream = b"{\"Ok\":\"y\"}{\"Err\":\"no\"}";
    match next_response(stream, 0) {
        Incoming::Message { message: Response::Done(Some(value)), end } => {
            assert_eq!(value, "y");
            assert_eq!(end, 10);
            match next_response(stream, end) {
                Incoming::Message { message: Response::Failed(reason), end } => {
                    assert_eq!(reason, "no");
                    assert_eq!(end, 22);
                }
                _ => panic!("no second response"),
            }
        }
        _ => panic!("no first response"),
    }
    assert!(matches!(next_response(b"{\"Ok\":", 0), Incoming::Pending));
    assert!(matches!(next_response(b"[]", 0), Incoming::Refused(KvsError::Serde(_))));
    assert!(matches!(next_response(b"{\"Get\":{\"key\":\"k\"}}", 0), Incoming::Refused(_)));
}

#[test]
fn frames_end_at_the_closing_brace() {
    assert_eq!(next_frame(b"", 0), Frame::End);
    assert_eq!(next_frame(b" \t\r\n", 0), Frame::End);
    assert_eq!(next_frame(b" \t\r\n", 4), Frame::End);
    assert_eq!(next_frame(b"{}", 0), Frame::Object { start: 0, end: 2 });
    assert_eq!(next_frame(b"  {}{}", 0), Frame::Object { start: 2, end: 4 });
    assert_eq!(next_frame(b"  {}{}", 4), Frame::Object { start: 4, end: 6 });
    assert_eq!(next_frame(b"{\"a\":{\"b\":\"}\"}}x", 0), Frame::Object { start: 0, end: 15 });
    assert_eq!(next_frame(b"{\"\\\"}\":1}", 0), Frame::Object { start: 0, end: 9 });
    assert_eq!(next_frame(b"{\"\\\\\"}", 0), Frame::Object { start: 0, end: 6 });
    assert_eq!(next_frame(b"{\"a\":{}", 0), Frame::Cut);
    assert_eq!(next_frame(b"{\"}", 0), Frame::Cut);
    assert_eq!(next_frame(b"{", 0), Frame::Cut);
    assert_eq!(next_frame(b" x{}", 0), Frame::Broken);
    assert_eq!(next_frame(b"}", 0), Frame::Broken);
    assert_eq!(next_frame(b"\x0b{}", 0), Frame::Broken);
    assert_eq!(skip_white_space(b"  \n x ", 0), 4);
    assert_eq!(skip_white_space(b"  \n x ", 4), 4);
    assert_eq!(skip_white_space(b"  \n x ", 5), 6);
}

#[test]
fn records_have_their_text_and_read_back() {
    let set = Command::Put { key: text("k\n"), value: text("\"v\"") };
    let bytes = encode_command(&set).unwrap();
    assert_eq!(bytes, b"{\"Set\":{\"key\":\"k\\n\",\"value\":\"\\\"v\\\"\"}}");
    match decode_command(&bytes).unwrap() {
        Command::Put { key, value } => {
            assert_eq!(key, "k\n");
            assert_eq!(value, "\"v\"");
        }
        other => panic!("{:?}", other),
    }
    let remove = Command::Remove { key: text("k") };
    let bytes = encode_command(&remove).unwrap();
    assert_eq!(bytes, b"{\"Remove\":{\"key\":\"k\"}}");
    match read_record(b"\n {\"Remove\":{\"key\":\"k\"}}").unwrap() {
        Command::Remove { key } => assert_eq!(key, "k"),
        other => panic!("{:?}", other),
    }
    assert!(matches!(read_record(b"{\"Remove\":{\"key\":\"k\"}} "), Err(KvsError::Serde(_))));
    assert!(matches!(decode_command(b"{\"Remove\":{}}"), Err(KvsError::Serde(_))));
}

#[test]
fn records_pass_over_fields_they_do_not_have() {
    match decode_command(b"{\"Remove\":{\"key\":\"k\",\"value\":\"v\",\"x\":\"y\"}}").unwrap() {
        Command::Remove { key } => assert_eq!(key, "k"),
        other => panic!("{:?}", other),
    }
}

#[test]
fn strings_have_their_json_text() {
    assert_eq!(encode_text(&text("")).unwrap(), b"\"\"");
    assert_eq!(encode_text(&text("a")).unwrap(), b"\"a\"");
    assert_eq!(encode_text(&text("a\"b\\c\n")).unwrap(), b"\"a\\\"b\\\\c\\n\"");
    assert_eq!(encode_text(&text("\u{1}")).unwrap(), b"\"\\u0001\"");
    assert_eq!(encode_text(&text("\u{e9}")).unwrap(), "\"\u{e9}\"".as_bytes());
}

#[test]
fn a_serde_error_carries_the_reason() {
    match decode_command(b"{\"Set\":") {
        Err(e @ KvsError::Serde(_)) => {
            assert_eq!(
                e.message(),
                "Serialization error: EOF while parsing a value at line 1 column 7"
            );
        }
        other => panic!("{:?}", other),
    }
}

#[test]
fn errors_have_their_messages() {
    assert_eq!(KvsError::Io(text("disk full")).message(), "IO error: disk full");
    assert_eq!(KvsError::Serde(text("eof")).message(), "Serialization error: eof");
    assert_eq!(KvsError::Sled(text("bad")).message(), "Sled error: bad");
    assert_eq!(KvsError::Utf8(text("byte 3")).message(), "UTF-8 conversion error: byte 3");
    assert_eq!(KvsError::KeyNotFound.message(), "Key not found");
    assert_eq!(KvsError::UnexpectedCommandType.message(), "Unexpected command type");
    assert_eq!(KvsError::EngineMismatch.message(), "Engine mismatch");
    assert_eq!(KvsError::StringError(text("as sent")).message(), "as sent");
}

#[test]
fn answers_follow_the_outcome() {
    assert!(matches!(answer_get(Ok(None)), Response::Done(None)));
    match answer_get(Ok(Some(text("v")))) {
        Response::Done(Some(value)) => assert_eq!(value, "v"),
        other => panic!("{:?}", other),
    }
    match answer_get(Err(KvsError::UnexpectedCommandType)) {
        Response::Failed(reason) => assert_eq!(reason, "Unexpected command type"),
        other => panic!("{:?}", other),
    }
    assert!(matches!(answer_write(Ok(())), Response::Done(None)));
    match answer_write(Err(KvsError::Io(text("gone")))) {
        Response::Failed(reason) => assert_eq!(reason, "IO error: gone"),
        other => panic!("{:?}", other),
    }
}

#[test]
fn a_client_takes_the_answer_apart() {
    assert_eq!(value_of_response(Response::Done(Some(text("v")))).unwrap(), Some(text("v")));
    assert_eq!(value_of_response(Response::Done(None)).unwrap(), None);
    match value_of_response(Response::Failed(text("Key not found"))) {
        Err(KvsError::StringError(reason)) => assert_eq!(reason, "Key not found"),
        other => panic!("{:?}", other),
    }
    assert!(done_of_response(Response::Done(None)).is_ok());
    assert!(done_of_response(Response::Done(Some(text("ignored")))).is_ok());
    match done_of_response(Response::Failed(text("no"))) {
        Err(KvsError::StringError(reason)) => assert_eq!(reason, "no"),
        other => panic!("{:?}", other),
    }
}

#[test]
fn engine_mismatch() {
    assert!(matches!(
        select_engine(Some(Engine::Sled), Some(Engine::Kvs)),
        Err(KvsError::EngineMismatch)
    ));
    assert!(matches!(
        select_engine(Some(Engine::Kvs), Some(Engine::Sled)),
        Err(KvsError::EngineMismatch)
    ));
}

#[test]
fn engine_selection() {
    assert_eq!(
        select_engine(Some(Engine::Sled), Some(Engine::Sled)).unwrap(),
        Selection { engine: Engine::Sled, record: true }
    );
    assert_eq!(
        select_engine(Some(Engine::Sled), None).unwrap(),
        Selection { engine: Engine::Sled, record: true }
    );
    assert_eq!(
        select_engine(None, Some(Engine::Sled)).unwrap(),
        Selection { engine: Engine::Sled, record: false }
    );
    assert_eq!(
        select_engine(None, None).unwrap(),
        Selection { engine: Engine::Kvs, record: true }
    );
}

#[test]
fn engines_have_their_names() {
    assert_eq!(Engine::Kvs.name(), "kvs");
    assert_eq!(Engine::Sled.name(), "sled");
    assert_eq!(write_engine(Engine::Kvs).unwrap(), b"\"Kvs\"");
    assert_eq!(write_engine(Engine::Sled).unwrap(), b"\"Sled\"");
    assert_eq!(read_engine(b"\"Kvs\"").unwrap(), Engine::Kvs);
    assert_eq!(read_engine(b" \"Sled\"\n").unwrap(), Engine::Sled);
    assert_eq!(read_engine(b"\"\\u004bvs\"").unwrap(), Engine::Kvs);
    assert!(matches!(read_engine(b"\"kvs\""), Err(KvsError::Serde(_))));
    assert!(matches!(read_engine(b"Kvs"), Err(KvsError::Serde(_))));
    assert!(matches!(read_engine(b""), Err(KvsError::Serde(_))));
}
