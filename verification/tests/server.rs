use kvs::server::{at_end, handle_request, serve};
use kvs::{KvStoreInner, KvsEngine, KvsError, KvsServer, Request, Response, ThreadPool};
use std::cell::RefCell;
use std::sync::{Arc, Mutex};

fn text(s: &str) -> String {
    s.to_owned()
}

/// The engine of the library behind a lock, as a server would hold it.
#[derive(Clone)]
struct Shared(Arc<Mutex<KvStoreInner>>);

impl Shared {
    fn new() -> Shared {
        Shared(Arc::new(Mutex::new(KvStoreInner::open(Vec::new()).unwrap())))
    }
}

impl KvsEngine for Shared {
    fn set(&self, key: String, value: String) -> Result<(), KvsError> {
        self.0.lock().unwrap().set(key, value)
    }

    fn get(&self, key: String) -> Result<Option<String>, KvsError> {
        self.0.lock().unwrap().get(key)
    }

    fn remove(&self, key: String) -> Result<(), KvsError> {
        self.0.lock().unwrap().remove(key)
    }
}

/// An engine that fails at everything.
#[derive(Clone)]
struct Failing;

impl KvsEngine for Failing {
    fn set(&self, _key: String, _value: String) -> Result<(), KvsError> {
        Err(KvsError::Io(text("disk full")))
    }

    fn get(&self, _key: String) -> Result<Option<String>, KvsError> {
        Err(KvsError::UnexpectedCommandType)
    }

    fn remove(&self, _key: String) -> Result<(), KvsError> {
        Err(KvsError::Sled(text("gone")))
    }
}

/// A pool that runs each job at once, on the caller's thread.
struct Inline {
    ran: RefCell<u32>,
}

impl ThreadPool for Inline {
    fn new(_threads: u32) -> Result<Self, KvsError> {
        Ok(Inline { ran: RefCell::new(0) })
    }

    fn spawn<F>(&self, job: F)
    where
        F: FnOnce() + Send + 'static,
    {
        *self.ran.borrow_mut() += 1;
        job();
    }
}

#[test]
fn a_server_holds_its_engine_and_its_pool() {
    let engine = Shared::new();
    engine.set(text("k"), text("v")).unwrap();
    let server = KvsServer::new(engine, Inline::new(4).unwrap());
    assert_eq!(server.engine().get(text("k")).unwrap(), Some(text("v")));
    let handle = server.engine().clone();
    server.pool().spawn(move || {
        handle.set(text("j"), text("w")).unwrap();
    });
    assert_eq!(*server.pool().ran.borrow(), 1);
    assert_eq!(server.engine().get(text("j")).unwrap(), Some(text("w")));
}

#[test]
fn requests_are_carried_out_on_the_engine() {
    let engine = Shared::new();
    let set = handle_request(&engine, Request::Put { key: text("x"), value: text("y") });
    assert!(matches!(set, Response::Done(None)));
    match handle_request(&engine, Request::Get { key: text("x") }) {
        Response::Done(Some(value)) => assert_eq!(value, "y"),
        other => panic!("{:?}", other),
    }
    assert!(matches!(
        handle_request(&engine, Request::Get { key: text("z") }),
        Response::Done(None)
    ));
    match handle_request(&engine, Request::Remove { key: text("z") }) {
        Response::Failed(reason) => assert_eq!(reason, "Key not found"),
        other => panic!("{:?}", other),
    }
    assert!(matches!(
        handle_request(&engine, Request::Remove { key: text("x") }),
        Response::Done(None)
    ));
    assert_eq!(engine.get(text("x")).unwrap(), None);
}

#[test]
fn an_error_of_the_engine_is_an_answer() {
    match handle_request(&Failing, Request::Put { key: text("x"), value: text("y") }) {
        Response::Failed(reason) => assert_eq!(reason, "IO error: disk full"),
        other => panic!("{:?}", other),
    }
    match handle_request(&Failing, Request::Get { key: text("x") }) {
        Response::Failed(reason) => assert_eq!(reason, "Unexpected command type"),
        other => panic!("{:?}", other),
    }
    match handle_request(&Failing, Request::Remove { key: text("x") }) {
        Response::Failed(reason) => assert_eq!(reason, "Sled error: gone"),
        other => panic!("{:?}", other),
    }
    let served = serve(&Failing, b"{\"Get\":{\"key\":\"x\"}}{\"Get\":{\"key\":\"y\"}}");
    assert!(served.failure.is_none());
    assert_eq!(served.consumed, 38);
    assert_eq!(
        served.replies,
        b"{\"Err\":\"Unexpected command type\"}{\"Err\":\"Unexpected command type\"}"
    );
}

#[test]
fn a_connection_is_served_in_order() {
    let engine = Shared::new();
    let received = b"{\"Set\":{\"key\":\"x\",\"value\":\"y\"}}\n\
        {\"Get\":{\"key\":\"x\"}}\n\
        {\"Remove\":{\"key\":\"z\"}}\n\
        {\"Get\":{\"ke";
    let served = serve(&engine, received);
    assert!(served.failure.is_none());
    assert_eq!(served.replies, b"{\"Ok\":null}{\"Ok\":\"y\"}{\"Err\":\"Key not found\"}");
    assert_eq!(&received[served.consumed..], b"\n{\"Get\":{\"ke");

    let mut rest = received[served.consumed..].to_vec();
    rest.extend_from_slice(b"y\":\"q\"}}");
    let served = serve(&engine, &rest);
    assert!(served.failure.is_none());
    assert_eq!(served.replies, b"{\"Ok\":null}");
    assert_eq!(served.consumed, rest.len());
}

#[test]
fn nothing_received_is_nothing_served() {
    let engine = Shared::new();
    for received in [b"".as_slice(), b"  \n", b"{", b" {\"Get\":"] {
        let served = serve(&engine, received);
        assert!(served.failure.is_none());
        assert_eq!(served.consumed, 0);
        assert!(served.replies.is_empty());
    }
}

#[test]
fn what_is_no_request_ends_the_connection() {
    let engine = Shared::new();
    let received =
        b"{\"Set\":{\"key\":\"x\",\"value\":\"y\"}}{\"Ok\":null}{\"Get\":{\"key\":\"x\"}}";
    let served = serve(&engine, received);
    assert!(matches!(served.failure, Some(KvsError::Serde(_))));
    assert_eq!(served.replies, b"{\"Ok\":null}");
    assert_eq!(served.consumed, 31);
    assert_eq!(engine.get(text("x")).unwrap(), Some(text("y")));

    let served = serve(&engine, b"hello");
    assert!(matches!(served.failure, Some(KvsError::Serde(_))));
    assert_eq!(served.consumed, 0);
    assert!(served.replies.is_empty());
}

#[test]
fn handles_of_one_engine_share_the_store() {
    let engine = Shared::new();
    let handles: Vec<Shared> = (0..4).map(|_| engine.clone()).collect();
    for i in 0..50 {
        for (t, handle) in handles.iter().enumerate() {
            handle.set(format!("key{}", i), format!("{}", t)).unwrap();
            assert_eq!(engine.get(format!("key{}", i)).unwrap(), Some(format!("{}", t)));
        }
    }
    let log = engine.0.lock().unwrap().log().clone();
    let again = KvStoreInner::open(log).unwrap();
    for i in 0..50 {
        assert_eq!(again.get(format!("key{}", i)).unwrap(), Some(text("3")));
    }
}

#[test]
fn a_connection_may_end_between_requests_only() {
    assert!(at_end(b"").is_ok());
    assert!(at_end(b" \n\t\r").is_ok());
    assert!(matches!(at_end(b"{\"Get\":{\"ke"), Err(KvsError::Serde(_))));
    assert!(matches!(at_end(b"\x0c"), Err(KvsError::Serde(_))));
    assert!(matches!(at_end(b"x"), Err(KvsError::Serde(_))));
    assert!(matches!(at_end(b"{\"Get\":{\"key\":\"k\"}}"), Err(KvsError::Serde(_))));

    let engine = Shared::new();
    let received = b"{\"Get\":{\"key\":\"x\"}}{\"Bogus\":1}";
    let served = serve(&engine, received);
    assert_eq!(served.replies, b"{\"Ok\":null}");
    assert_eq!(served.consumed, 19);
    assert!(matches!(served.failure, Some(KvsError::Serde(_))));
}

#[test]
fn an_engine_error_does_not_end_the_connection() {
    let engine = Shared::new();
    let received = b"{\"Remove\":{\"key\":\"z\"}}\
        {\"Set\":{\"key\":\"x\",\"value\":\"y\"}}\
        {\"Get\":{\"key\":\"x\"}}";
    let served = serve(&engine, received);
    assert!(served.failure.is_none());
    assert_eq!(served.consumed, received.len());
    assert_eq!(served.replies, b"{\"Err\":\"Key not found\"}{\"Ok\":null}{\"Ok\":\"y\"}");
    assert!(at_end(&received[served.consumed..]).is_ok());
}
