//! The server: an engine, a pool of workers, and what it answers to each
//! request.

use crate::bytes::append_bytes;
use crate::engine::KvsEngine;
use crate::error::KvsError;
use crate::frame::lemma_frame_cut;
use crate::frame::{frame_at, next_frame, Frame};
use crate::protocol::{
    encode_response, next_request, request_at, response_text, Answered, Arrival, Asked, Incoming,
    Request, Response,
};
use vstd::string::*;
use crate::thread_pool::ThreadPool;
use vstd::prelude::*;

verus! {

/// A server that answers requests from an engine, each connection on a
/// worker of its pool.
pub struct KvsServer<E: KvsEngine, P: ThreadPool> {
    engine: E,
    pool: P,
}

impl<E: KvsEngine, P: ThreadPool> KvsServer<E, P> {
    /// The engine's handle.
    pub closed spec fn engine_of(&self) -> E {
        self.engine
    }

    /// The pool.
    pub closed spec fn pool_of(&self) -> P {
        self.pool
    }

    /// A server on the given engine and pool.
    pub fn new(engine: E, pool: P) -> (server: Self)
        ensures
            server.engine_of() == engine,
            server.pool_of() == pool,
    {
        KvsServer { engine, pool }
    }

    /// The engine's handle.
    pub fn engine(&self) -> (engine: &E)
        ensures
            *engine == self.engine_of(),
    {
        &self.engine
    }

    /// The pool.
    pub fn pool(&self) -> (pool: &P)
        ensures
            *pool == self.pool_of(),
    {
        &self.pool
    }
}

/// The answer to a `Get` whose outcome in the engine is `outcome`: the
/// value found, or the error's message.
pub open spec fn get_answer(outcome: Result<Option<String>, KvsError>) -> Answered {
    match outcome {
        Ok(Some(value)) => Answered::Done(Some(value@)),
        Ok(None) => Answered::Done(None),
        Err(e) => Answered::Failed(e.message_text()),
    }
}

/// The answer to a `Set` or a `Remove` whose outcome in the engine is
/// `outcome`: nothing, or the error's message.
pub open spec fn write_answer(outcome: Result<(), KvsError>) -> Answered {
    match outcome {
        Ok(()) => Answered::Done(None),
        Err(e) => Answered::Failed(e.message_text()),
    }
}

/// Answers a `Get` whose outcome in the engine is `outcome`.
pub fn answer_get(outcome: Result<Option<String>, KvsError>) -> (response: Response)
    ensures
        response@ == get_answer(outcome),
{
    match outcome {
        Ok(value) => Response::Done(value),
        Err(e) => Response::Failed(e.message()),
    }
}

/// Answers a `Set` or a `Remove` whose outcome in the engine is `outcome`.
pub fn answer_write(outcome: Result<(), KvsError>) -> (response: Response)
    ensures
        response@ == write_answer(outcome),
{
    match outcome {
        Ok(()) => Response::Done(None),
        Err(e) => Response::Failed(e.message()),
    }
}

/// The engine, asked what `request` asks, can give this answer: its `get`,
/// `set` or `remove`, called with the request's own key and value, can give
/// back an outcome that the answer belongs to.
pub open spec fn answers<E: KvsEngine>(engine: &E, request: Request, answer: Answered) -> bool {
    match request {
        Request::Get { key } => exists|outcome: Result<Option<String>, KvsError>|
            #[trigger] call_ensures(E::get, (engine, key), outcome) && answer == get_answer(
                outcome,
            ),
        Request::Put { key, value } => exists|outcome: Result<(), KvsError>|
            #[trigger] call_ensures(E::set, (engine, key, value), outcome) && answer
                == write_answer(outcome),
        Request::Remove { key } => exists|outcome: Result<(), KvsError>|
            #[trigger] call_ensures(E::remove, (engine, key), outcome) && answer == write_answer(
                outcome,
            ),
    }
}

/// Carries a request out on the engine and answers it: the engine's `get`,
/// `set` or `remove` is called once, with the request's own key and value,
/// and the answer is the one that belongs to what the engine gave back. An
/// error of the engine becomes an answer like any other: it never ends the
/// connection.
pub fn handle_request<E: KvsEngine>(engine: &E, request: Request) -> (response: Response)
    ensures
        answers(engine, request, response@),
        response@ matches Answered::Done(Some(_)) ==> request@ is Get,
{
    match request {
        Request::Get { key } => {
            let outcome = engine.get(key);
            answer_get(outcome)
        },
        Request::Put { key, value } => {
            let outcome = engine.set(key, value);
            answer_write(outcome)
        },
        Request::Remove { key } => {
            let outcome = engine.remove(key);
            answer_write(outcome)
        },
    }
}

/// Where the whole requests end that the stream holds from position `from`
/// on, one after the other.
pub open spec fn requests_end(bytes: Seq<u8>, from: int) -> int
    decreases bytes.len() - from,
{
    match request_at(bytes, from) {
        Arrival::Message { end, .. } => if from < end <= bytes.len() {
            requests_end(bytes, end)
        } else {
            from
        },
        _ => from,
    }
}

/// The engine can give this answer to what was asked.
pub open spec fn is_answer<E: KvsEngine>(engine: &E, asked: Asked, answer: Answered) -> bool {
    exists|request: Request| request@ == asked && #[trigger] answers(engine, request, answer)
}

/// The texts of the answers, one after the other; `None` where one of them
/// has no text.
pub open spec fn replies_of(given: Seq<Answered>) -> Option<Seq<u8>>
    decreases given.len(),
{
    if given.len() == 0 {
        Some(Seq::empty())
    } else {
        match (replies_of(given.drop_last()), response_text(given.last())) {
            (Some(before), Some(text)) => Some(before + text),
            _ => None,
        }
    }
}

/// The stream holds a request from `from` to `to`, and the engine can give
/// this answer to it.
pub open spec fn answered_at<E: KvsEngine>(
    engine: &E,
    received: Seq<u8>,
    from: int,
    to: int,
    answer: Answered,
) -> bool {
    request_at(received, from) matches Arrival::Message { message, end } && end == to
        && is_answer(engine, message, answer)
}

/// The first `consumed` bytes of the stream are requests that end at the
/// `cuts`, one after the other from the start; the engine gave the answers
/// `given` to them, one to each in their order; and `replies` are the texts
/// of these answers, one after the other.
pub open spec fn served_by<E: KvsEngine>(
    engine: &E,
    received: Seq<u8>,
    consumed: int,
    replies: Seq<u8>,
    cuts: Seq<int>,
    given: Seq<Answered>,
) -> bool {
    &&& cuts.len() == given.len() + 1
    &&& cuts[0] == 0
    &&& cuts.last() == consumed
    &&& forall|i: int|
        0 <= i < given.len() ==> answered_at(
            engine,
            received,
            cuts[i],
            cuts[i + 1],
            #[trigger] given[i],
        )
    &&& replies_of(given) == Some(replies)
}

/// What became of the bytes that a connection has received.
pub struct Served {
    /// The text of the answers, in the order of the requests.
    pub replies: Vec<u8>,
    /// The number of bytes that have been dealt with.
    pub consumed: usize,
    /// Why the connection has to end, if it has.
    pub failure: Option<KvsError>,
}

/// Answers the requests that a connection has received so far: each whole
/// request, in the order of the stream, is carried out on the engine, and
/// the text of its answer is added to the replies. Bytes that are not yet a
/// whole request are left for later. What is no request ends the
/// connection, and so does an answer that has no text; the requests before
/// it have their answers all the same.
pub fn serve<E: KvsEngine>(engine: &E, received: &[u8]) -> (served: Served)
    ensures
        served.consumed <= requests_end(received@, 0) <= received.len(),
        exists|cuts: Seq<int>, given: Seq<Answered>| #[trigger]
            served_by(engine, received@, served.consumed as int, served.replies@, cuts, given),
        match served.failure {
            None => {
                &&& served.consumed == requests_end(received@, 0)
                &&& request_at(received@, served.consumed as int) is Pending
            },
            Some(e) => {
                &&& e is Serde
                &&& match request_at(received@, served.consumed as int) {
                    Arrival::Pending => false,
                    Arrival::Refused => true,
                    Arrival::Message { message, .. } => exists|answer: Answered| #[trigger]
                        is_answer(engine, message, answer) && response_text(answer) is None,
                }
            },
        },
        request_at(received@, requests_end(received@, 0)) is Refused ==> served.failure is Some,
{
    let mut replies: Vec<u8> = Vec::new();
    let mut at: usize = 0;
    let ghost mut cuts: Seq<int> = seq![0int];
    let ghost mut given: Seq<Answered> = Seq::empty();
    loop
        invariant
            at <= received.len(),
            requests_end(received@, 0) == requests_end(received@, at as int),
            served_by(engine, received@, at as int, replies@, cuts, given),
        decreases received.len() - at,
    {
        match next_request(received, at) {
            Incoming::Pending => {
                let served = Served { replies, consumed: at, failure: None };
                assert(served_by(
                    engine,
                    received@,
                    served.consumed as int,
                    served.replies@,
                    cuts,
                    given,
                ));
                return served;
            },
            Incoming::Refused(e) => {
                let served = Served { replies, consumed: at, failure: Some(e) };
                assert(served_by(
                    engine,
                    received@,
                    served.consumed as int,
                    served.replies@,
                    cuts,
                    given,
                ));
                return served;
            },
            Incoming::Message { message, end } => {
                proof {
                    lemma_requests_end_bounds(received@, end as int);
                }
                let ghost request = message;
                let response = handle_request(engine, message);
                assert(is_answer(engine, request@, response@)) by {
                    assert(answers(engine, request, response@));
                }
                match encode_response(&response) {
                    Ok(text) => {
                        let ghost before_cuts = cuts;
                        let ghost before_given = given;
                        append_bytes(&mut replies, text.as_slice());
                        proof {
                            cuts = cuts.push(end as int);
                            given = given.push(response@);
                            assert(given.drop_last() == before_given);
                            assert forall|i: int| 0 <= i < given.len() implies answered_at(
                                engine,
                                received@,
                                cuts[i],
                                cuts[i + 1],
                                #[trigger] given[i],
                            ) by {
                                if i < before_given.len() {
                                    assert(answered_at(
                                        engine,
                                        received@,
                                        before_cuts[i],
                                        before_cuts[i + 1],
                                        before_given[i],
                                    ));
                                }
                            }
                        }
                    },
                    Err(e) => {
                        let served = Served { replies, consumed: at, failure: Some(e) };
                        assert(served_by(
                            engine,
                            received@,
                            served.consumed as int,
                            served.replies@,
                            cuts,
                            given,
                        ));
                        return served;
                    },
                }
                at = end;
            },
        }
    }
}

/// Whether a connection may end here: `left` is what it has received and
/// not yet dealt with. White space may be left; anything else is a request
/// that was cut short, or no request at all.
pub fn at_end(left: &[u8]) -> (r: Result<(), KvsError>)
    ensures
        r is Ok <==> frame_at(left@, 0) is End,
        r matches Err(e) ==> e is Serde,
{
    match next_frame(left, 0) {
        Frame::End => Ok(()),
        _ => Err(KvsError::Serde(String::from_str("the connection ended within a request"))),
    }
}

/// The requests end within the stream.
pub proof fn lemma_requests_end_bounds(bytes: Seq<u8>, from: int)
    requires
        0 <= from <= bytes.len() <= usize::MAX,
    ensures
        from <= requests_end(bytes, from) <= bytes.len(),
        request_at(bytes, requests_end(bytes, from)) !is Message,
    decreases bytes.len() - from,
{
    match request_at(bytes, from) {
        Arrival::Message { end, .. } => {
            if from < end <= bytes.len() {
                lemma_requests_end_bounds(bytes, end);
            } else {
                lemma_frame_cut(bytes, from);
            }
        },
        _ => {},
    }
}

} // verus!
