//! What a client makes of the server's answers.

use crate::error::KvsError;
use crate::protocol::{Answered, Response};
use vstd::prelude::*;

verus! {

/// What `get` returns for the server's answer: the value, or the server's
/// reason for failing as an error.
pub fn value_of_response(response: Response) -> (r: Result<Option<String>, KvsError>)
    ensures
        match response@ {
            Answered::Done(Some(value)) => r matches Ok(Some(v)) && v@ == value,
            Answered::Done(None) => r matches Ok(None),
            Answered::Failed(reason) => r matches Err(KvsError::StringError(text)) && text@
                == reason,
        },
{
    match response {
        Response::Done(value) => Ok(value),
        Response::Failed(reason) => Err(KvsError::StringError(reason)),
    }
}

/// What `set` and `remove` return for the server's answer: nothing, or the
/// server's reason for failing as an error.
pub fn done_of_response(response: Response) -> (r: Result<(), KvsError>)
    ensures
        match response@ {
            Answered::Done(_) => r is Ok,
            Answered::Failed(reason) => r matches Err(KvsError::StringError(text)) && text@
                == reason,
        },
{
    match response {
        Response::Done(_) => Ok(()),
        Response::Failed(reason) => Err(KvsError::StringError(reason)),
    }
}

} // verus!
