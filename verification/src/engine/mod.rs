//! Storage engines: what every engine offers, which engines there are, and
//! which of them a data directory belongs to.

use crate::bytes::text_is;
use crate::error::KvsError;
use crate::json::{json_error_text, json_string, json_text, read_json_text};
use crate::record::encode_text;
use vstd::prelude::*;
use vstd::string::*;

pub mod kvs;
pub mod log;

verus! {

/// A key-value storage engine. A handle can be cloned and sent to other
/// threads; all clones work on the same store.
pub trait KvsEngine: Clone + Send + 'static {
    /// Sets the value of a key. A value that the key had before is
    /// overwritten.
    fn set(&self, key: String, value: String) -> Result<(), KvsError>;

    /// The value of a key; `None` if the key is not present.
    fn get(&self, key: String) -> Result<Option<String>, KvsError>;

    /// Removes a key. `KvsError::KeyNotFound` if the key is not present.
    fn remove(&self, key: String) -> Result<(), KvsError>;
}

/// The engines that a server can run on.
#[derive(Clone, Copy, Debug, PartialEq, Eq, Structural)]
pub enum Engine {
    /// The log-structured engine of this crate.
    Kvs,
    /// The engine on top of the `sled` database.
    Sled,
}

impl Engine {
    /// The engine's name on the command line.
    pub open spec fn name_text(self) -> Seq<char> {
        match self {
            Engine::Kvs => "kvs"@,
            Engine::Sled => "sled"@,
        }
    }

    /// The engine's name in the file that records a directory's engine.
    pub open spec fn tag(self) -> Seq<char> {
        match self {
            Engine::Kvs => "Kvs"@,
            Engine::Sled => "Sled"@,
        }
    }

    /// The engine's name on the command line.
    pub fn name(&self) -> (name: String)
        ensures
            name@ == self.name_text(),
    {
        match self {
            Engine::Kvs => String::from_str("kvs"),
            Engine::Sled => String::from_str("sled"),
        }
    }
}

/// The engine that a directory's record names.
pub open spec fn engine_of_tag(tag: Seq<char>) -> Option<Engine> {
    if tag == "Kvs"@ {
        Some(Engine::Kvs)
    } else if tag == "Sled"@ {
        Some(Engine::Sled)
    } else {
        None
    }
}

/// The engine named by the text of a directory's record.
pub open spec fn engine_of_text(bytes: Seq<u8>) -> Option<Engine> {
    match json_string(bytes) {
        Some(tag) => engine_of_tag(tag),
        None => None,
    }
}

/// Writes the text that records `engine` as a directory's engine.
pub fn write_engine(engine: Engine) -> (r: Result<Vec<u8>, KvsError>)
    ensures
        match r {
            Ok(text) => json_text(engine.tag()) == Some(text@),
            Err(e) => json_text(engine.tag()) is None && e is Serde,
        },
{
    match engine {
        Engine::Kvs => encode_text(&String::from_str("Kvs")),
        Engine::Sled => encode_text(&String::from_str("Sled")),
    }
}

/// Reads the engine that a directory's record names.
pub fn read_engine(bytes: &[u8]) -> (r: Result<Engine, KvsError>)
    ensures
        match r {
            Ok(engine) => engine_of_text(bytes@) == Some(engine),
            Err(e) => engine_of_text(bytes@) is None && e is Serde,
        },
{
    match read_json_text(bytes) {
        Ok(tag) => {
            if text_is(&tag, "Kvs") {
                Ok(Engine::Kvs)
            } else if text_is(&tag, "Sled") {
                Ok(Engine::Sled)
            } else {
                Err(KvsError::Serde(String::from_str("unknown engine")))
            }
        },
        Err(e) => Err(KvsError::Serde(json_error_text(&e))),
    }
}

/// The engine to run, and whether to record it in the directory.
#[derive(Clone, Copy, Debug, PartialEq, Eq, Structural)]
pub struct Selection {
    pub engine: Engine,
    pub record: bool,
}

/// The engine to run on a directory, given the engine that was asked for
/// and the one that the directory records.
///
/// An engine that was asked for is run and recorded, unless the directory
/// records another: that is an error. Where none was asked for, the
/// directory's engine is run; a directory without a record gets the
/// log-structured engine, and the record of it.
pub open spec fn selection(requested: Option<Engine>, recorded: Option<Engine>) -> Option<
    Selection,
> {
    match (requested, recorded) {
        (Some(asked), Some(last)) => if asked == last {
            Some(Selection { engine: asked, record: true })
        } else {
            None
        },
        (Some(asked), None) => Some(Selection { engine: asked, record: true }),
        (None, Some(last)) => Some(Selection { engine: last, record: false }),
        (None, None) => Some(Selection { engine: Engine::Kvs, record: true }),
    }
}

/// Chooses the engine to run on a directory.
pub fn select_engine(requested: Option<Engine>, recorded: Option<Engine>) -> (r: Result<
    Selection,
    KvsError,
>)
    ensures
        match r {
            Ok(chosen) => selection(requested, recorded) == Some(chosen),
            Err(e) => selection(requested, recorded) is None && e is EngineMismatch,
        },
{
    match requested {
        Some(asked) => {
            match recorded {
                Some(last) => {
                    if asked != last {
                        return Err(KvsError::EngineMismatch);
                    }
                },
                None => {},
            }
            Ok(Selection { engine: asked, record: true })
        },
        None => match recorded {
            Some(last) => Ok(Selection { engine: last, record: false }),
            None => Ok(Selection { engine: Engine::Kvs, record: true }),
        },
    }
}

} // verus!
