//! A persistent, string-keyed key-value store: a log-structured storage
//! engine with compaction, the messages between its server and its clients,
//! and what the server answers.
//!
//! The library works on bytes and plain values. Files, sockets and threads
//! are the business of whoever uses it.

pub mod bytes;
pub mod client;
pub mod engine;
pub mod error;
pub mod frame;
pub mod index;
pub mod json;
pub mod protocol;
pub mod record;
pub mod server;
pub mod thread_pool;

pub use engine::kvs::KvStoreInner;
pub use engine::{Engine, KvsEngine};
pub use error::KvsError;
pub use protocol::{Request, Response};
pub use server::KvsServer;
pub use thread_pool::ThreadPool;
