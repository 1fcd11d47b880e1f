//! The decision core of a small Redis-compatible server.
//!
//! Everything here is a function of plain values: bytes that arrived, the
//! stored data, a session's state and readings of the clocks. Sockets, tasks
//! and timers belong to the program around the library.

pub mod bytes;
pub mod error;
pub mod number;
pub mod clock;
pub mod stream;
pub mod encode;
pub mod decode;
pub mod byte_map;
pub mod database;
pub mod reply;
pub mod strings;
pub mod lists;
pub mod streams;
pub mod replication;
pub mod commands;
pub mod transaction;
pub mod session;
pub mod replica;
pub mod invariants;
pub mod transaction_laws;
pub mod data_laws;
pub mod replication_laws;
pub mod reply_laws;
pub mod history_laws;
pub mod byte_laws;
pub mod database_laws;
pub mod stream_id_laws;
pub mod names;
pub mod string_laws;
pub mod list_laws;
pub mod stream_laws;
pub mod session_laws;
pub mod wire_laws;
pub mod replica_laws;
pub mod view_laws;
