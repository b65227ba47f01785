//! An in-memory key-value server's core: the wire codec, the command
//! executor over a keyspace with expiry, the replication plane and the
//! snapshot decoder. Sockets, files and the clock are the caller's.
pub mod command;
pub mod decimal;
pub mod frame;
pub mod keyspace;
pub mod processing;
pub mod rdb;
pub mod replication;
pub mod resp;
pub mod session;
pub mod text;
pub mod words;
