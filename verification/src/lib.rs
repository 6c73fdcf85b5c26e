//! A small content-addressed blockchain with a record store anchored in it.
//!
//! Blocks are linked by the hex SHA-256 hash of their JSON text; the library
//! computes that text, the hashes, the chain's state updates and the checks,
//! and leaves the reading and writing of files to its caller.

pub mod blockchain;
pub mod buffers;
pub mod contracts;
pub mod devices;
pub mod digest;
pub mod storage;
pub mod text;
pub mod words;
