//! A fountain-coded bulk file transfer protocol for lossy, half-duplex
//! packet-radio links.
//!
//! A server indexes a directory of files by SHA-256 content hash and serves
//! them on demand; a client discovers files, requests one by hash, and
//! reconstructs it from rateless erasure-coded symbols despite unbounded
//! packet loss.  Commands and responses are ASCII payloads; data symbols are
//! carried behind a 4-byte (tag, ESI) prefix.

pub mod block;
pub mod bytes;
pub mod client;
pub mod command;
pub mod digest;
pub mod fountain;
pub mod index;
pub mod num;
pub mod pdu;
pub mod rng;
pub mod server;
