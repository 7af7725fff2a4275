//! A minimal peer-to-peer file-discovery and transfer protocol.
//!
//! A peer advertises an identity and a set of locally shared files to a
//! central registry, queries the registry to locate which peer holds a given
//! file, and then fetches the file directly from that peer over a second,
//! short-lived connection.
//!
//! This crate holds the protocol logic itself: the binary wire codec, the
//! lexical path resolver that confines an untrusted filename to a shared
//! directory root, the client-side registry session, the fetch client, and
//! the listener-side message-reassembly state machine.  All of it is pure
//! transform logic over in-memory buffers; the sockets and files live with
//! the caller, which hands byte chunks in and carries byte frames out.

pub mod codec;
pub mod data;
pub mod error;
pub mod fetch;
pub mod listener;
pub mod resolve;
pub mod session;
pub mod types;
