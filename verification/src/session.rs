//! The client-side registry session: what to send over the one long-lived
//! registry connection, and how to read its replies.
//!
//! The session tracks whether a join has succeeded; publishing and
//! searching are rejected locally, before any network I/O, until it has.
//! The session builds and interprets the wire bytes; the caller owns the
//! connection, writes the returned messages, and hands reply bytes back.

use vstd::prelude::*;

verus! {

use crate::codec::{
    encode_join, encode_publish, encode_register, encode_search, spec_join_message,
    spec_publish_message, spec_register_message, spec_search_message, valid_publish_name,
};
use crate::error::{Error, ErrorKind};
use vstd::string::StringSliceAdditionalSpecFns;
use crate::types::PeerId;

/// The address a local listening socket was bound to, as far as the
/// protocol cares: the IPv4 octets and port to advertise, or the fact that
/// the socket is not IPv4.
pub enum LocalAddr {
    /// An IPv4 listening address: four octets and a port.
    V4 { ip: [u8; 4], port: u16 },
    /// Any non-IPv4 listening address; only IPv4 advertisement is
    /// supported.
    V6,
}

/// One client session with the registry.
pub struct RegistrySession {
    /// The identifier this peer chose for itself.
    pub peer_id: PeerId,
    /// Whether a join or register message has been delivered.
    pub joined: bool,
}

impl RegistrySession {
    /// A fresh session for the given peer id, not yet joined.
    pub fn new(peer_id: PeerId) -> (r: RegistrySession)
        ensures
            r.peer_id == peer_id,
            !r.joined,
    {
        RegistrySession { peer_id, joined: false }
    }

    /// The JOIN message announcing this peer's id.  Fire-and-forget: no
    /// reply is expected; the caller reports back with `note_joined` once
    /// the write succeeded.
    pub fn join_message(&self) -> (r: Vec<u8>)
        ensures
            r@ == spec_join_message(self.peer_id),
    {
        encode_join(self.peer_id)
    }

    /// Records that a join or register message was delivered, unlocking
    /// publish and search.
    pub fn note_joined(&mut self)
        ensures
            final(self).joined,
            final(self).peer_id == old(self).peer_id,
    {
        self.joined = true;
    }

    /// The REGISTER message advertising the given bound listening address,
    /// which both identifies the peer and makes it fetchable.  A listener
    /// bound to anything but IPv4 is rejected as
    /// `UnsupportedAddressFamily` before any network I/O.
    pub fn register_message(&self, local: &LocalAddr) -> (r: Result<Vec<u8>, Error>)
        ensures
            local matches LocalAddr::V4 { ip, port } ==> (r matches Ok(m) && m@
                == spec_register_message(self.peer_id, ip@, *port)),
            local is V6 ==> (r matches Err(e) && e.kind == ErrorKind::UnsupportedAddressFamily),
    {
        match local {
            LocalAddr::V4 { ip, port } => Ok(encode_register(self.peer_id, ip, *port)),
            LocalAddr::V6 => Err(
                Error::with_kind(
                    ErrorKind::UnsupportedAddressFamily,
                    "listener is not bound to an IPv4 address",
                ),
            ),
        }
    }

    /// The PUBLISH message for the given shared file names, enumerated
    /// fresh by the caller: as many as fit in the fixed buffer, packed in
    /// order.  Requires a prior successful join; otherwise `NotJoined` is
    /// reported before any network I/O.
    pub fn publish_message(&self, names: &Vec<Vec<u8>>) -> (r: Result<Vec<u8>, Error>)
        requires
            forall|i: int| 0 <= i < names@.len() ==> valid_publish_name(
                #[trigger] names.deep_view()[i],
            ),
        ensures
            self.joined ==> (r matches Ok(m) && m@ == spec_publish_message(names.deep_view())),
            !self.joined ==> (r matches Err(e) && e.kind == ErrorKind::NotJoined),
    {
        if !self.joined {
            return Err(Error::with_kind(ErrorKind::NotJoined, "join the registry first"));
        }
        Ok(encode_publish(names))
    }

    /// The SEARCH message for the given filename.  Requires a prior
    /// successful join, and a pure-ASCII filename; either violation is
    /// rejected before any network I/O.
    pub fn search_message(&self, filename: &str) -> (r: Result<Vec<u8>, Error>)
        ensures
            !self.joined ==> (r matches Err(e) && e.kind == ErrorKind::NotJoined),
            self.joined && !vstd::string::is_ascii(filename) ==> (r matches Err(e) && e.kind
                == ErrorKind::NonAsciiFilename),
            self.joined && vstd::string::is_ascii(filename) ==> (r matches Ok(m) && m@
                == spec_search_message(filename.spec_bytes())),
    {
        if !self.joined {
            return Err(Error::with_kind(ErrorKind::NotJoined, "join the registry first"));
        }
        match crate::data::ascii_bytes(filename) {
            Some(bytes) => Ok(encode_search(bytes)),
            None => Err(
                Error::with_kind(
                    ErrorKind::NonAsciiFilename,
                    "filename provided contains non ASCII characters",
                ),
            ),
        }
    }
}

} // verus!
