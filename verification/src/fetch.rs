//! The peer fetch client: requesting a file from the peer a search named,
//! over a fresh, single-use connection.
//!
//! The caller performs the search, dials the endpoint, and moves the
//! bytes; this module decides what to send and what each reply byte
//! means.  The first reply chunk starts with a response tag: non-zero is a
//! peer-reported rejection, zero is success and the rest of that same
//! chunk is already file data.  Every later chunk is raw file data,
//! written verbatim, until a zero-length read says the peer closed the
//! connection — the only end-of-file signal the protocol has.

use vstd::prelude::*;

verus! {

use crate::codec::{encode_fetch, spec_fetch_message, PeerEndpoint};
use crate::error::{Error, ErrorKind};
use vstd::string::StringSliceAdditionalSpecFns;

/// The FETCH message for the given filename: checked to be pure ASCII
/// before anything is sent, rejected as `NonAsciiFilename` otherwise.
pub fn fetch_message(filename: &str) -> (r: Result<Vec<u8>, Error>)
    ensures
        vstd::string::is_ascii(filename) ==> (r matches Ok(m) && m@ == spec_fetch_message(
            filename.spec_bytes(),
        )),
        !vstd::string::is_ascii(filename) ==> (r matches Err(e) && e.kind
            == ErrorKind::NonAsciiFilename),
{
    match crate::data::ascii_bytes(filename) {
        Some(bytes) => Ok(encode_fetch(bytes)),
        None => Err(
            Error::with_kind(
                ErrorKind::NonAsciiFilename,
                "filename provided contains non ASCII characters",
            ),
        ),
    }
}

/// Turns a search outcome into the endpoint to dial: a search that found
/// no peer is reported as `FileNotFound`, and no connection is attempted.
pub fn require_found(found: Option<PeerEndpoint>) -> (r: Result<PeerEndpoint, Error>)
    ensures
        found matches Some(ep) ==> r == Ok::<PeerEndpoint, Error>(ep),
        found is None ==> (r matches Err(e) && e.kind == ErrorKind::FileNotFound),
{
    match found {
        Some(ep) => Ok(ep),
        None => Err(Error::with_kind(ErrorKind::FileNotFound, "File not found")),
    }
}

/// Reads the first reply chunk of a fetch: an empty read means the peer
/// sent nothing (`NoData`); a non-zero leading byte is the peer's
/// rejection code (`PeerRejected`); a zero leading byte is success, and
/// everything after it in the same chunk is file data to keep.
pub fn parse_first_reply_chunk(chunk: &Vec<u8>) -> (r: Result<Vec<u8>, Error>)
    ensures
        chunk@.len() == 0 ==> (r matches Err(e) && e.kind == ErrorKind::NoData),
        chunk@.len() > 0 && chunk@[0] != 0 ==> (r matches Err(e) && e.kind
            == ErrorKind::PeerRejected(chunk@[0])),
        chunk@.len() > 0 && chunk@[0] == 0 ==> (r matches Ok(data) && data@ == chunk@.skip(1)),
{
    if chunk.len() == 0 {
        return Err(Error::with_kind(ErrorKind::NoData, "no data from peer"));
    }
    let status = chunk[0];
    if status != 0 {
        return Err(
            Error::with_kind(ErrorKind::PeerRejected(status), "non zero response from peer"),
        );
    }
    let mut data: Vec<u8> = Vec::new();
    let mut i: usize = 1;
    while i < chunk.len()
        invariant
            1 <= i <= chunk@.len(),
            data@ == chunk@.subrange(1, i as int),
        decreases chunk@.len() - i,
    {
        data.push(chunk[i]);
        assert(data@ =~= chunk@.subrange(1, i + 1 as int));
        i = i + 1;
    }
    proof {
        assert(data@ =~= chunk@.skip(1));
    }
    Ok(data)
}

} // verus!
