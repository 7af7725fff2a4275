use peershare::codec::{decode_search_reply, encode_search_reply, PeerEndpoint};
use peershare::data::{ascii_bytes, cp_array};
use peershare::error::{Context, Error, ErrorKind};
use peershare::fetch::{fetch_message, parse_first_reply_chunk, require_found};

#[test]
fn fetch_message_is_nul_terminated() {
    let msg = fetch_message("a.txt").unwrap();
    assert_eq!(msg, vec![3u8, b'a', b'.', b't', b'x', b't', 0u8]);
}

#[test]
fn fetch_message_rejects_non_ascii_names() {
    let err = fetch_message("\u{e9}t\u{e9}.txt").unwrap_err();
    assert_eq!(err.kind, ErrorKind::NonAsciiFilename);
}

#[test]
fn search_miss_means_file_not_found_without_dialing() {
    // a reply with peer id 0 is "not found"; the fetch client reports it
    // and never opens a peer connection
    let reply = encode_search_reply(0, &[10, 0, 0, 1], 9000);
    let found = decode_search_reply(&reply).unwrap();
    assert!(found.is_none());
    let err = require_found(found).unwrap_err();
    assert_eq!(err.kind, ErrorKind::FileNotFound);
}

#[test]
fn search_hit_hands_back_the_endpoint() {
    let ep = require_found(Some(PeerEndpoint { peer_id: 9, ip: [1, 2, 3, 4], port: 80 })).unwrap();
    assert_eq!(ep.peer_id, 9);
    assert_eq!(ep.ip, [1, 2, 3, 4]);
    assert_eq!(ep.port, 80);
}

#[test]
fn empty_first_reply_is_no_data() {
    let err = parse_first_reply_chunk(&Vec::new()).unwrap_err();
    assert_eq!(err.kind, ErrorKind::NoData);
}

#[test]
fn nonzero_status_is_a_peer_rejection() {
    let err = parse_first_reply_chunk(&vec![6u8, 1, 2]).unwrap_err();
    assert_eq!(err.kind, ErrorKind::PeerRejected(6));
}

#[test]
fn success_status_yields_the_rest_as_data() {
    let data = parse_first_reply_chunk(&vec![0u8, 7, 8, 9]).unwrap();
    assert_eq!(data, vec![7, 8, 9]);
}

#[test]
fn success_status_alone_yields_no_data_bytes() {
    let data = parse_first_reply_chunk(&vec![0u8]).unwrap();
    assert!(data.is_empty());
}

#[test]
fn ascii_bytes_accepts_ascii_only() {
    assert_eq!(ascii_bytes("abc"), Some(&b"abc"[..]));
    assert!(ascii_bytes("caf\u{e9}").is_none());
}

#[test]
fn cp_array_copies_exactly() {
    let arr: [u8; 4] = cp_array(&[9, 8, 7, 6]);
    assert_eq!(arr, [9, 8, 7, 6]);
}

#[test]
fn context_describes_a_missing_value() {
    let r: Result<u32, Error> = None.context("failed to get thing");
    let err = r.unwrap_err();
    assert_eq!(err.kind, ErrorKind::Other);
    assert_eq!(err.message(), "failed to get thing");
    assert!(err.source.is_none());
}

#[test]
fn context_passes_a_value_through() {
    let r: Result<u32, Error> = Some(5).context("unused");
    assert_eq!(r.unwrap(), 5);
    let r: Result<u32, Error> = Ok::<u32, Error>(6).context("unused");
    assert_eq!(r.unwrap(), 6);
}

#[test]
fn context_wraps_a_cause_and_keeps_its_kind() {
    let inner = Error::with_kind(ErrorKind::Io, "read failed");
    let r: Result<u32, Error> = Err::<u32, Error>(inner).context("failed to do thing");
    let err = r.unwrap_err();
    assert_eq!(err.kind, ErrorKind::Io);
    assert_eq!(err.message(), "failed to do thing");
    let cause = err.source.unwrap();
    assert_eq!(cause.kind, ErrorKind::Io);
    assert_eq!(cause.message(), "read failed");
}

#[test]
fn error_carries_kind_and_message() {
    let err = Error::new("something went wrong");
    assert_eq!(err.kind, ErrorKind::Other);
    assert_eq!(err.message(), "something went wrong");
    let err = Error::with_kind(ErrorKind::Io, "read failed");
    assert_eq!(err.kind(), ErrorKind::Io);
    assert_eq!(err.context, "read failed");
}
