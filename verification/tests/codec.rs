use peershare::codec::{
    decode_join, decode_search_reply, encode_fetch, encode_join, encode_publish, encode_register,
    encode_search, encode_search_reply, is_valid_publish_name, u16_from_be_pair, u32_from_be_quad,
};
use peershare::error::ErrorKind;

#[test]
fn join_message_layout() {
    let msg = encode_join(0xAABBCCDD);
    assert_eq!(msg, vec![0u8, 0xAA, 0xBB, 0xCC, 0xDD]);
}

#[test]
fn join_round_trip_small_id() {
    let msg = encode_join(7);
    assert_eq!(decode_join(&msg).unwrap(), 7);
}

#[test]
fn join_round_trip_max_id() {
    let msg = encode_join(u32::MAX);
    assert_eq!(decode_join(&msg).unwrap(), u32::MAX);
}

#[test]
fn join_round_trip_zero_id() {
    let msg = encode_join(0);
    assert_eq!(decode_join(&msg).unwrap(), 0);
}

#[test]
fn join_decode_truncated() {
    let err = decode_join(&vec![0u8, 1, 2]).unwrap_err();
    assert_eq!(err.kind, ErrorKind::IncompleteMessage);
}

#[test]
fn join_decode_trailing_bytes() {
    let err = decode_join(&vec![0u8, 1, 2, 3, 4, 5]).unwrap_err();
    assert_eq!(err.kind, ErrorKind::TooMuchData);
}

#[test]
fn join_decode_wrong_tag() {
    let err = decode_join(&vec![2u8, 1, 2, 3, 4]).unwrap_err();
    assert_eq!(err.kind, ErrorKind::UnknownAction);
}

#[test]
fn search_message_layout() {
    let msg = encode_search(b"a.txt");
    assert_eq!(msg, vec![2u8, b'a', b'.', b't', b'x', b't']);
}

#[test]
fn fetch_message_layout() {
    let msg = encode_fetch(b"a.txt");
    assert_eq!(msg, vec![3u8, b'a', b'.', b't', b'x', b't', 0u8]);
}

#[test]
fn register_message_layout() {
    let msg = encode_register(1, &[127, 0, 0, 1], 0x3039);
    assert_eq!(msg, vec![4u8, 0, 0, 0, 1, 127, 0, 0, 1, 0x30, 0x39]);
}

#[test]
fn be_pair_and_quad() {
    assert_eq!(u16_from_be_pair(0x12, 0x34), 0x1234);
    assert_eq!(u32_from_be_quad(0x12, 0x34, 0x56, 0x78), 0x12345678);
}

#[test]
fn search_reply_not_found() {
    let reply = encode_search_reply(0, &[10, 0, 0, 9], 4242);
    assert_eq!(reply.len(), 10);
    assert!(decode_search_reply(&reply).unwrap().is_none());
}

#[test]
fn search_reply_round_trip() {
    let reply = encode_search_reply(77, &[192, 168, 1, 2], 54321);
    let ep = decode_search_reply(&reply).unwrap().unwrap();
    assert_eq!(ep.peer_id, 77);
    assert_eq!(ep.ip, [192, 168, 1, 2]);
    assert_eq!(ep.port, 54321);
}

#[test]
fn search_reply_wrong_length() {
    let err = decode_search_reply(&vec![0u8; 9]).unwrap_err();
    assert_eq!(err.kind, ErrorKind::IncompleteMessage);
}

#[test]
fn publish_name_validity() {
    assert!(is_valid_publish_name(&b"a.txt".to_vec()));
    assert!(!is_valid_publish_name(&b"".to_vec()));
    assert!(!is_valid_publish_name(&b"a/b".to_vec()));
    assert!(!is_valid_publish_name(&b"a\0b".to_vec()));
    assert!(!is_valid_publish_name(&vec![b'a', 200]));
}

#[test]
fn publish_two_names_fit() {
    let names = vec![b"a.txt".to_vec(), b"b.bin".to_vec()];
    let msg = encode_publish(&names);
    // tag, count 2 big-endian, then both names NUL-terminated
    let mut expected = vec![1u8, 0, 0, 0, 2];
    expected.extend_from_slice(b"a.txt\0b.bin\0");
    assert_eq!(msg, expected);
}

#[test]
fn publish_empty_set() {
    let names: Vec<Vec<u8>> = Vec::new();
    let msg = encode_publish(&names);
    assert_eq!(msg, vec![1u8, 0, 0, 0, 0]);
}

#[test]
fn publish_count_matches_packed_names() {
    // 13 names of 99 bytes pack to 1300 bytes; only 11 of them fit the
    // 1195 payload bytes (11 * 100 = 1100; a twelfth would need 1200).
    let names: Vec<Vec<u8>> = (0..13).map(|_| vec![b'x'; 99]).collect();
    let msg = encode_publish(&names);
    assert_eq!(&msg[0..5], &[1u8, 0, 0, 0, 11]);
    assert_eq!(msg.len(), 5 + 11 * 100);
    // every encoded name is whole: split on NUL and count
    let payload = &msg[5..];
    assert_eq!(payload.last(), Some(&0u8));
    let pieces: Vec<&[u8]> = payload[..payload.len() - 1].split(|b| *b == 0).collect();
    assert_eq!(pieces.len(), 11);
    for piece in pieces {
        assert_eq!(piece, &vec![b'x'; 99][..]);
    }
}

#[test]
fn publish_stops_at_first_name_that_does_not_fit() {
    // the first name leaves 4 payload bytes; a 4-byte name (5 with its
    // terminator) does not fit, so packing stops even though nothing
    // follows it
    let names = vec![vec![b'a'; 1190], vec![b'b'; 4]];
    let msg = encode_publish(&names);
    assert_eq!(&msg[0..5], &[1u8, 0, 0, 0, 1]);
    assert_eq!(msg.len(), 5 + 1191);
}

#[test]
fn publish_last_slot_exactly_filled() {
    // the second name, terminator included, exactly fills the buffer
    let names = vec![vec![b'a'; 1190], vec![b'b'; 3]];
    let msg = encode_publish(&names);
    assert_eq!(&msg[0..5], &[1u8, 0, 0, 0, 2]);
    assert_eq!(msg.len(), 1200);
}
