use peershare::error::ErrorKind;
use peershare::session::{LocalAddr, RegistrySession};
use peershare::types::{ActionType, InvalidActionType, InvalidResponseType, ResponseType};

#[test]
fn join_message_carries_the_peer_id() {
    let session = RegistrySession::new(0x01020304);
    assert_eq!(session.join_message(), vec![0u8, 1, 2, 3, 4]);
}

#[test]
fn publish_before_join_is_rejected_locally() {
    let session = RegistrySession::new(1);
    let err = session.publish_message(&vec![b"a.txt".to_vec()]).unwrap_err();
    assert_eq!(err.kind, ErrorKind::NotJoined);
}

#[test]
fn publish_after_join_encodes_the_names() {
    let mut session = RegistrySession::new(1);
    session.note_joined();
    let msg = session.publish_message(&vec![b"a.txt".to_vec(), b"b.bin".to_vec()]).unwrap();
    let mut expected = vec![1u8, 0, 0, 0, 2];
    expected.extend_from_slice(b"a.txt\0b.bin\0");
    assert_eq!(msg, expected);
}

#[test]
fn search_before_join_is_rejected_locally() {
    let session = RegistrySession::new(1);
    let err = session.search_message("a.txt").unwrap_err();
    assert_eq!(err.kind, ErrorKind::NotJoined);
}

#[test]
fn search_with_non_ascii_name_is_rejected_locally() {
    let mut session = RegistrySession::new(1);
    session.note_joined();
    let err = session.search_message("na\u{ef}ve.txt").unwrap_err();
    assert_eq!(err.kind, ErrorKind::NonAsciiFilename);
}

#[test]
fn search_message_carries_the_name_unterminated() {
    let mut session = RegistrySession::new(1);
    session.note_joined();
    let msg = session.search_message("a.txt").unwrap();
    assert_eq!(msg, vec![2u8, b'a', b'.', b't', b'x', b't']);
}

#[test]
fn register_advertises_the_ipv4_endpoint() {
    let session = RegistrySession::new(2);
    let msg = session
        .register_message(&LocalAddr::V4 { ip: [10, 1, 2, 3], port: 0x1234 })
        .unwrap();
    assert_eq!(msg, vec![4u8, 0, 0, 0, 2, 10, 1, 2, 3, 0x12, 0x34]);
}

#[test]
fn register_on_a_non_ipv4_listener_fails() {
    let session = RegistrySession::new(2);
    let err = session.register_message(&LocalAddr::V6).unwrap_err();
    assert_eq!(err.kind, ErrorKind::UnsupportedAddressFamily);
}

#[test]
fn action_tags_round_trip() {
    for (action, tag) in [
        (ActionType::JOIN, 0u8),
        (ActionType::PUBLISH, 1),
        (ActionType::SEARCH, 2),
        (ActionType::FETCH, 3),
        (ActionType::REGISTER, 4),
    ] {
        assert_eq!(action.tag(), tag);
        assert_eq!(ActionType::try_from(tag).unwrap(), action);
    }
}

#[test]
fn unknown_action_tag_is_an_error() {
    assert_eq!(ActionType::try_from(5).unwrap_err(), InvalidActionType);
}

#[test]
fn response_tags_round_trip() {
    for (response, tag) in [
        (ResponseType::SUCCESS, 0u8),
        (ResponseType::ERROR, 1),
        (ResponseType::UNKNOWN_ACTION, 2),
        (ResponseType::UNHANDLED_ACTION, 3),
        (ResponseType::NO_DATA, 4),
        (ResponseType::TOO_MUCH_DATA, 5),
        (ResponseType::INVALID_DATA, 6),
    ] {
        assert_eq!(response.tag(), tag);
        assert_eq!(ResponseType::try_from(tag).unwrap(), response);
    }
}

#[test]
fn unknown_response_tag_is_an_error() {
    assert_eq!(ResponseType::try_from(7).unwrap_err(), InvalidResponseType);
}
