use peershare::error::ErrorKind;
use peershare::listener::{
    handle_request, open_failure, rejection_frame, FeedOutcome, FetchResponder, RequestParser,
};
use peershare::types::ResponseType;

fn fetch_request(name: &[u8]) -> Vec<u8> {
    let mut msg = vec![3u8];
    msg.extend_from_slice(name);
    msg.push(0);
    msg
}

#[test]
fn whole_request_in_one_read() {
    let mut parser = RequestParser::new();
    let outcome = parser.on_chunk(&fetch_request(b"a.txt"));
    assert!(matches!(outcome, FeedOutcome::Complete));
    assert_eq!(parser.name(), &b"a.txt".to_vec());
}

#[test]
fn request_split_at_arbitrary_boundaries() {
    // the same request cut into every possible pair of non-empty reads
    let msg = fetch_request(b"file.bin");
    for cut in 1..msg.len() {
        let mut parser = RequestParser::new();
        let first = msg[..cut].to_vec();
        let second = msg[cut..].to_vec();
        let outcome = parser.on_chunk(&first);
        assert!(matches!(outcome, FeedOutcome::NeedMore));
        let outcome = parser.on_chunk(&second);
        assert!(matches!(outcome, FeedOutcome::Complete));
        assert_eq!(parser.name(), &b"file.bin".to_vec());
    }
}

#[test]
fn request_split_byte_by_byte() {
    let msg = fetch_request(b"one.txt");
    let mut parser = RequestParser::new();
    for (i, b) in msg.iter().enumerate() {
        let outcome = parser.on_chunk(&vec![*b]);
        if i + 1 == msg.len() {
            assert!(matches!(outcome, FeedOutcome::Complete));
        } else {
            assert!(matches!(outcome, FeedOutcome::NeedMore));
        }
    }
    assert_eq!(parser.name(), &b"one.txt".to_vec());
}

#[test]
fn zero_read_before_anything_is_idle() {
    let mut parser = RequestParser::new();
    let outcome = parser.on_chunk(&Vec::new());
    assert!(matches!(outcome, FeedOutcome::Idle));
}

#[test]
fn zero_read_mid_collection_uses_bytes_so_far() {
    // the peer closed right after the name; no trailing NUL is required
    let mut parser = RequestParser::new();
    let mut msg = vec![3u8];
    msg.extend_from_slice(b"cut.txt");
    assert!(matches!(parser.on_chunk(&msg), FeedOutcome::NeedMore));
    let outcome = parser.on_chunk(&Vec::new());
    assert!(matches!(outcome, FeedOutcome::Complete));
    assert_eq!(parser.name(), &b"cut.txt".to_vec());
}

#[test]
fn unknown_action_tag_is_rejected() {
    let mut parser = RequestParser::new();
    match parser.on_chunk(&vec![9u8, 0]) {
        FeedOutcome::Reject(response, err) => {
            assert_eq!(response, ResponseType::UNKNOWN_ACTION);
            assert_eq!(err.kind, ErrorKind::UnknownAction);
        }
        _ => panic!("expected a rejection"),
    }
}

#[test]
fn recognized_but_unhandled_action_is_rejected() {
    let mut parser = RequestParser::new();
    match parser.on_chunk(&vec![0u8, 0, 0, 0, 7]) {
        FeedOutcome::Reject(response, err) => {
            assert_eq!(response, ResponseType::UNHANDLED_ACTION);
            assert_eq!(err.kind, ErrorKind::UnhandledAction);
        }
        _ => panic!("expected a rejection"),
    }
}

#[test]
fn non_final_nul_is_too_much_data() {
    // bytes follow the terminator within the same read: no pipelining
    let mut parser = RequestParser::new();
    match parser.on_chunk(&vec![3u8, b'a', 0, b'b']) {
        FeedOutcome::Reject(response, err) => {
            assert_eq!(response, ResponseType::TOO_MUCH_DATA);
            assert_eq!(err.kind, ErrorKind::TooMuchData);
        }
        _ => panic!("expected a rejection"),
    }
}

#[test]
fn non_final_nul_in_later_read_is_too_much_data() {
    let mut parser = RequestParser::new();
    assert!(matches!(parser.on_chunk(&vec![3u8, b'a']), FeedOutcome::NeedMore));
    match parser.on_chunk(&vec![0u8, b'b']) {
        FeedOutcome::Reject(response, err) => {
            assert_eq!(response, ResponseType::TOO_MUCH_DATA);
            assert_eq!(err.kind, ErrorKind::TooMuchData);
        }
        _ => panic!("expected a rejection"),
    }
}

#[test]
fn name_overrunning_accumulator_is_too_much_data() {
    let mut parser = RequestParser::new();
    let msg = fetch_request(&vec![b'x'; 101]);
    match parser.on_chunk(&msg) {
        FeedOutcome::Reject(response, err) => {
            assert_eq!(response, ResponseType::TOO_MUCH_DATA);
            assert_eq!(err.kind, ErrorKind::TooMuchData);
        }
        _ => panic!("expected a rejection"),
    }
}

#[test]
fn longest_fitting_name_is_accepted() {
    // a name of exactly the accumulator's capacity, with its final NUL
    let name = vec![b'x'; 100];
    let mut parser = RequestParser::new();
    let outcome = parser.on_chunk(&fetch_request(&name));
    assert!(matches!(outcome, FeedOutcome::Complete));
    assert_eq!(parser.name(), &name);
}

#[test]
fn non_ascii_name_is_invalid_data() {
    let mut parser = RequestParser::new();
    match parser.on_chunk(&vec![3u8, b'a', 200, 0]) {
        FeedOutcome::Reject(response, err) => {
            assert_eq!(response, ResponseType::INVALID_DATA);
            assert_eq!(err.kind, ErrorKind::InvalidEncoding);
        }
        _ => panic!("expected a rejection"),
    }
}

#[test]
fn traversal_request_is_invalid_data_and_never_resolved() {
    let (response, err) =
        handle_request(&b"/srv/shared".to_vec(), &b"../secret".to_vec()).unwrap_err();
    assert_eq!(response, ResponseType::INVALID_DATA);
    assert_eq!(err.kind, ErrorKind::InvalidPath);
}

#[test]
fn good_request_resolves_under_shared_root() {
    let path = handle_request(&b"/srv/shared".to_vec(), &b"a.txt".to_vec()).unwrap();
    assert_eq!(path, b"/srv/shared/a.txt".to_vec());
}

#[test]
fn three_byte_file_reply_frames() {
    // FETCH for a 3-byte file yields the SUCCESS tag then its bytes
    let mut responder = FetchResponder::new();
    let frame = responder.data_frame(&vec![7, 8, 9]);
    assert_eq!(frame, vec![0u8, 7, 8, 9]);
    assert!(responder.final_frame().is_none());
}

#[test]
fn empty_file_reply_is_a_lone_success_byte() {
    let mut responder = FetchResponder::new();
    let frame = responder.final_frame().unwrap();
    assert_eq!(frame, vec![0u8]);
}

#[test]
fn later_file_chunks_are_raw() {
    let mut responder = FetchResponder::new();
    let first = responder.data_frame(&vec![1, 2]);
    let second = responder.data_frame(&vec![3, 4]);
    assert_eq!(first, vec![0u8, 1, 2]);
    assert_eq!(second, vec![3, 4]);
    assert!(responder.final_frame().is_none());
}

#[test]
fn missing_file_reply_is_the_error_tag() {
    // FETCH for a file that cannot be opened yields a single ERROR byte
    let (response, err) = open_failure();
    assert_eq!(err.kind, ErrorKind::OpenFailed);
    assert_eq!(rejection_frame(response), vec![1u8]);
}

#[test]
fn rejection_frames_carry_the_response_tag() {
    assert_eq!(rejection_frame(ResponseType::SUCCESS), vec![0u8]);
    assert_eq!(rejection_frame(ResponseType::ERROR), vec![1u8]);
    assert_eq!(rejection_frame(ResponseType::UNKNOWN_ACTION), vec![2u8]);
    assert_eq!(rejection_frame(ResponseType::UNHANDLED_ACTION), vec![3u8]);
    assert_eq!(rejection_frame(ResponseType::NO_DATA), vec![4u8]);
    assert_eq!(rejection_frame(ResponseType::TOO_MUCH_DATA), vec![5u8]);
    assert_eq!(rejection_frame(ResponseType::INVALID_DATA), vec![6u8]);
}
