use tonic_mock::frame::encode_frame;
use tonic_mock::message::WireMessage;
use tonic_mock::mock::{FramePoll, MockBody, ProstDecoder, RecvOutcome};
use tonic_mock::status::Code;
use tonic_mock::test_utils::{TestRequest, TestResponse};

#[test]
fn test_mock_body_creation() {
    let empty_messages: Vec<TestRequest> = Vec::new();
    let body = MockBody::new(empty_messages);
    assert_eq!(body.len(), 0);
    assert!(body.is_empty());

    let single_message = vec![TestRequest::new("1", "test_data")];
    let body = MockBody::new(single_message);
    assert_eq!(body.len(), 1);
    assert!(!body.is_empty());

    let multiple_messages = vec![
        TestRequest::new("1", "data1"),
        TestRequest::new("2", "data2"),
        TestRequest::new("3", "data3"),
    ];
    let body = MockBody::new(multiple_messages);
    assert_eq!(body.len(), 3);
    assert!(!body.is_empty());
}

#[test]
fn test_mock_body_encoding() {
    let message = TestRequest::new("test_id", "test_data");

    let encoded = message.encode_payload();
    assert!(!encoded.is_empty());

    let decoded = TestRequest::decode_payload(&encoded[..]).unwrap();
    assert_eq!(decoded.id, b"test_id".to_vec());
    assert_eq!(decoded.data, b"test_data".to_vec());
}

#[test]
fn test_mock_body_polling() {
    let messages = vec![TestRequest::new("1", "data1"), TestRequest::new("2", "data2")];
    let mut body = MockBody::new(messages);

    let poll_result = body.poll_frame();
    assert!(matches!(poll_result, FramePoll::Data(_)));

    let poll_result = body.poll_frame();
    assert!(matches!(poll_result, FramePoll::Data(_)));

    let poll_result = body.poll_frame();
    assert!(matches!(poll_result, FramePoll::End));
}

#[test]
fn list_body_delivers_frames_in_order_then_ends() {
    let messages = vec![
        TestRequest::new("a", "1"),
        TestRequest::new("b", "2"),
        TestRequest::new("c", "3"),
    ];
    let expected: Vec<Vec<u8>> =
        messages.iter().map(|m| encode_frame(&m.encode_payload())).collect();
    let mut body = MockBody::new(messages);
    for frame in expected {
        match body.poll_frame() {
            FramePoll::Data(f) => assert_eq!(f, frame),
            other => panic!("expected a frame, got {:?}", other),
        }
    }
    for _ in 0..3 {
        assert!(matches!(body.poll_frame(), FramePoll::End));
    }
}

#[test]
fn empty_list_body_ends_at_once() {
    let mut body = MockBody::new(Vec::<TestRequest>::new());
    assert!(matches!(body.poll_frame(), FramePoll::End));
    assert!(matches!(body.poll_frame(), FramePoll::End));
}

#[test]
fn channel_body_receives_waits_and_closes() {
    let mut body = MockBody::from_channel();
    assert!(body.is_empty());
    assert!(matches!(body.poll_frame(), FramePoll::Receive));
    match body.deliver(RecvOutcome::Message(vec![1, 2, 3])) {
        FramePoll::Data(f) => assert_eq!(f, vec![0, 0, 0, 0, 3, 1, 2, 3]),
        other => panic!("expected a frame, got {:?}", other),
    }
    assert!(matches!(body.poll_frame(), FramePoll::Receive));
    assert!(matches!(body.deliver(RecvOutcome::Empty), FramePoll::Pending));
    assert!(matches!(body.poll_frame(), FramePoll::Receive));
    assert!(matches!(body.deliver(RecvOutcome::Disconnected), FramePoll::End));
    assert!(matches!(body.poll_frame(), FramePoll::End));
}

#[test]
fn decoder_reads_payloads_and_reports_garbage() {
    let mut decoder: ProstDecoder<TestResponse> = ProstDecoder::new();
    let payload = TestResponse::new(201, "Created").encode_payload();
    let m = decoder.decode(&payload).unwrap().unwrap();
    assert_eq!(m.code, 201);
    assert_eq!(m.message, "Created");
    let bad: [u8; 2] = [0x12, 0x05];
    assert_eq!(decoder.decode(&bad).unwrap_err().code(), Code::Internal);
}

#[test]
fn unknown_fields_are_skipped_and_later_fields_win() {
    // field 3 (varint), field 1 = "x", field 4 (fixed32), field 1 = "yz"
    let payload: [u8; 13] = [0x18, 0x05, 0x0a, 0x01, b'x', 0x25, 1, 2, 3, 4, 0x0a, 0x02, b'y'];
    assert!(TestRequest::decode_payload(&payload).is_none());
    let payload: [u8; 14] = [0x18, 0x05, 0x0a, 0x01, b'x', 0x25, 1, 2, 3, 4, 0x0a, 0x02, b'y', b'z'];
    let m = TestRequest::decode_payload(&payload).unwrap();
    assert_eq!(m.id, b"yz".to_vec());
    assert!(m.data.is_empty());
}

#[test]
fn negative_code_uses_ten_byte_varint() {
    let payload = TestResponse::new(-1, "").encode_payload();
    assert_eq!(payload.len(), 11);
    assert_eq!(payload[0], 0x08);
    assert_eq!(payload[10], 0x01);
}

#[test]
fn unknown_group_fields_are_skipped() {
    // field 3 as an empty group, then field 1 = "x"
    let payload: [u8; 5] = [0x1b, 0x1c, 0x0a, 0x01, b'x'];
    let m = TestRequest::decode_payload(&payload).unwrap();
    assert_eq!(m.id, b"x".to_vec());
    // a group that is never closed does not decode
    let payload: [u8; 3] = [0x1b, 0x08, 0x01];
    assert!(TestRequest::decode_payload(&payload).is_none());
}

#[test]
fn invalid_utf8_text_does_not_decode() {
    let payload: [u8; 3] = [0x12, 0x01, 0xff];
    assert!(TestResponse::decode_payload(&payload).is_none());
}
