use tonic_mock::frame::{decode_frame, encode_frame, WireFormatError};
use tonic_mock::grpc_mock::{
    create_grpc_uri, decode_grpc_message, decode_message, encode_grpc_request,
    encode_grpc_response, grpc_path, mock_grpc_call,
};
use tonic_mock::status::{Code, Status};
use tonic_mock::test_utils::{TestRequest, TestResponse};

#[test]
fn test_encode_grpc_request() {
    let request = TestRequest::new("test-id", "test-data");
    let encoded = encode_grpc_request(request);

    assert!(encoded.len() > 5);
    assert_eq!(encoded[0], 0);

    let decoded: TestRequest = decode_grpc_message(&encoded).unwrap();
    assert_eq!(decoded.id, "test-id".as_bytes());
    assert_eq!(decoded.data, "test-data".as_bytes());
}

#[test]
fn test_encode_grpc_response() {
    let response = TestResponse::new(200, "Test Response");
    let encoded = encode_grpc_response(response);

    assert!(encoded.len() > 5);
    assert_eq!(encoded[0], 0);
}

#[test]
fn test_create_grpc_uri() {
    let built = create_grpc_uri("example.TestService", "TestMethod").unwrap();
    assert_eq!(built.path, "/example.TestService/TestMethod");
    assert_eq!(built.scheme, "http");
    assert_eq!(built.authority, "localhost");
    let uri = built.uri;

    assert_eq!(uri.path(), "/example.TestService/TestMethod");
    assert_eq!(uri.scheme().unwrap(), "http");
    assert_eq!(uri.authority().unwrap(), "localhost");
}

#[test]
fn test_decode_grpc_message() {
    let original_request = TestRequest::new("test-id", "test-data");
    let encoded = encode_grpc_request(TestRequest::new("test-id", "test-data"));

    let decoded_request: TestRequest = decode_grpc_message(&encoded).unwrap();

    assert_eq!(decoded_request.id, original_request.id);
    assert_eq!(decoded_request.data, original_request.data);
}

#[test]
fn test_decode_grpc_message_too_short() {
    let bytes: [u8; 3] = [0, 0, 0];

    let result: Result<TestRequest, Status> = decode_grpc_message(&bytes);

    assert!(result.is_err());
    assert_eq!(result.unwrap_err().code(), Code::InvalidArgument);
}

#[test]
fn test_decode_grpc_message_compression_not_supported() {
    let bytes: [u8; 5] = [1, 0, 0, 0, 0];

    let result: Result<TestRequest, Status> = decode_grpc_message(&bytes);

    assert!(result.is_err());
    assert_eq!(result.unwrap_err().code(), Code::Unimplemented);
}

#[test]
fn test_decode_grpc_message_incomplete() {
    let bytes: [u8; 10] = [0, 0, 0, 0, 10, 1, 2, 3, 4, 5];

    let result: Result<TestRequest, Status> = decode_grpc_message(&bytes);

    assert!(result.is_err());
    assert_eq!(result.unwrap_err().code(), Code::InvalidArgument);
}

#[test]
fn test_mock_grpc_call() {
    let request = TestRequest::new("test-id", "test-data");

    let response = mock_grpc_call(
        "example.TestService",
        "TestMethod",
        request,
        |req: TestRequest| {
            let id_str = String::from_utf8_lossy(&req.id).to_string();
            Ok(TestResponse::new(200, &format!("Processed: {}", id_str)))
        },
    )
    .unwrap();

    assert_eq!(response.code, 200);
    assert_eq!(response.message, "Processed: test-id");
}

#[test]
fn test_mock_grpc_call_with_error() {
    let request = TestRequest::new("invalid", "data");

    let result = mock_grpc_call(
        "example.TestService",
        "TestMethod",
        request,
        |req: TestRequest| {
            let id_str = String::from_utf8_lossy(&req.id).to_string();
            if id_str == "invalid" {
                Err(Status::new(Code::InvalidArgument, "Invalid request ID"))
            } else {
                Ok(TestResponse::new(200, "OK"))
            }
        },
    );

    assert!(result.is_err());
    assert_eq!(result.unwrap_err().code(), Code::InvalidArgument);
}

#[test]
fn frame_header_carries_flag_and_big_endian_length() {
    let payload: Vec<u8> = (0..300u32).map(|i| (i % 251) as u8).collect();
    let frame = encode_frame(&payload);
    assert_eq!(frame.len(), 305);
    assert_eq!(&frame[..5], &[0u8, 0, 0, 1, 44]);
    assert_eq!(&frame[5..], &payload[..]);
}

#[test]
fn frame_round_trip_keeps_payload() {
    for payload in [vec![], vec![7u8], vec![1u8, 2, 3, 4, 5, 6]] {
        let frame = encode_frame(&payload);
        assert_eq!(decode_frame(&frame), Ok(payload));
    }
}

#[test]
fn frame_decode_ignores_trailing_bytes() {
    let bytes: [u8; 9] = [0, 0, 0, 0, 2, 9, 8, 7, 6];
    assert_eq!(decode_frame(&bytes), Ok(vec![9u8, 8]));
}

#[test]
fn frame_rejections_name_their_reason() {
    assert_eq!(decode_frame(&[]), Err(WireFormatError::TooShort));
    assert_eq!(decode_frame(&[0, 0, 0, 0]), Err(WireFormatError::TooShort));
    assert_eq!(decode_frame(&[2, 0, 0, 0, 0]), Err(WireFormatError::UnsupportedCompression));
    assert_eq!(decode_frame(&[0, 0, 0, 0, 1]), Err(WireFormatError::LengthMismatch));
    assert_eq!(
        decode_frame(&[0, 1, 0, 0, 0, 1, 2, 3]),
        Err(WireFormatError::LengthMismatch)
    );
}

#[test]
fn message_that_does_not_parse_is_a_decode_failure() {
    // key of field 1 with the group wire type
    let bytes: [u8; 6] = [0, 0, 0, 0, 1, 0x0b];
    let r: Result<TestRequest, WireFormatError> = decode_message(&bytes);
    assert!(matches!(r, Err(WireFormatError::DecodeFailure)));
    let s: Result<TestRequest, Status> = decode_grpc_message(&bytes);
    assert_eq!(s.unwrap_err().code(), Code::InvalidArgument);
}

#[test]
fn scenario_encoded_request_layout() {
    let encoded = encode_grpc_request(TestRequest::new("test-id", "test-data"));
    assert_eq!(encoded[0], 0x00);
    let len = u32::from_be_bytes([encoded[1], encoded[2], encoded[3], encoded[4]]) as usize;
    assert_eq!(len, encoded.len() - 5);
    let decoded: TestRequest = decode_grpc_message(&encoded).unwrap();
    assert_eq!(decoded.id, b"test-id".to_vec());
    assert_eq!(decoded.data, b"test-data".to_vec());
}

#[test]
fn message_round_trip_for_both_types() {
    let cases = [("", ""), ("a", ""), ("", "b"), ("id-123", "data-456")];
    for (id, data) in cases {
        let decoded: TestRequest = decode_grpc_message(&encode_grpc_request(TestRequest::new(id, data))).unwrap();
        assert_eq!(decoded.id, id.as_bytes());
        assert_eq!(decoded.data, data.as_bytes());
    }
    for (code, text) in [(0, ""), (200, "OK"), (-1, "négatif"), (i32::MIN, "min"), (i32::MAX, "")] {
        let decoded: TestResponse = decode_grpc_message(&encode_grpc_response(TestResponse::new(code, text))).unwrap();
        assert_eq!(decoded.code, code);
        assert_eq!(decoded.message, text);
    }
}

#[test]
fn request_path_joins_service_and_method() {
    assert_eq!(grpc_path("pkg.Svc", "Call"), "/pkg.Svc/Call");
    assert_eq!(grpc_path("", ""), "//");
}

#[test]
fn invalid_path_is_rejected() {
    let r = create_grpc_uri("bad service", "M");
    assert_eq!(r.err().unwrap().code(), Code::InvalidArgument);
}

#[test]
fn incomplete_frame_reports_both_lengths() {
    let bytes: [u8; 10] = [0, 0, 0, 0, 10, 1, 2, 3, 4, 5];
    let err = decode_grpc_message::<TestRequest>(&bytes).unwrap_err();
    assert_eq!(err.message(), "Message incomplete: expected 10 bytes, got 5");
}
