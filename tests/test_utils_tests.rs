use tonic_mock::status::{Code, Status};
use tonic_mock::test_utils::{
    assert_message_eq, assert_response_eq, create_test_messages, stream_items,
    stream_items_with_errors, TestRequest, TestResponse,
};

#[test]
fn test_test_request_new() {
    let req = TestRequest::new("test-id", "test-data");
    assert!(assert_message_eq(&req, "test-id", "test-data"));
}

#[test]
fn test_test_response_new() {
    let resp = TestResponse::new(200, "OK");
    assert!(assert_response_eq(&resp, 200, "OK"));
}

#[test]
fn test_create_test_messages() {
    let messages = create_test_messages(0);
    assert!(messages.is_empty());

    let messages = create_test_messages(3);
    assert_eq!(messages.len(), 3);
    assert!(assert_message_eq(&messages[0], "0", "test_data_0"));
    assert!(assert_message_eq(&messages[1], "1", "test_data_1"));
    assert!(assert_message_eq(&messages[2], "2", "test_data_2"));

    let messages = create_test_messages(10);
    assert_eq!(messages.len(), 10);
    for i in 0..10 {
        assert!(assert_message_eq(&messages[i], &i.to_string(), &format!("test_data_{}", i)));
    }
}

#[test]
fn test_assert_message_eq() {
    let req = TestRequest::new("id-123", "data-456");

    assert!(assert_message_eq(&req, "id-123", "data-456"));
    assert!(assert_message_eq(&req, &String::from("id-123"), &String::from("data-456")));
    let id = "id-123";
    let data = "data-456";
    assert!(assert_message_eq(&req, id, data));
    assert!(!assert_message_eq(&req, "id-124", data));
    assert!(!assert_message_eq(&req, id, "data-45"));
}

#[test]
fn test_assert_response_eq() {
    let resp = TestResponse::new(404, "Not Found");

    assert!(assert_response_eq(&resp, 404, "Not Found"));
    assert!(assert_response_eq(&resp, 404, &String::from("Not Found")));
    let message = "Not Found";
    assert!(assert_response_eq(&resp, 404, message));
    assert!(!assert_response_eq(&resp, 400, message));
    assert!(!assert_response_eq(&resp, 404, "Found"));
}

#[test]
fn test_create_stream_response() {
    let responses = vec![
        TestResponse::new(200, "OK"),
        TestResponse::new(201, "Created"),
        TestResponse::new(202, "Accepted"),
    ];

    let collected_responses = stream_items(responses);

    assert_eq!(collected_responses.len(), 3);
    assert!(collected_responses[0].is_ok());
    assert!(collected_responses[1].is_ok());
    assert!(collected_responses[2].is_ok());

    let resp1 = collected_responses[0].as_ref().unwrap();
    let resp2 = collected_responses[1].as_ref().unwrap();
    let resp3 = collected_responses[2].as_ref().unwrap();

    assert!(assert_response_eq(resp1, 200, "OK"));
    assert!(assert_response_eq(resp2, 201, "Created"));
    assert!(assert_response_eq(resp3, 202, "Accepted"));
}

#[test]
fn test_create_stream_response_with_errors() {
    let responses = vec![
        TestResponse::new(200, "OK"),
        TestResponse::new(201, "Created"),
        TestResponse::new(202, "Accepted"),
        TestResponse::new(203, "Non-Authoritative Information"),
    ];

    let error_status = Status::new(Code::Internal, "Test error");

    let collected_responses =
        stream_items_with_errors(responses, &vec![1, 3], error_status.clone());

    // the first error ends the stream
    assert_eq!(collected_responses.len(), 2);

    assert!(collected_responses[0].is_ok());
    let resp1 = collected_responses[0].as_ref().unwrap();
    assert!(assert_response_eq(resp1, 200, "OK"));

    assert!(collected_responses[1].is_err());
    let err = collected_responses[1].as_ref().unwrap_err();
    assert_eq!(err.code(), Code::Internal);
    assert_eq!(err.message(), "Test error");

    let collected_responses =
        stream_items_with_errors(vec![TestResponse::new(200, "OK")], &vec![], error_status);

    assert_eq!(collected_responses.len(), 1);
    assert!(collected_responses[0].is_ok());
}

#[test]
fn test_create_stream_response_empty() {
    let responses: Vec<TestResponse> = vec![];

    let collected_responses = stream_items(responses);

    assert!(collected_responses.is_empty());
}

#[test]
fn error_index_beyond_the_items_is_never_reached() {
    let items = stream_items_with_errors(vec![1u8, 2], &vec![5], Status::new(Code::Internal, "x"));
    assert_eq!(items.len(), 2);
    assert!(items.iter().all(|i| i.is_ok()));
    let items = stream_items_with_errors(vec![1u8, 2], &vec![0], Status::new(Code::Aborted, "x"));
    assert_eq!(items.len(), 1);
    assert_eq!(items[0].as_ref().unwrap_err().code(), Code::Aborted);
}
