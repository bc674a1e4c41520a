use tonic_mock::harness::{CompleteAction, HarnessState, ResponseEvent};
use tonic_mock::response::{ResponseCollector, ResponseCursor, StreamAction, StreamEvent};
use tonic_mock::status::{Code, Status};
use tonic_mock::test_utils::{stream_items, stream_items_with_errors, TestResponse};

fn run_cursor(items: Vec<Result<TestResponse, Status>>) -> Vec<(Result<TestResponse, Status>, usize)> {
    let mut delivered = Vec::new();
    let mut cursor = ResponseCursor::new();
    let mut events: Vec<StreamEvent<TestResponse>> = items.into_iter().map(StreamEvent::Item).collect();
    events.push(StreamEvent::End);
    for e in events {
        match cursor.step(e) {
            StreamAction::Deliver(r, i) => delivered.push((r, i)),
            StreamAction::Stop => break,
        }
    }
    assert!(cursor.finished);
    delivered
}

fn collect(items: Vec<Result<TestResponse, Status>>) -> Vec<Result<TestResponse, Status>> {
    let mut c = ResponseCollector::new();
    for i in items {
        c.observe(StreamEvent::Item(i));
    }
    c.observe(StreamEvent::End);
    c.results
}

#[test]
fn test_process_streaming_response() {
    let responses = vec![
        TestResponse::new(0, "Response 0"),
        TestResponse::new(1, "Response 1"),
        TestResponse::new(2, "Response 2"),
    ];
    let delivered = run_cursor(stream_items(responses));

    assert_eq!(delivered.len(), 3);
    for (i, (msg, idx)) in delivered.iter().enumerate() {
        let msg = msg.as_ref().unwrap();
        assert_eq!(msg.code, i as i32);
        assert_eq!(msg.message, format!("Response {}", i));
        assert_eq!(*idx, i);
    }
}

#[test]
fn test_process_streaming_response_with_errors() {
    let responses = vec![
        TestResponse::new(0, "Response 0"),
        TestResponse::new(1, "Response 1"),
        TestResponse::new(2, "Response 2"),
        TestResponse::new(3, "Response 3"),
        TestResponse::new(4, "Response 4"),
    ];
    let error_status = Status::new(Code::Internal, "Test error");
    let delivered = run_cursor(stream_items_with_errors(responses, &vec![1, 3], error_status));

    let success: Vec<&TestResponse> = delivered.iter().filter_map(|(r, _)| r.as_ref().ok()).collect();
    let error_indices: Vec<usize> =
        delivered.iter().filter(|(r, _)| r.is_err()).map(|(_, i)| *i).collect();

    assert_eq!(success.len(), 1);
    assert_eq!(error_indices.len(), 1);
    assert_eq!(success[0].code, 0);
    assert_eq!(error_indices[0], 1);
}

#[test]
fn test_stream_to_vec() {
    let responses = vec![
        TestResponse::new(0, "Response 0"),
        TestResponse::new(1, "Response 1"),
        TestResponse::new(2, "Response 2"),
    ];
    let result = collect(stream_items(responses));

    assert_eq!(result.len(), 3);
    for i in 0..3 {
        assert!(result[i].is_ok());
        let response = result[i].as_ref().unwrap();
        assert_eq!(response.code, i as i32);
        assert_eq!(response.message, format!("Response {}", i));
    }
}

#[test]
fn test_stream_to_vec_with_errors() {
    let responses = vec![
        TestResponse::new(0, "Response 0"),
        TestResponse::new(1, "Response 1"),
        TestResponse::new(2, "Response 2"),
    ];
    let error_status = Status::new(Code::Internal, "Test error");
    let result = collect(stream_items_with_errors(responses, &vec![1], error_status));

    assert_eq!(result.len(), 2);
    assert!(result[0].is_ok());
    assert!(result[1].is_err());
    assert_eq!(result[0].as_ref().unwrap().code, 0);
    assert_eq!(result[0].as_ref().unwrap().message, "Response 0");
    assert_eq!(result[1].as_ref().err().unwrap().code(), Code::Internal);
    assert_eq!(result[1].as_ref().err().unwrap().message(), "Test error");
}

#[test]
fn timeout_delivers_deadline_at_current_index_and_stops() {
    let mut cursor = ResponseCursor::new();
    assert!(matches!(
        cursor.step(StreamEvent::Item(Ok(TestResponse::new(1, "a")))),
        StreamAction::Deliver(Ok(_), 0)
    ));
    match cursor.step(StreamEvent::<TestResponse>::TimedOut(50)) {
        StreamAction::Deliver(Err(s), 1) => {
            assert_eq!(s.code(), Code::DeadlineExceeded);
            assert_eq!(s.message(), "Timeout waiting for message 1: exceeded 50ms");
        }
        _ => panic!("expected a deadline at index 1"),
    }
    assert!(cursor.finished);
}

#[test]
fn collector_timeout_appends_one_error() {
    let mut c = ResponseCollector::new();
    c.observe(StreamEvent::Item(Ok(TestResponse::new(1, "a"))));
    c.observe(StreamEvent::TimedOut(150));
    assert!(c.finished);
    assert_eq!(c.results.len(), 2);
    assert_eq!(c.results[1].as_ref().unwrap_err().code(), Code::DeadlineExceeded);
}

#[test]
fn harness_complete_is_idempotent_and_ends_sending() {
    let mut h = HarnessState::new();
    assert!(h.can_send());
    assert_eq!(h.complete(), CompleteAction::CloseClient);
    assert!(!h.can_send());
    assert_eq!(h.complete(), CompleteAction::Nothing);
    assert!(!h.can_send());
    assert!(h.responses_open);
}

#[test]
fn harness_reads_after_completion() {
    let mut h = HarnessState::new();
    h.complete();
    let items = [1u8, 2];
    for i in items {
        assert_eq!(h.server_response(ResponseEvent::Received(Ok(i))), Some(i));
    }
    assert_eq!(h.server_response(ResponseEvent::<u8>::Exhausted), None);
}

#[test]
fn harness_timeout_then_retry() {
    let h = HarnessState::new();
    let first = h.server_response_with_timeout(ResponseEvent::<u8>::TimedOut(50));
    let first = first.unwrap_err();
    assert_eq!(first.code(), Code::DeadlineExceeded);
    assert_eq!(first.message(), "Timeout waiting for server response: exceeded 50ms");
    let second = h.server_response_with_timeout(ResponseEvent::Received(Ok(7u8)));
    assert_eq!(second.unwrap(), Some(7));
    let third = h.server_response_with_timeout(ResponseEvent::Received(Err::<u8, Status>(Status::new(Code::Internal, "boom"))));
    assert_eq!(third.unwrap_err().code(), Code::Internal);
    assert_eq!(h.server_response_with_timeout(ResponseEvent::<u8>::Exhausted).unwrap(), None);
}

#[test]
fn harness_after_dispose_reports_no_responses() {
    let mut h = HarnessState::new();
    h.dispose();
    assert!(!h.can_send());
    assert_eq!(h.server_response(ResponseEvent::Received(Ok(1u8))), None);
    assert_eq!(h.server_response_with_timeout(ResponseEvent::<u8>::TimedOut(50)).unwrap(), None);
}

#[test]
fn harness_service_error_reads_as_no_response() {
    let h = HarnessState::new();
    let r = h.server_response(ResponseEvent::Received(Err::<u8, Status>(Status::new(Code::Internal, "Test error"))));
    assert_eq!(r, None);
}

#[test]
fn deadline_text_names_the_index() {
    assert_eq!(
        tonic_mock::response::deadline_exceeded(0, 0).message(),
        "Timeout waiting for message 0: exceeded 0ms"
    );
    assert_eq!(
        tonic_mock::response::deadline_exceeded(1203, 1000).message(),
        "Timeout waiting for message 1203: exceeded 1000ms"
    );
}
