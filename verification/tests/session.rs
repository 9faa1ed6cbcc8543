use mcphub::frames::{extract_session_id, keepalive_frame, message_frame, stream_headers};
use mcphub::handler::{classify_request, handle_post, http_response};
use mcphub::registry::{make_session_id, EnqueueResult, PopResult, Registry};
use mcphub::{KEEPALIVE_INTERVAL_SECS, QUEUE_CAPACITY, SESSION_TIMEOUT_SECS};

fn status_line(bytes: &[u8]) -> String {
    let text = String::from_utf8(bytes.to_vec()).unwrap();
    text.lines().next().unwrap().to_string()
}

#[test]
fn connect_announces_endpoint() {
    let mut reg = Registry::new();
    let (sid, frame) = reg.connect(12345678901234567890, 4242, 100);
    assert_eq!(
        frame,
        format!("event: endpoint\ndata: /message?sessionId={}\n\n", sid)
    );
    assert_eq!(reg.session_count(), 1);
    // The id embedded in the endpoint frame is recovered by the path parser.
    let path = format!("/message?sessionId={}", sid);
    assert_eq!(extract_session_id(&path), Some(sid));
}

#[test]
fn connect_ids_unique() {
    let mut reg = Registry::new();
    let (a, _) = reg.connect(1, 1, 0);
    let (b, _) = reg.connect(1, 1, 0);
    let (c, _) = reg.connect(99, 7, 5);
    assert_ne!(a, b);
    assert_ne!(a, c);
    assert_ne!(b, c);
    assert_eq!(reg.session_count(), 3);
}

#[test]
fn session_id_format() {
    assert_eq!(make_session_id(255, 16, 0), "ff-10-0");
    assert_eq!(make_session_id(0, 0, 10), "0-0-a");
}

#[test]
fn frames_have_expected_text() {
    assert_eq!(keepalive_frame(), ": keepalive\n\n");
    assert_eq!(
        message_frame("{\"id\":1}"),
        "event: message\ndata: {\"id\":1}\n\n"
    );
    assert!(stream_headers().starts_with("HTTP/1.1 200 OK\r\n"));
    assert!(stream_headers().contains("Content-Type: text/event-stream\r\n"));
    assert!(stream_headers().ends_with("\r\n\r\n"));
}

#[test]
fn fifo_order_preserved() {
    let mut reg = Registry::new();
    let (sid, _) = reg.connect(1, 2, 0);
    assert!(matches!(
        reg.deliver(&sid, "a".to_string(), 1),
        EnqueueResult::Delivered
    ));
    assert!(matches!(
        reg.deliver(&sid, "b".to_string(), 2),
        EnqueueResult::Delivered
    ));
    assert!(matches!(
        reg.deliver(&sid, "c".to_string(), 3),
        EnqueueResult::Delivered
    ));
    for expected in ["a", "b", "c"] {
        match reg.pop_frame(&sid) {
            PopResult::Frame(f) => assert_eq!(f, expected),
            _ => panic!("expected a frame"),
        }
    }
    assert!(matches!(reg.pop_frame(&sid), PopResult::Empty));
}

#[test]
fn full_queue_drops_frame_keeps_session() {
    let mut reg = Registry::new();
    let (sid, _) = reg.connect(1, 2, 0);
    for i in 0..QUEUE_CAPACITY {
        assert!(matches!(
            reg.deliver(&sid, format!("frame {}", i), 1),
            EnqueueResult::Delivered
        ));
    }
    assert!(matches!(
        reg.deliver(&sid, "overflow".to_string(), 2),
        EnqueueResult::Dropped
    ));
    assert_eq!(reg.session_count(), 1);
    let mut drained = 0;
    while let PopResult::Frame(_) = reg.pop_frame(&sid) {
        drained += 1;
    }
    assert_eq!(drained, QUEUE_CAPACITY);
}

#[test]
fn closed_consumer_gone_then_not_found() {
    let mut reg = Registry::new();
    let (sid, _) = reg.connect(1, 2, 0);
    assert!(reg.close_consumer(&sid));
    assert!(matches!(
        reg.deliver(&sid, "x".to_string(), 1),
        EnqueueResult::Gone
    ));
    assert!(matches!(
        reg.deliver(&sid, "y".to_string(), 2),
        EnqueueResult::NotFound
    ));
    assert_eq!(reg.session_count(), 0);
}

#[test]
fn reaper_evicts_idle_session() {
    let mut reg = Registry::new();
    let (idle, _) = reg.connect(1, 2, 0);
    let (busy, _) = reg.connect(1, 2, 0);
    assert!(matches!(
        reg.deliver(&busy, "k".to_string(), 200),
        EnqueueResult::Delivered
    ));
    // At the threshold nothing is evicted yet.
    let none = reg.reap(SESSION_TIMEOUT_SECS);
    assert!(none.is_empty());
    // One tick past the idle session's threshold evicts exactly it.
    let evicted = reg.reap(SESSION_TIMEOUT_SECS + 1);
    assert_eq!(evicted, vec![idle.clone()]);
    assert_eq!(reg.session_count(), 1);
    // Its stream handler observes the terminal signal and tears down.
    assert!(matches!(reg.pop_frame(&idle), PopResult::Closed));
    reg.disconnect(&idle);
    assert!(matches!(reg.pop_frame(&busy), PopResult::Frame(_)));
    assert!(KEEPALIVE_INTERVAL_SECS < SESSION_TIMEOUT_SECS);
}

#[test]
fn disconnect_twice_is_no_error() {
    let mut reg = Registry::new();
    let (sid, _) = reg.connect(1, 2, 0);
    reg.disconnect(&sid);
    reg.disconnect(&sid);
    assert_eq!(reg.session_count(), 0);
}

#[test]
fn classify_request_shapes() {
    assert_eq!(classify_request("{\"id\":1,\"method\":\"ping\"}"), Some(true));
    assert_eq!(classify_request("{\"method\":\"note\"}"), Some(false));
    assert_eq!(
        classify_request("{\"id\":null,\"method\":\"ping\"}"),
        Some(true)
    );
    assert_eq!(classify_request("not json"), None);
    assert_eq!(classify_request("42"), None);
    assert_eq!(classify_request("{\"id\":1}"), None);
    assert_eq!(classify_request("{\"method\":7}"), None);
}

#[test]
fn post_round_trip_accepted() {
    let mut reg = Registry::new();
    let (sid, _) = reg.connect(1, 2, 0);
    let bytes = handle_post(
        &mut reg,
        &sid,
        "{\"id\":1,\"method\":\"ping\"}",
        Some("{\"id\":1,\"result\":\"pong\"}"),
        5,
    );
    assert_eq!(status_line(&bytes), "HTTP/1.1 202 Accepted");
    match reg.pop_frame(&sid) {
        PopResult::Frame(f) => {
            assert_eq!(f, "event: message\ndata: {\"id\":1,\"result\":\"pong\"}\n\n")
        }
        _ => panic!("expected the message frame"),
    }
    assert!(matches!(reg.pop_frame(&sid), PopResult::Empty));
}

#[test]
fn post_notification_processed() {
    let mut reg = Registry::new();
    let (sid, _) = reg.connect(1, 2, 0);
    let bytes = handle_post(&mut reg, &sid, "{\"method\":\"note\"}", None, 5);
    assert_eq!(status_line(&bytes), "HTTP/1.1 200 OK");
    assert!(matches!(reg.pop_frame(&sid), PopResult::Empty));
}

#[test]
fn post_unknown_session_not_found() {
    let mut reg = Registry::new();
    let bytes = handle_post(
        &mut reg,
        "unknown",
        "{\"id\":1,\"method\":\"ping\"}",
        Some("{\"ok\":true}"),
        5,
    );
    assert_eq!(status_line(&bytes), "HTTP/1.1 404 Not Found");
}

#[test]
fn post_malformed_is_bad_request_and_touches_nothing() {
    let mut reg = Registry::new();
    let (sid, _) = reg.connect(1, 2, 0);
    let bytes = handle_post(&mut reg, &sid, "{oops", None, 5);
    assert_eq!(status_line(&bytes), "HTTP/1.1 400 Bad Request");
    let bytes = handle_post(&mut reg, "unknown", "{oops", None, 5);
    assert_eq!(status_line(&bytes), "HTTP/1.1 400 Bad Request");
    assert_eq!(reg.session_count(), 1);
    assert!(matches!(reg.pop_frame(&sid), PopResult::Empty));
}

#[test]
fn post_to_closed_session_gone() {
    let mut reg = Registry::new();
    let (sid, _) = reg.connect(1, 2, 0);
    reg.close_consumer(&sid);
    let bytes = handle_post(
        &mut reg,
        &sid,
        "{\"id\":1,\"method\":\"ping\"}",
        Some("{\"x\":1}"),
        5,
    );
    assert_eq!(status_line(&bytes), "HTTP/1.1 410 Gone");
    let bytes = handle_post(
        &mut reg,
        &sid,
        "{\"id\":1,\"method\":\"ping\"}",
        Some("{\"x\":1}"),
        6,
    );
    assert_eq!(status_line(&bytes), "HTTP/1.1 404 Not Found");
}

#[test]
fn post_to_full_queue_still_accepted() {
    let mut reg = Registry::new();
    let (sid, _) = reg.connect(1, 2, 0);
    for i in 0..QUEUE_CAPACITY {
        assert!(matches!(
            reg.deliver(&sid, format!("frame {}", i), 1),
            EnqueueResult::Delivered
        ));
    }
    let bytes = handle_post(
        &mut reg,
        &sid,
        "{\"id\":9,\"method\":\"ping\"}",
        Some("{\"late\":true}"),
        5,
    );
    assert_eq!(status_line(&bytes), "HTTP/1.1 202 Accepted");
    let mut drained = 0;
    while let PopResult::Frame(f) = reg.pop_frame(&sid) {
        assert!(!f.contains("late"));
        drained += 1;
    }
    assert_eq!(drained, QUEUE_CAPACITY);
}

#[test]
fn http_response_exact_bytes() {
    let bytes = http_response(202, "Accepted", "{\"ok\":true}");
    let expected = format!(
        "HTTP/1.1 202 Accepted\r\nContent-Type: application/json\r\nContent-Length: {}\r\nAccess-Control-Allow-Origin: *\r\nAccess-Control-Allow-Methods: GET, POST, OPTIONS\r\nAccess-Control-Allow-Headers: Content-Type\r\nConnection: close\r\n\r\n{}",
        "{\"ok\":true}".len(),
        "{\"ok\":true}"
    );
    assert_eq!(bytes, expected.into_bytes());
}

#[test]
fn extract_session_id_cases() {
    assert_eq!(
        extract_session_id("/message?sessionId=abc"),
        Some("abc".to_string())
    );
    assert_eq!(extract_session_id("/message"), None);
    assert_eq!(
        extract_session_id("/message?foo=1&sessionId=xyz&bar=2"),
        Some("xyz".to_string())
    );
    assert_eq!(extract_session_id("/message?sessionId="), Some(String::new()));
    assert_eq!(extract_session_id("/p?a=1"), None);
    assert_eq!(extract_session_id("?x=1&y=2"), None);
    // Only the part up to a second question mark counts as the query.
    assert_eq!(
        extract_session_id("/m?sessionId=x?y"),
        Some("x".to_string())
    );
    assert_eq!(extract_session_id(""), None);
}
