use chat_relay::chunk::decode_chunk;
use chat_relay::event::StreamEvent;
use chat_relay::relay::{relay_session, Relay};
use chat_relay::text::{is_done_sentinel, payload_of_text, text_of_line};

fn content(e: &StreamEvent) -> Option<&str> {
    e.content.as_deref()
}

fn assert_content(e: &StreamEvent, c: &str) {
    assert_eq!(e.content.as_deref(), Some(c));
    assert_eq!(e.error, None);
    assert!(!e.done);
}

fn assert_done(e: &StreamEvent) {
    assert_eq!(e.content, None);
    assert_eq!(e.error, None);
    assert!(e.done);
}

fn assert_error(e: &StreamEvent, msg: &str) {
    assert_eq!(e.content, None);
    assert_eq!(e.error.as_deref(), Some(msg));
    assert!(e.done);
}

fn one_buffer(body: &str) -> Vec<Vec<u8>> {
    vec![body.as_bytes().to_vec()]
}

fn byte_buffers(body: &str) -> Vec<Vec<u8>> {
    body.as_bytes().iter().map(|b| vec![*b]).collect()
}

const S1: &str = "data: {\"content\":\"Hel\"}\ndata: {\"content\":\"lo\"}\ndata: [DONE]\n";

fn same_events(a: &[StreamEvent], b: &[StreamEvent]) -> bool {
    a.len() == b.len()
        && a.iter().zip(b.iter()).all(|(x, y)| x.content == y.content && x.error == y.error && x.done == y.done)
}

#[test]
fn happy_path() {
    let evs = relay_session(200, &one_buffer(S1));
    assert_eq!(evs.len(), 3);
    assert_content(&evs[0], "Hel");
    assert_content(&evs[1], "lo");
    assert_done(&evs[2]);
}

#[test]
fn finish_reason_ends_stream() {
    let body = "data: {\"content\":\"Hi\"}\ndata: {\"finish_reason\":\"stop\"}\n";
    let evs = relay_session(200, &one_buffer(body));
    assert_eq!(evs.len(), 2);
    assert_content(&evs[0], "Hi");
    assert_done(&evs[1]);
}

#[test]
fn upstream_error_mid_stream() {
    let body = "data: {\"content\":\"A\"}\ndata: {\"error\":\"rate_limited\"}\n";
    let evs = relay_session(200, &one_buffer(body));
    assert_eq!(evs.len(), 2);
    assert_content(&evs[0], "A");
    assert_error(&evs[1], "rate_limited");
}

#[test]
fn http_500() {
    let evs = relay_session(500, &Vec::new());
    assert_eq!(evs.len(), 1);
    assert_error(&evs[0], "HTTP error: 500 Internal Server Error");
}

#[test]
fn http_status_out_of_range() {
    let evs = relay_session(42, &Vec::new());
    assert_eq!(evs.len(), 1);
    assert_error(&evs[0], "HTTP error: invalid status code");
}

#[test]
fn malformed_chunk() {
    let evs = relay_session(200, &one_buffer("data: {not json}\n"));
    assert_eq!(evs.len(), 1);
    assert!(evs[0].done);
    assert_eq!(evs[0].content, None);
    let msg = evs[0].error.as_deref().unwrap();
    assert!(msg.starts_with("Failed to parse chunk: "));
    assert!(msg.len() > "Failed to parse chunk: ".len());
}

#[test]
fn split_into_single_bytes() {
    let whole = relay_session(200, &one_buffer(S1));
    let split = relay_session(200, &byte_buffers(S1));
    assert!(same_events(&whole, &split));
    assert_eq!(split.len(), 3);
}

#[test]
fn split_inside_multibyte_line() {
    let body = "data: {\"content\":\"h\u{e9}llo \u{1f600}\"}\ndata: {\"done\":true}\n";
    let whole = relay_session(200, &one_buffer(body));
    let split = relay_session(200, &byte_buffers(body));
    assert!(same_events(&whole, &split));
    assert_eq!(whole.len(), 2);
    assert_content(&whole[0], "h\u{e9}llo \u{1f600}");
    assert_done(&whole[1]);
}

#[test]
fn other_lines_ignored() {
    let noisy = ": comment\nevent: message\nid: 7\n\ndata:{\"content\":\"x\"}\nDATA: {\"content\":\"y\"}\ndata: {\"content\":\"Hel\"}\n\ndata: {\"content\":\"lo\"}\nretry: 10\ndata: [DONE]\n";
    let a = relay_session(200, &one_buffer(noisy));
    let b = relay_session(200, &one_buffer(S1));
    assert!(same_events(&a, &b));
}

#[test]
fn sentinel_alone() {
    let evs = relay_session(200, &one_buffer("data: [DONE]\n"));
    assert_eq!(evs.len(), 1);
    assert_done(&evs[0]);
}

#[test]
fn sentinel_with_blank_rest() {
    let evs = relay_session(200, &one_buffer("data: [DONE]\n\n  \n"));
    assert_eq!(evs.len(), 1);
    assert_done(&evs[0]);
}

#[test]
fn sentinel_drains_trailing_chunk() {
    let evs = relay_session(200, &one_buffer("data: [DONE]\n{\"content\":\"tail\"}"));
    assert_eq!(evs.len(), 2);
    assert_content(&evs[0], "tail");
    assert_done(&evs[1]);
}

#[test]
fn sentinel_ignores_trailing_lines() {
    let evs = relay_session(200, &one_buffer("data: [DONE]\ndata: {\"content\":\"late\"}\n"));
    assert_eq!(evs.len(), 1);
    assert_done(&evs[0]);
}

#[test]
fn contents_in_order_then_end() {
    let body = "data: {\"content\":\"a\"}\ndata: {\"content\":\"b\"}\ndata: {\"content\":\"c\"}\n";
    let evs = relay_session(200, &one_buffer(body));
    assert_eq!(evs.len(), 4);
    assert_content(&evs[0], "a");
    assert_content(&evs[1], "b");
    assert_content(&evs[2], "c");
    assert_done(&evs[3]);
}

#[test]
fn end_of_body_without_signal() {
    let evs = relay_session(200, &one_buffer("data: {\"content\":\"a\"}\ndata: {\"content\":\"b\""));
    assert_eq!(evs.len(), 2);
    assert_content(&evs[0], "a");
    assert_done(&evs[1]);
}

#[test]
fn empty_body_gets_terminal_event() {
    let evs = relay_session(200, &Vec::new());
    assert_eq!(evs.len(), 1);
    assert_done(&evs[0]);
}

#[test]
fn done_flag_with_content() {
    let evs = relay_session(200, &one_buffer("data: {\"content\":\"z\",\"done\":true}\ndata: {\"content\":\"no\"}\n"));
    assert_eq!(evs.len(), 2);
    assert_content(&evs[0], "z");
    assert_done(&evs[1]);
}

#[test]
fn done_false_continues() {
    let evs = relay_session(200, &one_buffer("data: {\"content\":\"a\",\"done\":false,\"finish_reason\":null}\n"));
    assert_eq!(evs.len(), 2);
    assert_content(&evs[0], "a");
    assert_done(&evs[1]);
}

#[test]
fn error_wins_over_content() {
    let evs = relay_session(200, &one_buffer("data: {\"content\":\"a\",\"error\":\"bad\"}\n"));
    assert_eq!(evs.len(), 1);
    assert_error(&evs[0], "bad");
}

#[test]
fn wrong_field_type_is_parse_error() {
    let evs = relay_session(200, &one_buffer("data: {\"content\":5}\n"));
    assert_eq!(evs.len(), 1);
    assert_error(&evs[0], "Failed to parse chunk: invalid type for content");
}

#[test]
fn non_object_is_parse_error() {
    let evs = relay_session(200, &one_buffer("data: [1,2]\n"));
    assert_eq!(evs.len(), 1);
    assert_error(&evs[0], "Failed to parse chunk: expected a JSON object");
}

#[test]
fn invalid_utf8_line_ignored() {
    let mut body = vec![0xffu8, 0xfe, b'\n'];
    body.extend_from_slice(b"data: {\"content\":\"ok\"}\n");
    let evs = relay_session(200, &vec![body]);
    assert_eq!(evs.len(), 2);
    assert_content(&evs[0], "ok");
    assert_done(&evs[1]);
}

#[test]
fn request_error_event() {
    let mut r = Relay::new();
    let evs = r.on_request_error("connection refused");
    assert_eq!(evs.len(), 1);
    assert_error(&evs[0], "Request error: connection refused");
    assert!(r.is_finished());
    assert!(r.on_end().is_empty());
}

#[test]
fn stream_error_event() {
    let mut r = Relay::new();
    assert!(r.on_status(200).is_empty());
    let evs = r.on_bytes(b"data: {\"content\":\"a\"}\ndata: {\"con");
    assert_eq!(evs.len(), 1);
    assert_content(&evs[0], "a");
    let evs = r.on_stream_error("reset by peer");
    assert_eq!(evs.len(), 1);
    assert_error(&evs[0], "Stream error: reset by peer");
    assert!(r.on_bytes(b"tent\":\"b\"}\n").is_empty());
}

#[test]
fn nothing_after_terminal_event() {
    let mut r = Relay::new();
    let evs = r.on_bytes(b"data: {\"finish_reason\":\"length\"}\n");
    assert_eq!(evs.len(), 1);
    assert_done(&evs[0]);
    assert!(r.on_bytes(b"data: {\"content\":\"x\"}\n").is_empty());
    assert!(r.on_status(500).is_empty());
    assert!(r.on_end().is_empty());
}

#[test]
fn several_chunks_in_one_buffer_then_split() {
    let mut r = Relay::new();
    let evs = r.on_bytes(b"data: {\"content\":\"1\"}\ndata: {\"content\":\"2\"}\ndata: {\"cont");
    assert_eq!(evs.iter().filter_map(content).collect::<Vec<_>>(), vec!["1", "2"]);
    let evs = r.on_bytes(b"ent\":\"3\"}\r\n");
    assert_eq!(evs.len(), 1);
    assert_content(&evs[0], "3");
}

#[test]
fn decode_chunk_fields() {
    let c = decode_chunk("{\"content\":\"x\",\"error\":null,\"finish_reason\":\"stop\",\"done\":false,\"extra\":[1]}").unwrap();
    assert_eq!(c.content.as_deref(), Some("x"));
    assert_eq!(c.error, None);
    assert_eq!(c.finish_reason.as_deref(), Some("stop"));
    assert_eq!(c.done, Some(false));
    assert!(decode_chunk("{\"done\":\"yes\"}").is_err());
    assert!(decode_chunk("").is_err());
}

#[test]
fn line_text_and_payload() {
    assert_eq!(text_of_line(b"  data: x \r".to_vec()).as_deref(), Some("data: x"));
    assert_eq!(text_of_line(vec![0xc3]), None);
    assert_eq!(payload_of_text("data: {}").as_deref(), Some("{}"));
    assert_eq!(payload_of_text("data:{}"), None);
    assert_eq!(payload_of_text("data: ").as_deref(), Some(""));
    assert!(is_done_sentinel("[DONE]"));
    assert!(!is_done_sentinel("[DONE] "));
    assert!(!is_done_sentinel("[done]"));
}
