use rust_openai_chat::stream::{extract_delta_from_stream_payload, StreamDecoder};

#[test]
fn parses_delta_content() {
    let payload = r#"{"choices":[{"delta":{"content":"Hello"}}]}"#;
    assert_eq!(extract_delta_from_stream_payload(payload), Some("Hello".to_string()));
}

#[test]
fn ignores_noncontent() {
    let payload = r#"{"choices":[{"delta":{"role":"assistant"}}]}"#;
    assert_eq!(extract_delta_from_stream_payload(payload), None);
}

#[test]
fn accumulates_sequence() {
    let parts = vec![
        r#"{"choices":[{"delta":{"content":"Hel"}}]}"#,
        r#"{"choices":[{"delta":{"content":"lo"}}]}"#,
        r#"{"choices":[{"delta":{"content":"!"}}]}"#,
    ];
    let mut s = String::new();
    for p in parts {
        if let Some(x) = extract_delta_from_stream_payload(p) {
            s.push_str(&x);
        }
    }
    assert_eq!(s, "Hello!");
}

#[test]
fn empty_content_gives_no_delta() {
    let payload = r#"{"choices":[{"delta":{"content":""}}]}"#;
    assert_eq!(extract_delta_from_stream_payload(payload), None);
}

#[test]
fn invalid_payload_gives_no_delta() {
    assert_eq!(extract_delta_from_stream_payload("not json"), None);
    assert_eq!(extract_delta_from_stream_payload(r#"{"choices":[]}"#), None);
    assert_eq!(extract_delta_from_stream_payload(r#"{"choices":[{"delta":{"content":5}}]}"#), None);
}

#[test]
fn decoder_collects_data_lines() {
    let mut d = StreamDecoder::new();
    let out = d.push_text(
        "data: {\"choices\":[{\"delta\":{\"content\":\"Hi\"}}]}\n\ndata: {\"choices\":[{\"delta\":{\"content\":\" there\"}}]}\r\n",
    );
    assert_eq!(out, vec!["Hi".to_string(), " there".to_string()]);
    assert_eq!(d.full_text(), "Hi there");
    assert!(!d.is_done());
}

#[test]
fn decoder_waits_for_line_end() {
    let mut d = StreamDecoder::new();
    let out = d.push_text("data: {\"choices\":[{\"delta\":{\"con");
    assert!(out.is_empty());
    let out = d.push_text("tent\":\"abc\"}}]}");
    assert!(out.is_empty());
    let out = d.push_text("\n");
    assert_eq!(out, vec!["abc".to_string()]);
    assert_eq!(d.full_text(), "abc");
}

#[test]
fn decoder_chunking_does_not_matter() {
    let text = "data: {\"choices\":[{\"delta\":{\"content\":\"A\"}}]}\nevent: x\ndata:{\"choices\":[{\"delta\":{\"content\":\"B\"}}]}\n";
    let mut whole = StreamDecoder::new();
    whole.push_text(text);
    let mut pieces = StreamDecoder::new();
    for i in 0..text.len() {
        pieces.push_text(&text[i..i + 1]);
    }
    assert_eq!(whole.full_text(), "AB");
    assert_eq!(pieces.full_text(), "AB");
}

#[test]
fn decoder_stops_at_done() {
    let mut d = StreamDecoder::new();
    let out = d.push_text(
        "data: {\"choices\":[{\"delta\":{\"content\":\"x\"}}]}\ndata: [DONE]\ndata: {\"choices\":[{\"delta\":{\"content\":\"y\"}}]}\n",
    );
    assert_eq!(out, vec!["x".to_string()]);
    assert!(d.is_done());
    let out = d.push_text("data: {\"choices\":[{\"delta\":{\"content\":\"z\"}}]}\n");
    assert!(out.is_empty());
    assert_eq!(d.full_text(), "x");
}

#[test]
fn decoder_done_with_spaces() {
    let mut d = StreamDecoder::new();
    d.push_text("data:   [DONE]   \n");
    assert!(d.is_done());
    let mut e = StreamDecoder::new();
    e.push_text("data: [DONE]x\n");
    assert!(!e.is_done());
}

#[test]
fn decoder_ignores_other_lines() {
    let mut d = StreamDecoder::new();
    let out = d.push_text(": comment\nid: 3\n   \nDATA: {\"choices\":[{\"delta\":{\"content\":\"q\"}}]}\n");
    assert!(out.is_empty());
    assert_eq!(d.full_text(), "");
    assert!(!d.is_done());
}

#[test]
fn decoder_takes_bytes() {
    let mut d = StreamDecoder::new();
    let out = d.push_bytes("data: {\"choices\":[{\"delta\":{\"content\":\"h\u{e9}\"}}]}\n".as_bytes());
    assert_eq!(out, vec!["h\u{e9}".to_string()]);
    let out = d.push_bytes(b"data: {\"choices\":[{\"delta\":{\"content\":\"\xff\"}}]}\n");
    assert_eq!(out, vec!["\u{fffd}".to_string()]);
    assert_eq!(d.full_text(), "h\u{e9}\u{fffd}");
}

#[test]
fn decoder_byte_chunks_at_char_boundaries() {
    let body = "data: {\"choices\":[{\"delta\":{\"content\":\"\u{e9}t\u{e9}\"}}]}\ndata: [DONE]\n";
    let bytes = body.as_bytes();
    let mut whole = StreamDecoder::new();
    whole.push_bytes(bytes);
    let mut pieces = StreamDecoder::new();
    let mut start = 0;
    for end in 1..=bytes.len() {
        if body.is_char_boundary(end) {
            pieces.push_bytes(&bytes[start..end]);
            start = end;
        }
    }
    assert_eq!(whole.full_text(), "\u{e9}t\u{e9}");
    assert_eq!(pieces.full_text(), whole.full_text());
    assert!(pieces.is_done());
}
