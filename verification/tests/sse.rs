use trapop::sse::SseBuffer;

#[test]
fn sse_buffer_handles_multibyte_split_across_chunks() {
    let payload = "data: {\"text\":\"日本語の翻訳\"}\n\n".as_bytes();
    let (first, second) = payload.split_at(payload.len() / 2 + 1);

    let mut buffer = SseBuffer::new();
    buffer.push(first);
    assert!(buffer.next_event().is_none());

    buffer.push(second);
    let event = buffer.next_event().expect("event should be complete");
    assert!(event.contains("日本語の翻訳"));
    assert!(!event.contains('\u{FFFD}'));
}

#[test]
fn sse_buffer_handles_crlf_delimited_events() {
    let mut buffer = SseBuffer::new();
    buffer.push(b"data: one\r\n\r\ndata: two\r\n\r\n");
    assert!(buffer.next_event().unwrap().contains("one"));
    assert!(buffer.next_event().unwrap().contains("two"));
    assert!(buffer.next_event().is_none());
}

#[test]
fn sse_buffer_handles_mixed_lf_and_crlf_events() {
    let mut buffer = SseBuffer::new();
    buffer.push(b"data: one\n\ndata: two\r\n\r\ndata: three\n\n");
    assert!(buffer.next_event().unwrap().contains("one"));
    assert!(buffer.next_event().unwrap().contains("two"));
    assert!(buffer.next_event().unwrap().contains("three"));
    assert!(buffer.next_event().is_none());
}

#[test]
fn sse_buffer_yields_events_in_order() {
    let mut buffer = SseBuffer::new();
    buffer.push(b"data: one\n\ndata: two\n\n");
    assert!(buffer.next_event().unwrap().contains("one"));
    assert!(buffer.next_event().unwrap().contains("two"));
    assert!(buffer.next_event().is_none());
}

#[test]
fn sse_event_keeps_its_delimiter_and_the_rest_waits() {
    let mut buffer = SseBuffer::new();
    buffer.push(b"data: a\r\n\r\ndata: b\n");
    assert_eq!(buffer.next_event().unwrap(), "data: a\r\n\r\n");
    assert!(buffer.next_event().is_none());
    buffer.push(b"\n");
    assert_eq!(buffer.next_event().unwrap(), "data: b\n\n");
}

#[test]
fn sse_earlier_delimiter_wins() {
    let mut buffer = SseBuffer::new();
    buffer.push(b"x\n\ny\r\n\r\n");
    assert_eq!(buffer.next_event().unwrap(), "x\n\n");
    assert_eq!(buffer.next_event().unwrap(), "y\r\n\r\n");
}

#[test]
fn sse_invalid_utf8_is_replaced() {
    let mut buffer = SseBuffer::new();
    buffer.push(&[0x64, 0xff, 0x0a, 0x0a]);
    assert_eq!(buffer.next_event().unwrap(), "d\u{FFFD}\n\n");
}

#[test]
fn sse_same_events_however_the_stream_is_chunked() {
    let stream = "data: α\n\ndata: β\r\n\r\ndata: γ\n\n".as_bytes();
    let mut whole = SseBuffer::new();
    whole.push(stream);
    let mut expected = Vec::new();
    while let Some(e) = whole.next_event() {
        expected.push(e);
    }
    for cut in 0..=stream.len() {
        let mut b = SseBuffer::new();
        let mut got = Vec::new();
        b.push(&stream[..cut]);
        while let Some(e) = b.next_event() {
            got.push(e);
        }
        b.push(&stream[cut..]);
        while let Some(e) = b.next_event() {
            got.push(e);
        }
        assert_eq!(got, expected);
    }
}
