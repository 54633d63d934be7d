use trapop::capture::{build_result, capture_selection, capture_source, flavor_from_bytes, CaptureFlavor, CaptureSource};
use trapop::engine::TranslationChunk;
use trapop::registry::TranslationRegistry;
use trapop::session::{empty_input_event, unavailable_event, TranslationSession};
use trapop::window::{is_new_panel_url, is_panel_label, numbered_label};

#[test]
fn superseding_a_stream_cancels_its_sender() {
    let mut registry = TranslationRegistry::new();
    assert_eq!(registry.begin("main", 1, "tx1"), None);
    assert_eq!(registry.begin("main", 2, "tx2"), Some("tx1"));
}

#[test]
fn finish_ignores_stale_generation() {
    let mut registry = TranslationRegistry::new();
    registry.begin("main", 1, "tx1");
    registry.begin("main", 2, "tx2");
    registry.finish("main", 1);
    assert_eq!(registry.cancel("main", None), Some("tx2"));
    assert_eq!(registry.cancel("main", None), None);
}

#[test]
fn stale_cancel_does_not_kill_the_new_generation() {
    let mut registry = TranslationRegistry::new();
    registry.begin("main", 2, "tx2");
    assert_eq!(registry.cancel("main", Some(1)), None);
    assert_eq!(registry.cancel("main", Some(2)), Some("tx2"));
    registry.begin("panel-0", 5, "p");
    registry.finish("panel-0", 5);
    assert_eq!(registry.cancel("panel-0", None), None);
}

#[test]
fn windows_do_not_interfere() {
    let mut registry = TranslationRegistry::new();
    registry.begin("a", 1, 10);
    registry.begin("b", 1, 20);
    assert_eq!(registry.cancel("a", Some(1)), Some(10));
    assert_eq!(registry.cancel("b", Some(1)), Some(20));
}

#[test]
fn session_accumulates_text_until_done() {
    let mut s = TranslationSession::new(7);
    let ev = s.on_chunk(TranslationChunk::text("Hello "));
    assert_eq!((ev.request_id, ev.text.as_str(), ev.done, ev.error), (7, "Hello ", false, false));
    s.on_chunk(TranslationChunk::text("world"));
    let ev = s.on_chunk(TranslationChunk::done());
    assert!(ev.done && s.is_stopped());
    assert_eq!(s.history_text(), Some("Hello world".to_string()));
}

#[test]
fn session_errors_are_not_recorded() {
    let mut s = TranslationSession::new(1);
    s.on_chunk(TranslationChunk::text("part"));
    let ev = s.on_chunk(TranslationChunk::error("boom"));
    assert!(ev.error && ev.done);
    assert_eq!(s.history_text(), None);

    let mut s = TranslationSession::new(2);
    s.on_chunk(TranslationChunk::text("part"));
    let ev = s.on_channel_closed();
    assert_eq!(ev.text, "翻訳が中断されました。再試行してください。");
    assert!(ev.error && ev.done && s.is_stopped());
    assert_eq!(s.history_text(), None);

    let mut s = TranslationSession::new(3);
    s.on_chunk(TranslationChunk::text("  "));
    s.on_chunk(TranslationChunk::done());
    assert_eq!(s.history_text(), None);

    let mut s = TranslationSession::new(4);
    s.on_chunk(TranslationChunk::text("x"));
    s.on_cancel();
    assert!(s.is_stopped());
    assert_eq!(s.history_text(), None);

    let ev = empty_input_event(9);
    assert!(ev.done && !ev.error && ev.text.is_empty() && ev.request_id == 9);
    let ev = unavailable_event(9, "why".to_string());
    assert!(ev.done && ev.error && ev.text == "why");
}

#[test]
fn capture_picks_plain_text_and_html() {
    let flavors = vec![
        CaptureFlavor { flavor: "public.rtf".into(), content: "r".into() },
        flavor_from_bytes("public.utf8-plain-text".into(), "plain".as_bytes()),
        CaptureFlavor { flavor: "public.html".into(), content: "<b>h</b>".into() },
        CaptureFlavor { flavor: "public.utf8-plain-text".into(), content: "second".into() },
    ];
    let r = build_result(flavors, CaptureSource::Selection);
    assert_eq!(r.plain_text.as_deref(), Some("plain"));
    assert_eq!(r.html.as_deref(), Some("<b>h</b>"));
    assert_eq!(r.flavors.len(), 4);
    assert!(capture_selection(Ok(r)).is_ok());

    let r = build_result(vec![], CaptureSource::Clipboard);
    assert_eq!(capture_selection(Ok(r)).err().as_deref(), Some("clipboard_empty"));
    assert_eq!(capture_selection(Err("x".to_string())).err().as_deref(), Some("x"));
    assert_eq!(flavor_from_bytes("t".into(), &[0x61, 0xfe]).content, "a\u{FFFD}");
    assert_eq!(capture_source(3, 4), CaptureSource::Selection);
    assert_eq!(capture_source(3, 3), CaptureSource::Clipboard);
}

#[test]
fn window_names_and_deep_links() {
    assert!(is_new_panel_url("trapop", Some("new"), ""));
    assert!(is_new_panel_url("trapop", Some("new"), "/"));
    assert!(!is_new_panel_url("trapop", Some("new"), "/other"));
    assert!(!is_new_panel_url("trapop", Some("settings"), ""));
    assert!(!is_new_panel_url("https", Some("new"), ""));
    assert!(!is_new_panel_url("trapop", None, ""));
    assert!(is_panel_label("panel-3") && !is_panel_label("main"));
    assert_eq!(numbered_label("panel-", 12), "panel-12");
}
