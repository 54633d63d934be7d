use trapop::engine::gemini::{self, GeminiEngine};
use trapop::engine::keys::{keychain_add_command, keychain_api_key, resolve_api_key};
use trapop::engine::mock::{fixed_translation, structure_preserving_mock, MockEngine};
use trapop::engine::openai::{self, OpenAiEngine};
use trapop::engine::{
    effective_engine_label, engine_error_chunk, needs_gemini_key, needs_openai_key, resolve, stream_end_chunk,
    stream_step, EngineKind, TranslationInput,
};

fn texts(out: &trapop::engine::EventOutcome) -> Vec<(String, bool, bool)> {
    out.chunks.iter().map(|c| (c.text.clone(), c.done, c.error)).collect()
}

#[test]
fn openai_event_yields_deltas_and_stops_at_done() {
    let event = "data: {\"choices\":[{\"delta\":{\"content\":\"Hel\"}}]}\n\
                 data: {\"choices\":[{\"delta\":{\"content\":\"\"}}]}\n\
                 data: not json\n\
                 : comment\n\
                 data: {\"choices\":[{\"delta\":{\"content\":\"lo\"}}]}\r\n\
                 data: [DONE]\n\
                 data: {\"choices\":[{\"delta\":{\"content\":\"late\"}}]}\n\n";
    let out = openai::forward_event(event);
    assert!(out.finished);
    assert_eq!(
        texts(&out),
        vec![
            ("Hel".to_string(), false, false),
            ("lo".to_string(), false, false),
            (String::new(), true, false)
        ]
    );
}

#[test]
fn positional_steps_read_arrays_only() {
    let event = "data: {\"choices\":{\"0\":{\"delta\":{\"content\":\"x\"}}}}\n\n";
    let out = openai::forward_event(event);
    assert!(!out.finished);
    assert!(out.chunks.is_empty());
    let event = "data: {\"candidates\":[{\"content\":{\"parts\":{\"0\":{\"text\":\"y\"}}}}]}\n\n";
    assert!(gemini::forward_event(event).chunks.is_empty());
    let event = "data: {\"candidates\":{\"0\":{\"content\":{\"parts\":[{\"text\":\"y\"}]}}}}\n\n";
    assert!(gemini::forward_event(event).chunks.is_empty());
}

#[test]
fn gemini_event_yields_texts_and_never_finishes() {
    let event = "data: {\"candidates\":[{\"content\":{\"parts\":[{\"text\":\"こんにちは\"}]}}]}\r\n\r\n";
    let out = gemini::forward_event(event);
    assert!(!out.finished);
    assert_eq!(texts(&out), vec![("こんにちは".to_string(), false, false)]);
    let out = gemini::forward_event("data: [DONE]\n\n");
    assert!(!out.finished);
    assert!(out.chunks.is_empty());
}

#[test]
fn openai_model_list_is_filtered_and_sorted() {
    let body = r#"{"data":[{"id":"gpt-4o"},{"id":"whisper-1"},{"id":"o3-mini"},{"id":"gpt-4o-audio-preview"},{"id":"dall-e-3"},{"id":"gpt-4.1"},{"id":"text-embedding-3"},{"object":"x"}]}"#;
    assert_eq!(
        openai::parse_model_list(body).unwrap(),
        vec!["gpt-4.1".to_string(), "gpt-4o".to_string(), "o3-mini".to_string()]
    );
    assert_eq!(openai::parse_model_list(r#"{"other":1}"#).unwrap(), Vec::<String>::new());
    assert!(openai::parse_model_list("not json").is_err());
}

#[test]
fn gemini_model_list_puts_latest_aliases_first() {
    let body = r#"{"models":[
        {"name":"models/gemini-2.5-pro","supportedGenerationMethods":["generateContent","countTokens"]},
        {"name":"models/gemini-flash-latest","supportedGenerationMethods":["generateContent"]},
        {"name":"models/gemini-2.5-flash-image","supportedGenerationMethods":["generateContent"]},
        {"name":"models/embedding-001","supportedGenerationMethods":["embedContent"]},
        {"name":"models/gemini-pro-latest","supportedGenerationMethods":["generateContent"]},
        {"name":"models/gemini-2.0-flash","supportedGenerationMethods":["countTokens"]},
        {"name":"tunedModels/gemini-x","supportedGenerationMethods":["generateContent"]}
    ]}"#;
    assert_eq!(
        gemini::parse_model_list(body).unwrap(),
        vec![
            "gemini-flash-latest".to_string(),
            "gemini-pro-latest".to_string(),
            "gemini-2.5-pro".to_string()
        ]
    );
    assert!(gemini::parse_model_list("{").is_err());
}

#[test]
fn openai_settings_pick_model() {
    let e = OpenAiEngine::from_environment(Some("k".into()), Some("  "), Some("env-model".into()), None)
        .ok()
        .unwrap();
    assert_eq!(e.model(), "env-model");
    assert_eq!(e.api_key(), "k");
    let e = OpenAiEngine::from_environment(Some("k".into()), Some("gpt-x"), None, Some("p")).ok().unwrap();
    assert_eq!(e.model(), "gpt-x");
    assert_eq!(e.custom_prompt(), Some("p"));
    let e = OpenAiEngine::from_environment(Some("k".into()), None, None, None).ok().unwrap();
    assert_eq!(e.model(), openai::DEFAULT_MODEL);
    assert!(OpenAiEngine::from_environment(None, None, None, None).is_err());
}

#[test]
fn from_environment_errors_without_api_key() {
    let result = GeminiEngine::from_environment(None, None, None, None);
    assert!(result.is_err());
}

#[test]
fn gemini_settings_reject_unsafe_model_names() {
    let e = GeminiEngine::from_environment(Some("k".into()), Some("a/b?c"), Some("ok-model".into()), None)
        .ok()
        .unwrap();
    assert_eq!(e.model(), gemini::DEFAULT_MODEL);
    let e = GeminiEngine::from_environment(Some("k".into()), None, Some("gemini-2.5-pro".into()), None)
        .ok()
        .unwrap();
    assert_eq!(e.model(), "gemini-2.5-pro");
    assert!(gemini::is_safe_model_name("gemini_1.5-pro"));
    assert!(!gemini::is_safe_model_name(""));
    assert!(!gemini::is_safe_model_name("a#b"));
}

#[test]
fn resolution_follows_choice_and_keys() {
    let oa = || OpenAiEngine::from_environment(Some("k".into()), None, None, None);
    let ge = || GeminiEngine::from_environment(Some("k".into()), None, None, None);
    let none_oa = || OpenAiEngine::from_environment(None, None, None, None);
    let none_ge = || GeminiEngine::from_environment(None, None, None, None);

    let r = resolve("auto", oa(), ge());
    assert!(matches!(r.engine, EngineKind::OpenAi(_)) && r.unavailable_reason.is_none());
    let r = resolve("auto", none_oa(), ge());
    assert!(matches!(r.engine, EngineKind::Gemini(_)));
    let r = resolve("auto", none_oa(), none_ge());
    assert!(matches!(r.engine, EngineKind::Mock(_)));
    assert_eq!(
        r.unavailable_reason.as_deref(),
        Some("OpenAI または Gemini のAPIキーが未設定です。設定画面から登録してください。")
    );
    assert_eq!(effective_engine_label(&r), "未設定");
    let r = resolve("gemini", oa(), none_ge());
    assert_eq!(r.unavailable_reason.as_deref(), Some("Gemini のAPIキーが未設定です。設定画面から登録してください。"));
    let r = resolve("openai", none_oa(), ge());
    assert_eq!(r.unavailable_reason.as_deref(), Some("OpenAI のAPIキーが未設定です。設定画面から登録してください。"));
    let r = resolve("mock", none_oa(), none_ge());
    assert!(r.unavailable_reason.is_none());
    assert_eq!(effective_engine_label(&r), "mock");

    assert!(!needs_openai_key("mock") && !needs_openai_key("gemini") && needs_openai_key("auto"));
    assert!(needs_gemini_key("auto", false) && !needs_gemini_key("auto", true));
    assert!(needs_gemini_key("gemini", true) && !needs_gemini_key("openai", false));
}

#[test]
fn streams_chunks_and_terminates_with_done() {
    let engine = MockEngine;
    let chunks = engine.chunks(&TranslationInput::PlainText("hello world".to_string()));
    let last = chunks.last().unwrap();
    assert!(last.done && !last.error);
    let text: String = chunks.iter().map(|c| c.text.as_str()).collect();
    assert_eq!(text, fixed_translation("hello world"));
    assert!(chunks[..chunks.len() - 1].iter().all(|c| !c.done));
    assert!(chunks.len() > 2);
}

#[test]
fn preserves_html_structure_in_stream() {
    let html = "<ul><li>one</li><li>two</li></ul><p><strong>bold</strong></p>";
    let chunks = MockEngine.chunks(&TranslationInput::Html(html.to_string()));
    let text: String = chunks.iter().map(|c| c.text.as_str()).collect();
    assert!(text.contains(html));
    assert_eq!(structure_preserving_mock("<i>x</i>"), "<p>[モック翻訳・構造保持]</p><i>x</i>");
    assert!(fixed_translation(&"あ".repeat(30)).contains(&format!("「{}」", "あ".repeat(24))));
}

#[test]
fn api_key_sources() {
    assert_eq!(resolve_api_key(Some("kc".into()), Some("env".into())), Some("kc".to_string()));
    assert_eq!(resolve_api_key(None, Some("env".into())), Some("env".to_string()));
    assert_eq!(resolve_api_key(None, Some("  ".into())), None);
    assert_eq!(keychain_api_key(true, b"  sk-abc \n".to_vec()), Some("sk-abc".to_string()));
    assert_eq!(keychain_api_key(false, b"sk".to_vec()), None);
    assert_eq!(keychain_api_key(true, b"\n".to_vec()), None);
    assert_eq!(keychain_api_key(true, vec![0xff]), None);
}

#[test]
fn keychain_command_quotes_the_key() {
    assert_eq!(
        keychain_add_command("trapop-openai", "sk-1").unwrap(),
        "add-generic-password -U -a trapop -s \"trapop-openai\" -w \"sk-1\"\n"
    );
    assert!(keychain_add_command("s", "a\"b").is_err());
    assert!(keychain_add_command("s", "a\\b").is_err());
    assert_eq!(keychain_add_command("s", "a\nb").unwrap_err(), "APIキーに使用できない文字が含まれています");
}

#[test]
fn stream_stops_at_the_end_marker_and_ends_once() {
    let (chunks, keep) = stream_step(openai::forward_event("data: {\"choices\":[{\"delta\":{\"content\":\"a\"}}]}\n\n"));
    assert!(keep);
    assert_eq!(chunks.len(), 1);
    assert!(!chunks[0].done);
    let (chunks, keep) = stream_step(openai::forward_event("data: [DONE]\n\n"));
    assert!(!keep);
    assert!(chunks.len() == 1 && chunks[0].done && !chunks[0].error);
    assert!(stream_end_chunk(true).is_none());
    let end = stream_end_chunk(false).unwrap();
    assert!(end.done && !end.error && end.text.is_empty());
    let (_, keep) = stream_step(gemini::forward_event("data: {\"candidates\":[]}\n\n"));
    assert!(keep);
}

#[test]
fn engine_errors_end_the_stream_with_a_reason() {
    let c = engine_error_chunk("timeout");
    assert_eq!(c.text, "翻訳中にエラーが発生しました: timeout");
    assert!(c.done && c.error);
}
