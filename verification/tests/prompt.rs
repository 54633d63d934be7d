use trapop::engine::{system_prompt, user_facing_api_error, TranslationChunk, TranslationInput, DEFAULT_PROMPT_TEMPLATE};

#[test]
fn custom_prompt_replaces_language_placeholders() {
    let prompt = system_prompt(
        "日本語",
        "英語",
        false,
        Some("カジュアルに。{lang_a}⇔{lang_b}"),
        None,
    );
    assert!(prompt.starts_with("カジュアルに。日本語⇔英語"));
}

#[test]
fn custom_prompt_keeps_format_rules_appended() {
    let plain = system_prompt("日本語", "英語", false, Some("カジュアルに"), None);
    assert!(plain.contains("Markdown記法"));
    let html = system_prompt("日本語", "英語", true, Some("カジュアルに"), None);
    assert!(html.contains("入力はHTMLです"));
}

#[test]
fn blank_custom_prompt_falls_back_to_default() {
    let with_blank = system_prompt("日本語", "英語", false, Some("   "), None);
    let with_none = system_prompt("日本語", "英語", false, None, None);
    assert_eq!(with_blank, with_none);
    assert!(with_none.contains("あなたはプロの翻訳者です"));
}

#[test]
fn auto_target_adds_mixed_language_majority_rule() {
    let prompt = system_prompt("日本語", "英語", false, None, None);
    assert!(prompt.contains("文字量の多い主要な言語を入力言語とみなし"));
}

#[test]
fn explicit_target_forces_output_language() {
    let prompt = system_prompt("日本語", "英語", false, None, Some("英語"));
    assert!(prompt.contains("必ず英語で出力してください"));
    assert!(!prompt.contains("文字量の多い主要な言語を入力言語とみなし"));
}

#[test]
fn explicit_target_coexists_with_custom_prompt() {
    let prompt = system_prompt(
        "日本語",
        "英語",
        false,
        Some("カジュアルに訳して"),
        Some("英語"),
    );
    assert!(prompt.starts_with("カジュアルに訳して"));
    assert!(prompt.contains("必ず英語で出力してください"));
}

#[test]
fn html_system_prompt_extends_plain_text_prompt() {
    let plain = system_prompt("日本語", "英語", false, None, None);
    let html = system_prompt("日本語", "英語", true, None, None);
    assert!(html.contains("HTML"));
    assert!(plain.contains("日本語"));
    assert!(plain.contains("英語"));
}

#[test]
fn bidirectional_prompt_mentions_both_languages_and_fallback() {
    let prompt = system_prompt("日本語", "英語", false, None, None);
    assert!(prompt.contains("日本語であれば英語に"));
    assert!(prompt.contains("英語であれば日本語に"));
    assert!(prompt.contains("どちらの言語でもない場合は日本語に"));
}

#[test]
fn plain_text_prompt_forbids_html_tags() {
    let prompt = system_prompt("日本語", "英語", false, None, None);
    assert!(prompt.contains("HTMLタグは出力に一切含めないでください"));
    assert!(prompt.contains("<div>"));
}

#[test]
fn default_prompt_is_filled_in_exactly() {
    let prompt = system_prompt("A", "B", false, None, None);
    let expected = format!(
        "{} 入力に複数の言語が混在する場合は、文字量の多い主要な言語を入力言語とみなし、必ず全文をどちらか一方の言語に統一してください。 入力がMarkdown記法(見出し・リスト・コードフェンス・強調・リンク等)を含む場合は、記法そのものは変更せず本文のテキストのみを翻訳してください。コードフェンス内のコードは翻訳せず原文のまま保持してください。入力はHTMLではありません。<div>・<p>・<span>などのHTMLタグは出力に一切含めないでください。出力はMarkdown記法(または装飾のない平文)のみとしてください。",
        DEFAULT_PROMPT_TEMPLATE.replace("{lang_a}", "A").replace("{lang_b}", "B")
    );
    assert_eq!(prompt, expected);
}

#[test]
fn custom_template_is_trimmed_and_every_placeholder_filled() {
    let prompt = system_prompt("X", "Y", true, Some("  {lang_a}->{lang_b}, {lang_a}!  "), Some("Z"));
    assert!(prompt.starts_with("X->Y, X! 必ずZで出力してください。入力の一部が既にZでも、そのまま残さず自然なZに統一してください。 入力はHTMLです。"));
    assert!(prompt.ends_with("説明文を付けないでください。"));
}

#[test]
fn api_errors_map_typical_statuses() {
    assert_eq!(user_facing_api_error("OpenAI", 401), "OpenAI のAPIキーが無効です。設定画面で確認してください。");
    assert_eq!(user_facing_api_error("OpenAI", 403), "OpenAI のAPIキーが無効です。設定画面で確認してください。");
    assert_eq!(user_facing_api_error("Gemini", 429), "Gemini がレート制限中です。しばらく待って再試行してください。");
    assert_eq!(user_facing_api_error("Gemini", 503), "Gemini 側で障害が発生しています。しばらく待って再試行してください。");
    assert_eq!(user_facing_api_error("Gemini", 404), "Gemini APIエラー(HTTP 404)。再試行してください。");
    assert_eq!(user_facing_api_error("X", 0), "X APIエラー(HTTP 0)。再試行してください。");
}

#[test]
fn chunks_carry_their_flags() {
    let t = TranslationChunk::text("abc");
    assert_eq!((t.text.as_str(), t.done, t.error), ("abc", false, false));
    let d = TranslationChunk::done();
    assert_eq!((d.text.as_str(), d.done, d.error), ("", true, false));
    let e = TranslationChunk::error("boom");
    assert_eq!((e.text.as_str(), e.done, e.error), ("boom", true, true));
}

#[test]
fn paste_prefers_non_blank_html() {
    let i = TranslationInput::from_paste(Some("plain".to_string()), Some("<b>x</b>".to_string())).unwrap();
    assert!(i.is_html());
    assert_eq!(i.body(), "<b>x</b>");
    let i = TranslationInput::from_paste(Some("plain".to_string()), Some(" \n\t".to_string())).unwrap();
    assert!(!i.is_html());
    assert_eq!(i.body(), "plain");
    assert!(TranslationInput::from_paste(Some("\u{3000} ".to_string()), None).is_none());
    assert!(TranslationInput::from_paste(None, None).is_none());
}
