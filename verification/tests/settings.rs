use trapop::commands::{
    model_list_provider, normalize_custom_prompt, normalize_model_override, validate_api_key_input,
    validate_lang_pair, Provider,
};
use trapop::config::{default_lang_a, default_lang_b, output_language, EngineChoice, TranslationTarget};

#[test]
fn engine_choice_round_trips_through_str() {
    for choice in [
        EngineChoice::Auto,
        EngineChoice::Openai,
        EngineChoice::Gemini,
        EngineChoice::Mock,
    ] {
        let parsed = EngineChoice::parse(choice.as_str()).unwrap();
        assert_eq!(parsed, choice);
    }
}

#[test]
fn rejects_unknown_engine_choice() {
    assert!(EngineChoice::parse("anthropic").is_err());
}

#[test]
fn unknown_engine_choice_message_names_it() {
    assert_eq!(EngineChoice::parse("anthropic").unwrap_err(), "未知のエンジン指定です: anthropic");
    assert!(EngineChoice::parse("Auto").is_err());
    assert_eq!(EngineChoice::default(), EngineChoice::Auto);
}

#[test]
fn default_languages() {
    assert_eq!(default_lang_a(), "日本語");
    assert_eq!(default_lang_b(), "英語");
}

#[test]
fn lang_pair_validation() {
    assert_eq!(validate_lang_pair(" 中国語 ", "韓国語"), Ok(("中国語".to_string(), "韓国語".to_string())));
    assert_eq!(validate_lang_pair("  ", "英語").unwrap_err(), "言語名が空です");
    assert_eq!(validate_lang_pair("英語", " 英語").unwrap_err(), "同じ言語同士は指定できません");
    assert_eq!(
        validate_lang_pair(&"a".repeat(21), "英語").unwrap_err(),
        "言語名が不正です(20文字以内・制御文字不可)"
    );
    assert_eq!(validate_lang_pair("a\u{7}b", "英語").unwrap_err(), "言語名が不正です(20文字以内・制御文字不可)");
    assert!(validate_lang_pair(&"語".repeat(20), "英語").is_ok());
}

#[test]
fn model_override_normalization() {
    assert_eq!(normalize_model_override(None), Ok(None));
    assert_eq!(normalize_model_override(Some("   ")), Ok(None));
    assert_eq!(normalize_model_override(Some(" gpt-4.1 ")), Ok(Some("gpt-4.1".to_string())));
    assert_eq!(
        normalize_model_override(Some("a/b")).unwrap_err(),
        "モデル名に使用できない文字が含まれています(英数字と . - _ のみ)"
    );
}

#[test]
fn custom_prompt_normalization() {
    assert_eq!(normalize_custom_prompt(Some(" \n ")), None);
    assert_eq!(normalize_custom_prompt(Some(" 訳して ")), Some("訳して".to_string()));
    assert_eq!(normalize_custom_prompt(None), None);
}

#[test]
fn api_key_input_validation() {
    assert_eq!(validate_api_key_input("openai", " sk-1 "), Ok((Provider::OpenAi, "sk-1".to_string())));
    assert_eq!(validate_api_key_input("gemini", "k"), Ok((Provider::Gemini, "k".to_string())));
    assert_eq!(validate_api_key_input("openai", "  ").unwrap_err(), "APIキーが空です");
    assert_eq!(validate_api_key_input("anthropic", "k").unwrap_err(), "未知のエンジン指定です: anthropic");
    assert_eq!(model_list_provider("gemini"), Ok(Provider::Gemini));
    assert_eq!(model_list_provider("x").unwrap_err(), "不明なプロバイダです: x");
}

#[test]
fn translation_target_round_trips_and_picks_language() {
    for t in [TranslationTarget::Auto, TranslationTarget::LangA, TranslationTarget::LangB] {
        assert_eq!(TranslationTarget::parse(t.as_str()), Ok(t));
    }
    assert_eq!(TranslationTarget::LangA.as_str(), "lang_a");
    assert_eq!(
        TranslationTarget::parse("english"),
        Err("未知の翻訳先指定です: english".to_string())
    );
    assert_eq!(output_language(TranslationTarget::Auto, "日本語", "英語"), None);
    assert_eq!(output_language(TranslationTarget::LangA, "日本語", "英語").as_deref(), Some("日本語"));
    assert_eq!(output_language(TranslationTarget::LangB, "日本語", "英語").as_deref(), Some("英語"));
}
