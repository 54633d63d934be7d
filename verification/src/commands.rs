//! Validation of what the settings screen submits, before anything is saved.
use crate::engine::gemini::{is_safe_model, is_safe_model_name};
use crate::text::{chars_of, is_control, is_control_char, str_eq, trim, trim_str};
use vstd::prelude::*;

verus! {

/// Longest accepted language name, in characters.
pub const MAX_LANG_NAME_CHARS: usize = 20;

/// A language name fit to be embedded in the system prompt.
pub open spec fn lang_name_ok(l: Seq<char>) -> bool {
    l.len() <= MAX_LANG_NAME_CHARS && forall|i: int| 0 <= i < l.len() ==> !is_control(#[trigger] l[i])
}

fn lang_name_ok_str(l: &str) -> (b: bool)
    ensures
        b == lang_name_ok(l@),
{
    let v = chars_of(l);
    if v.len() > MAX_LANG_NAME_CHARS {
        return false;
    }
    let mut i: usize = 0;
    while i < v.len()
        invariant
            i <= v.len(),
            v@ == l@,
            forall|j: int| 0 <= j < i ==> !is_control(#[trigger] v@[j]),
        decreases v.len() - i,
    {
        if is_control_char(v[i]) {
            return false;
        }
        i += 1;
    }
    true
}

/// A name is refused for its length and its control characters only: one
/// of at most 20 characters with no control character is accepted,
/// whatever else it holds (spaces, punctuation, any script).
pub proof fn lemma_lang_name_rule(l: Seq<char>)
    ensures
        lang_name_ok(l) <==> (l.len() <= 20 && forall|i: int| 0 <= i < l.len() ==> !is_control(#[trigger] l[i])),
{
}

/// Checks a language pair: both trimmed names non-empty, different, at most
/// `MAX_LANG_NAME_CHARS` characters and free of control characters.
/// Returns the trimmed names.
pub fn validate_lang_pair(lang_a: &str, lang_b: &str) -> (r: Result<(String, String), String>)
    ensures
        r is Ok <==> ({
            let a = trim(lang_a@);
            let b = trim(lang_b@);
            &&& a.len() > 0 && b.len() > 0 && a != b
            &&& a.len() <= 20 && forall|i: int| 0 <= i < a.len() ==> !is_control(#[trigger] a[i])
            &&& b.len() <= 20 && forall|i: int| 0 <= i < b.len() ==> !is_control(#[trigger] b[i])
        }),
        ({
            let a = trim(lang_a@);
            let b = trim(lang_b@);
            &&& (a.len() == 0 || b.len() == 0) ==> (r matches Err(m) && m@ == "言語名が空です"@)
            &&& (a.len() > 0 && b.len() > 0 && a == b) ==> (r matches Err(m) && m@ == "同じ言語同士は指定できません"@)
            &&& (a.len() > 0 && b.len() > 0 && a != b && !(lang_name_ok(a) && lang_name_ok(b))) ==> (r matches Err(m)
                && m@ == "言語名が不正です(20文字以内・制御文字不可)"@)
            &&& (a.len() > 0 && b.len() > 0 && a != b && lang_name_ok(a) && lang_name_ok(b)) ==> (r matches Ok(p)
                && p.0@ == a && p.1@ == b)
        }),
{
    let a = trim_str(lang_a);
    let b = trim_str(lang_b);
    if a.as_str().is_empty() || b.as_str().is_empty() {
        return Err("言語名が空です".to_owned());
    }
    if str_eq(a.as_str(), b.as_str()) {
        return Err("同じ言語同士は指定できません".to_owned());
    }
    if !lang_name_ok_str(a.as_str()) || !lang_name_ok_str(b.as_str()) {
        return Err("言語名が不正です(20文字以内・制御文字不可)".to_owned());
    }
    Ok((a, b))
}

/// The stored model override: blank means none; otherwise the trimmed name,
/// which must consist of ASCII letters, digits, `.`, `-` and `_`.
pub fn normalize_model_override(model: Option<&str>) -> (r: Result<Option<String>, String>)
    ensures
        match model {
            None => r matches Ok(None),
            Some(m) => if trim(m@).len() == 0 {
                r matches Ok(None)
            } else if is_safe_model(trim(m@)) {
                r matches Ok(Some(t)) && t@ == trim(m@)
            } else {
                r matches Err(e) && e@ == "モデル名に使用できない文字が含まれています(英数字と . - _ のみ)"@
            },
        },
{
    match model {
        None => Ok(None),
        Some(m) => {
            let t = trim_str(m);
            if t.as_str().is_empty() {
                Ok(None)
            } else if is_safe_model_name(t.as_str()) {
                Ok(Some(t))
            } else {
                Err("モデル名に使用できない文字が含まれています(英数字と . - _ のみ)".to_owned())
            }
        },
    }
}

/// The stored custom prompt: the trimmed text, or none when blank (the
/// built-in prompt is then used).
pub fn normalize_custom_prompt(prompt: Option<&str>) -> (r: Option<String>)
    ensures
        match prompt {
            None => r is None,
            Some(p) => if trim(p@).len() == 0 {
                r is None
            } else {
                r matches Some(t) && t@ == trim(p@)
            },
        },
{
    match prompt {
        None => None,
        Some(p) => {
            let t = trim_str(p);
            if t.as_str().is_empty() {
                None
            } else {
                Some(t)
            }
        },
    }
}

/// A provider whose API key can be stored or whose models can be listed.
#[derive(PartialEq, Eq, Structural, Debug, Clone, Copy)]
pub enum Provider {
    OpenAi,
    Gemini,
}

/// The provider with the given name.
pub open spec fn provider_named(name: Seq<char>) -> Option<Provider> {
    if name == "openai"@ {
        Some(Provider::OpenAi)
    } else if name == "gemini"@ {
        Some(Provider::Gemini)
    } else {
        None
    }
}

/// Checks an API key submission: the trimmed key and its provider.
pub fn validate_api_key_input(provider: &str, key: &str) -> (r: Result<(Provider, String), String>)
    ensures
        trim(key@).len() == 0 ==> (r matches Err(m) && m@ == "APIキーが空です"@),
        trim(key@).len() > 0 && provider_named(provider@) is None ==> (r matches Err(m) && m@
            == "未知のエンジン指定です: "@ + provider@),
        trim(key@).len() > 0 ==> (provider_named(provider@) matches Some(p) ==> (r matches Ok(v) && v.0
            == p && v.1@ == trim(key@))),
{
    let trimmed = trim_str(key);
    if trimmed.as_str().is_empty() {
        return Err("APIキーが空です".to_owned());
    }
    match provider_for(provider) {
        Some(p) => Ok((p, trimmed)),
        None => {
            let mut m = "未知のエンジン指定です: ".to_owned();
            m.append(provider);
            Err(m)
        },
    }
}

/// The provider with the given name, if any.
pub fn provider_for(name: &str) -> (r: Option<Provider>)
    ensures
        r == provider_named(name@),
{
    if str_eq(name, "openai") {
        Some(Provider::OpenAi)
    } else if str_eq(name, "gemini") {
        Some(Provider::Gemini)
    } else {
        None
    }
}

/// The provider whose model list is asked for; an error naming an unknown one.
pub fn model_list_provider(name: &str) -> (r: Result<Provider, String>)
    ensures
        provider_named(name@) matches Some(p) ==> r == Ok::<Provider, String>(p),
        provider_named(name@) is None ==> (r matches Err(m) && m@ == "不明なプロバイダです: "@ + name@),
{
    match provider_for(name) {
        Some(p) => Ok(p),
        None => {
            let mut m = "不明なプロバイダです: ".to_owned();
            m.append(name);
            Err(m)
        },
    }
}

} // verus!
