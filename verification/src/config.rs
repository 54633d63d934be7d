//! Settings that the verified logic reads: the engine choice, the output
//! language and the default language pair.  (Window sizes are floating point and live with
//! the application shell.)
use crate::text::str_eq;
use vstd::prelude::*;

verus! {

/// Language A unless configured.
pub const DEFAULT_LANG_A: &'static str = "日本語";

/// Language B unless configured.
pub const DEFAULT_LANG_B: &'static str = "英語";

/// Which translation engine the user selected.
#[derive(PartialEq, Eq, Structural, Debug, Clone, Copy)]
pub enum EngineChoice {
    Auto,
    Openai,
    Gemini,
    Mock,
}

/// The stored name of each choice.
pub open spec fn choice_name(c: EngineChoice) -> Seq<char> {
    match c {
        EngineChoice::Auto => "auto"@,
        EngineChoice::Openai => "openai"@,
        EngineChoice::Gemini => "gemini"@,
        EngineChoice::Mock => "mock"@,
    }
}

impl Default for EngineChoice {
    /// Automatic choice.
    fn default() -> (c: Self)
        ensures
            c == EngineChoice::Auto,
    {
        EngineChoice::Auto
    }
}

impl EngineChoice {
    /// The name stored in the settings file and passed to engine resolution.
    pub fn as_str(&self) -> (s: &'static str)
        ensures
            s@ == choice_name(*self),
    {
        match self {
            EngineChoice::Auto => "auto",
            EngineChoice::Openai => "openai",
            EngineChoice::Gemini => "gemini",
            EngineChoice::Mock => "mock",
        }
    }

    /// The choice with the given stored name; an error naming the value
    /// otherwise.
    pub fn parse(value: &str) -> (r: Result<Self, String>)
        ensures
            r matches Ok(c) ==> choice_name(c) == value@,
            r is Err <==> (forall|c: EngineChoice| choice_name(c) != value@),
            r matches Err(m) ==> m@ == "未知のエンジン指定です: "@ + value@,
    {
        if str_eq(value, "auto") {
            assert(choice_name(EngineChoice::Auto) == value@);
            Ok(EngineChoice::Auto)
        } else if str_eq(value, "openai") {
            assert(choice_name(EngineChoice::Openai) == value@);
            Ok(EngineChoice::Openai)
        } else if str_eq(value, "gemini") {
            assert(choice_name(EngineChoice::Gemini) == value@);
            Ok(EngineChoice::Gemini)
        } else if str_eq(value, "mock") {
            assert(choice_name(EngineChoice::Mock) == value@);
            Ok(EngineChoice::Mock)
        } else {
            let mut m = "未知のエンジン指定です: ".to_owned();
            m.append(value);
            assert forall|c: EngineChoice| choice_name(c) != value@ by {
                match c {
                    EngineChoice::Auto => {},
                    EngineChoice::Openai => {},
                    EngineChoice::Gemini => {},
                    EngineChoice::Mock => {},
                }
            }
            Err(m)
        }
    }
}

/// Distinct choices have distinct stored names.
proof fn lemma_choice_names_distinct(a: EngineChoice, b: EngineChoice)
    ensures
        choice_name(a) == choice_name(b) ==> a == b,
{
    reveal_strlit("auto");
    reveal_strlit("openai");
    reveal_strlit("gemini");
    reveal_strlit("mock");
    if choice_name(a) == choice_name(b) {
        assert(choice_name(a)[0] == choice_name(b)[0]);
    }
}

/// A choice's stored name identifies it: no other choice has that name,
/// and the name is not one that `parse` rejects.  With `parse`'s contract
/// this makes `parse(c.as_str())` return `Ok(c)` for every choice.
pub proof fn lemma_engine_choice_round_trip(c: EngineChoice)
    ensures
        forall|d: EngineChoice| #[trigger] choice_name(d) == choice_name(c) ==> d == c,
        !(forall|d: EngineChoice| choice_name(d) != choice_name(c)),
{
    assert forall|d: EngineChoice| #[trigger] choice_name(d) == choice_name(c) implies d == c by {
        lemma_choice_names_distinct(d, c);
    }
    assert(choice_name(c) == choice_name(c));
}

/// Which language a translation is written in: detected from the input,
/// or always the first or always the second language of the pair.
#[derive(PartialEq, Eq, Structural, Debug, Clone, Copy)]
pub enum TranslationTarget {
    Auto,
    LangA,
    LangB,
}

/// The stored name of each output-language setting.
pub open spec fn target_name(t: TranslationTarget) -> Seq<char> {
    match t {
        TranslationTarget::Auto => "auto"@,
        TranslationTarget::LangA => "lang_a"@,
        TranslationTarget::LangB => "lang_b"@,
    }
}

impl Default for TranslationTarget {
    /// Detected from the input.
    fn default() -> (t: Self)
        ensures
            t == TranslationTarget::Auto,
    {
        TranslationTarget::Auto
    }
}

impl TranslationTarget {
    /// The name stored in the settings file and shown by the settings screen.
    pub fn as_str(&self) -> (s: &'static str)
        ensures
            s@ == target_name(*self),
    {
        match self {
            TranslationTarget::Auto => "auto",
            TranslationTarget::LangA => "lang_a",
            TranslationTarget::LangB => "lang_b",
        }
    }

    /// The setting with the given stored name; an error naming the value
    /// otherwise.
    pub fn parse(value: &str) -> (r: Result<Self, String>)
        ensures
            r matches Ok(t) ==> target_name(t) == value@,
            r is Err <==> (forall|t: TranslationTarget| target_name(t) != value@),
            r matches Err(m) ==> m@ == "未知の翻訳先指定です: "@ + value@,
    {
        if str_eq(value, "auto") {
            assert(target_name(TranslationTarget::Auto) == value@);
            Ok(TranslationTarget::Auto)
        } else if str_eq(value, "lang_a") {
            assert(target_name(TranslationTarget::LangA) == value@);
            Ok(TranslationTarget::LangA)
        } else if str_eq(value, "lang_b") {
            assert(target_name(TranslationTarget::LangB) == value@);
            Ok(TranslationTarget::LangB)
        } else {
            let mut m = "未知の翻訳先指定です: ".to_owned();
            m.append(value);
            assert forall|t: TranslationTarget| target_name(t) != value@ by {
                match t {
                    TranslationTarget::Auto => {},
                    TranslationTarget::LangA => {},
                    TranslationTarget::LangB => {},
                }
            }
            Err(m)
        }
    }
}

/// The language the prompt forces: none when detected automatically, else
/// the chosen language of the pair.
pub open spec fn forced_language(t: TranslationTarget, lang_a: Seq<char>, lang_b: Seq<char>) -> Option<Seq<char>> {
    match t {
        TranslationTarget::Auto => None,
        TranslationTarget::LangA => Some(lang_a),
        TranslationTarget::LangB => Some(lang_b),
    }
}

/// The output language handed to the prompt for a translation.
pub fn output_language(target: TranslationTarget, lang_a: &str, lang_b: &str) -> (r: Option<String>)
    ensures
        crate::engine::openai::opt_string_view(r) == forced_language(target, lang_a@, lang_b@),
{
    match target {
        TranslationTarget::Auto => None,
        TranslationTarget::LangA => Some(lang_a.to_owned()),
        TranslationTarget::LangB => Some(lang_b.to_owned()),
    }
}

/// Distinct settings have distinct stored names.
proof fn lemma_target_names_distinct(a: TranslationTarget, b: TranslationTarget)
    ensures
        target_name(a) == target_name(b) ==> a == b,
{
    reveal_strlit("auto");
    reveal_strlit("lang_a");
    reveal_strlit("lang_b");
    if target_name(a) == target_name(b) {
        assert(target_name(a).len() == target_name(b).len());
        assert(target_name(a)[0] == target_name(b)[0]);
        assert(target_name(a)[5] == target_name(b)[5]);
    }
}

/// A setting's stored name identifies it and is accepted by `parse`, so
/// `parse(t.as_str())` returns `Ok(t)` for every setting.
pub proof fn lemma_translation_target_round_trip(t: TranslationTarget)
    ensures
        forall|u: TranslationTarget| #[trigger] target_name(u) == target_name(t) ==> u == t,
        !(forall|u: TranslationTarget| target_name(u) != target_name(t)),
{
    assert forall|u: TranslationTarget| #[trigger] target_name(u) == target_name(t) implies u == t by {
        lemma_target_names_distinct(u, t);
    }
    assert(target_name(t) == target_name(t));
}

/// The default language A.
pub fn default_lang_a() -> (s: String)
    ensures
        s@ == DEFAULT_LANG_A@,
{
    DEFAULT_LANG_A.to_owned()
}

/// The default language B.
pub fn default_lang_b() -> (s: String)
    ensures
        s@ == DEFAULT_LANG_B@,
{
    DEFAULT_LANG_B.to_owned()
}

} // verus!
