//! The Gemini streaming engine: its settings, the reading of its stream
//! events, and the filtering of its model list.
use super::{chunk_views, contains_any, contains_any_str, event_chunks, line_chunks, EventOutcome};
use crate::json::{
    json_array_len_at, json_error, json_parse_error, json_pointer_array_len, json_pointer_str,
    json_str_at,
};
use crate::text::{
    chars_of, contains, contains_str, dec, is_blank, is_blank_str, lines, radix_string,
    starts_with, str_eq, strip_prefix_str, views,
};
use vstd::prelude::*;

verus! {

/// Model used when none is configured: the alias that always points at the
/// newest flash model, so it does not disappear when a model is retired.
pub const DEFAULT_MODEL: &'static str = "gemini-flash-latest";

/// Environment variable that may name the model.
pub const MODEL_ENV_OVERRIDE: &'static str = "TRAPOP_GEMINI_MODEL";

/// Keychain service under which the API key is stored.
pub const KEYCHAIN_SERVICE: &'static str = "trapop-gemini";

/// Environment variable that may hold the API key.
pub const API_KEY_ENV: &'static str = "GEMINI_API_KEY";

/// Base of the model endpoints.
pub const ENDPOINT_BASE: &'static str = "https://generativelanguage.googleapis.com/v1beta/models";

/// Where a stream event carries its text.
pub const TEXT_POINTER: &'static str = "/candidates/0/content/parts/0/text";

/// No API key in the keychain nor in the environment.
pub struct MissingApiKeyError;

impl MissingApiKeyError {
    /// The message shown for this error.
    pub fn message(&self) -> (m: String)
        ensures
            m@ == "APIキーが未設定です。設定画面から登録してください。"@,
    {
        "APIキーが未設定です。設定画面から登録してください。".to_owned()
    }
}

/// A character allowed in a model name: ASCII letters and digits, `.`, `-`, `_`.
pub open spec fn is_model_name_char(c: char) -> bool {
    ||| ('a' <= c <= 'z')
    ||| ('A' <= c <= 'Z')
    ||| ('0' <= c <= '9')
    ||| c == '.'
    ||| c == '-'
    ||| c == '_'
}

/// A model name that cannot alter the endpoint URL it is joined into.
pub open spec fn is_safe_model(m: Seq<char>) -> bool {
    m.len() > 0 && forall|i: int| 0 <= i < m.len() ==> is_model_name_char(#[trigger] m[i])
}

/// Whether a model name is non-empty and only holds ASCII letters, digits,
/// `.`, `-` and `_`.
pub fn is_safe_model_name(model: &str) -> (b: bool)
    ensures
        b == is_safe_model(model@),
{
    let v = chars_of(model);
    if v.len() == 0 {
        return false;
    }
    let mut i: usize = 0;
    while i < v.len()
        invariant
            i <= v.len(),
            v@ == model@,
            forall|j: int| 0 <= j < i ==> is_model_name_char(#[trigger] v@[j]),
        decreases v.len() - i,
    {
        let c = v[i];
        let ok = ('a' <= c && c <= 'z') || ('A' <= c && c <= 'Z') || ('0' <= c && c <= '9') || c
            == '.' || c == '-' || c == '_';
        if !ok {
            return false;
        }
        i += 1;
    }
    true
}

/// What a translation request to Gemini is made with.
pub struct GeminiEngine {
    custom_prompt: Option<String>,
    api_key: String,
    model: String,
}

/// The model in use: a non-blank override, else the environment's choice;
/// either only when it is a safe name, else the default.
pub open spec fn chosen_model(model_override: Option<Seq<char>>, env_model: Option<Seq<char>>) -> Seq<char> {
    let candidate = match model_override {
        Some(m) if !is_blank(m) => Some(m),
        _ => env_model,
    };
    match candidate {
        Some(m) if is_safe_model(m) => m,
        _ => DEFAULT_MODEL@,
    }
}

impl GeminiEngine {
    pub closed spec fn spec_api_key(&self) -> Seq<char> {
        self.api_key@
    }

    pub closed spec fn spec_model(&self) -> Seq<char> {
        self.model@
    }

    pub closed spec fn spec_custom_prompt(&self) -> Option<Seq<char>> {
        super::openai::opt_string_view(self.custom_prompt)
    }

    /// Settings from the key found (keychain first, then environment), the
    /// configured model override, the model named in the environment and
    /// the custom prompt; fails when no key was found.
    pub fn from_environment(
        api_key: Option<String>,
        model_override: Option<&str>,
        env_model: Option<String>,
        custom_prompt: Option<&str>,
    ) -> (r: Result<Self, MissingApiKeyError>)
        ensures
            r is Ok <==> api_key is Some,
            r matches Ok(e) ==> {
                &&& Some(e.spec_api_key()) == super::openai::opt_string_view(api_key)
                &&& e.spec_model() == chosen_model(super::opt_view(model_override), super::openai::opt_string_view(env_model))
                &&& e.spec_custom_prompt() == super::opt_view(custom_prompt)
                &&& is_safe_model(e.spec_model())
            },
    {
        let api_key = match api_key {
            Some(k) => k,
            None => return Err(MissingApiKeyError),
        };
        let candidate: Option<String> = match model_override {
            Some(m) if !is_blank_str(m) => Some(m.to_owned()),
            _ => env_model,
        };
        proof {
            reveal_strlit("gemini-flash-latest");
        }
        let model: String = match candidate {
            Some(m) if is_safe_model_name(m.as_str()) => m,
            _ => {
                let d = DEFAULT_MODEL.to_owned();
                assert(is_safe_model(d@)) by {
                    assert forall|i: int| 0 <= i < d@.len() implies is_model_name_char(#[trigger] d@[i]) by {
                        reveal_strlit("gemini-flash-latest");
                    }
                }
                d
            },
        };
        let custom_prompt: Option<String> = match custom_prompt {
            Some(p) => Some(p.to_owned()),
            None => None,
        };
        Ok(GeminiEngine { custom_prompt, api_key, model })
    }

    pub fn api_key(&self) -> (k: &str)
        ensures
            k@ == self.spec_api_key(),
    {
        self.api_key.as_str()
    }

    pub fn model(&self) -> (m: &str)
        ensures
            m@ == self.spec_model(),
    {
        self.model.as_str()
    }

    pub fn custom_prompt(&self) -> (p: Option<&str>)
        ensures
            super::opt_view(p) == self.spec_custom_prompt(),
    {
        match &self.custom_prompt {
            Some(p) => Some(p.as_str()),
            None => None,
        }
    }
}

/// The first value `TEXT_POINTER` reads by position.
pub const CANDIDATES_ARRAY: &'static str = "/candidates";

/// The second value `TEXT_POINTER` reads by position.
pub const PARTS_ARRAY: &'static str = "/candidates/0/content/parts";

/// The values `TEXT_POINTER` reads by position.
pub open spec fn text_arrays() -> Seq<&'static str> {
    seq![CANDIDATES_ARRAY, PARTS_ARRAY]
}

/// Reads one stream event: the `candidates[0].content.parts[0].text` texts.
/// Gemini ends its stream by closing it, so no line finishes it.
pub fn forward_event(event: &str) -> (out: EventOutcome)
    ensures
        (chunk_views(out.chunks@), out.finished) == line_chunks(lines(event@), text_arrays(), TEXT_POINTER@, None),
{
    let arrays: Vec<&str> = vec![CANDIDATES_ARRAY, PARTS_ARRAY];
    assert(arrays@ == text_arrays());
    event_chunks(event, &arrays, TEXT_POINTER, None)
}

/// Model families that cannot translate through `generateContent`.
pub open spec fn excluded_keywords() -> Seq<&'static str> {
    seq![
        "tts",
        "image",
        "robotics",
        "computer-use",
        "deep-research",
        "embedding",
        "aqa",
        "lyria",
        "nano-banana",
        "antigravity",
    ]
}

/// A listed model name (without its `models/` prefix) that can translate.
pub open spec fn keeps_model(name: Seq<char>) -> bool {
    starts_with(name, "gemini"@) && !contains_any(name, excluded_keywords())
}

/// The pointer to the `i`-th listed model.
pub open spec fn model_pointer(i: nat) -> Seq<char> {
    "/models/"@ + dec(i)
}

/// The pointer to the generation methods of the `i`-th listed model.
pub open spec fn methods_pointer(i: nat) -> Seq<char> {
    model_pointer(i) + "/supportedGenerationMethods"@
}

/// The `i`-th listed model offers `generateContent`.
pub open spec fn supports_generate_content(body: Seq<char>, i: nat) -> bool {
    match json_pointer_array_len(body, methods_pointer(i)) {
        Some(k) => exists|j: nat|
            j < k && #[trigger] json_pointer_str(body, methods_pointer(i) + "/"@ + dec(j)) == Some(
                "generateContent"@,
            ),
        None => false,
    }
}

/// The name of the `i`-th listed model, when it can translate.
pub open spec fn model_entry(body: Seq<char>, i: nat) -> Option<Seq<char>> {
    if supports_generate_content(body, i) {
        match json_pointer_str(body, model_pointer(i) + "/name"@) {
            Some(n) => if starts_with(n, "models/"@) && keeps_model(n.skip(7)) {
                Some(n.skip(7))
            } else {
                None
            },
            None => None,
        }
    } else {
        None
    }
}

/// The names among the first `n` listed models that can translate, in listing order.
pub open spec fn kept_names(body: Seq<char>, n: nat) -> Seq<Seq<char>>
    decreases n,
{
    if n == 0 {
        seq![]
    } else {
        let prev = kept_names(body, (n - 1) as nat);
        match model_entry(body, (n - 1) as nat) {
            Some(name) => prev.push(name),
            None => prev,
        }
    }
}

/// All listed names that can translate, in listing order.
pub open spec fn listed_models(body: Seq<char>) -> Seq<Seq<char>> {
    match json_pointer_array_len(body, "/models"@) {
        Some(n) => kept_names(body, n),
        None => seq![],
    }
}

/// The names that mention `latest`, in order.
pub open spec fn with_latest(s: Seq<Seq<char>>) -> Seq<Seq<char>>
    decreases s.len(),
{
    if s.len() == 0 {
        seq![]
    } else if contains(s.last(), "latest"@) {
        with_latest(s.drop_last()).push(s.last())
    } else {
        with_latest(s.drop_last())
    }
}

/// The names that do not mention `latest`, in order.
pub open spec fn without_latest(s: Seq<Seq<char>>) -> Seq<Seq<char>>
    decreases s.len(),
{
    if s.len() == 0 {
        seq![]
    } else if contains(s.last(), "latest"@) {
        without_latest(s.drop_last())
    } else {
        without_latest(s.drop_last()).push(s.last())
    }
}

/// A name offered for translation: a `gemini…` model outside the speech,
/// image, robotics, computer-use, deep-research, embedding, aqa, lyria,
/// nano-banana and antigravity families.
pub open spec fn translating_name(n: Seq<char>) -> bool {
    &&& starts_with(n, "gemini"@)
    &&& !contains(n, "tts"@)
    &&& !contains(n, "image"@)
    &&& !contains(n, "robotics"@)
    &&& !contains(n, "computer-use"@)
    &&& !contains(n, "deep-research"@)
    &&& !contains(n, "embedding"@)
    &&& !contains(n, "aqa"@)
    &&& !contains(n, "lyria"@)
    &&& !contains(n, "nano-banana"@)
    &&& !contains(n, "antigravity"@)
}

proof fn lemma_kept_name_translates(n: Seq<char>)
    requires
        keeps_model(n),
    ensures
        translating_name(n),
{
    let k = excluded_keywords();
    assert(!contains(n, k[0]@));
    assert(!contains(n, k[1]@));
    assert(!contains(n, k[2]@));
    assert(!contains(n, k[3]@));
    assert(!contains(n, k[4]@));
    assert(!contains(n, k[5]@));
    assert(!contains(n, k[6]@));
    assert(!contains(n, k[7]@));
    assert(!contains(n, k[8]@));
    assert(!contains(n, k[9]@));
}

proof fn lemma_kept_names_translate(body: Seq<char>, n: nat)
    ensures
        forall|i: int| 0 <= i < kept_names(body, n).len() ==> translating_name(#[trigger] kept_names(body, n)[i]),
    decreases n,
{
    if n > 0 {
        lemma_kept_names_translate(body, (n - 1) as nat);
        let prev = kept_names(body, (n - 1) as nat);
        match model_entry(body, (n - 1) as nat) {
            Some(name) => {
                let full = json_pointer_str(body, model_pointer((n - 1) as nat) + "/name"@)->0;
                assert(keeps_model(full.skip(7)));
                lemma_kept_name_translates(name);
                assert forall|i: int| 0 <= i < kept_names(body, n).len() implies translating_name(#[trigger] kept_names(body, n)[i]) by {
                    if i < prev.len() {
                        assert(kept_names(body, n)[i] == prev[i]);
                    }
                }
            },
            None => {},
        }
    }
}

/// Every name offered is one listed, and the grouping is by `latest`.
proof fn lemma_latest_split(s: Seq<Seq<char>>)
    ensures
        forall|i: int| 0 <= i < with_latest(s).len() ==> s.contains(#[trigger] with_latest(s)[i]) && contains(with_latest(s)[i], "latest"@),
        forall|i: int| 0 <= i < without_latest(s).len() ==> s.contains(#[trigger] without_latest(s)[i]) && !contains(without_latest(s)[i], "latest"@),
        with_latest(s).len() + without_latest(s).len() == s.len(),
    decreases s.len(),
{
    if s.len() > 0 {
        let p = s.drop_last();
        lemma_latest_split(p);
        assert forall|x: Seq<char>| p.contains(x) implies s.contains(x) by {
            let j = choose|j: int| 0 <= j < p.len() && p[j] == x;
            assert(s[j] == x);
        }
        assert(s[s.len() - 1] == s.last());
        if contains(s.last(), "latest"@) {
            assert forall|i: int| 0 <= i < with_latest(s).len() implies s.contains(#[trigger] with_latest(s)[i]) && contains(with_latest(s)[i], "latest"@) by {
                if i < with_latest(p).len() {
                    assert(with_latest(s)[i] == with_latest(p)[i]);
                }
            }
        } else {
            assert forall|i: int| 0 <= i < without_latest(s).len() implies s.contains(#[trigger] without_latest(s)[i]) && !contains(without_latest(s)[i], "latest"@) by {
                if i < without_latest(p).len() {
                    assert(without_latest(s)[i] == without_latest(p)[i]);
                }
            }
        }
    }
}

/// What is offered: only names that can translate; first those that
/// mention `latest`, then the others; and as many as are listed.
pub proof fn lemma_offered_models(body: Seq<char>)
    ensures
        ({
            let l = listed_models(body);
            let v = with_latest(l) + without_latest(l);
            &&& v.len() == l.len()
            &&& forall|i: int| 0 <= i < v.len() ==> translating_name(#[trigger] v[i])
            &&& forall|i: int| 0 <= i < v.len() && contains(v[i], "latest"@) ==> forall|j: int|
                0 <= j < i ==> contains(#[trigger] v[j], "latest"@)
        }),
{
    let l = listed_models(body);
    match json_pointer_array_len(body, "/models"@) {
        Some(n) => lemma_kept_names_translate(body, n),
        None => {},
    }
    lemma_latest_split(l);
    let a = with_latest(l);
    let b = without_latest(l);
    let v = a + b;
    assert forall|i: int| 0 <= i < v.len() implies translating_name(#[trigger] v[i]) by {
        let x = v[i];
        if i < a.len() {
            assert(x == a[i]);
            assert(l.contains(x));
        } else {
            assert(x == b[i - a.len()]);
            assert(l.contains(x));
        }
        let j = choose|j: int| 0 <= j < l.len() && l[j] == x;
        assert(translating_name(l[j]));
    }
    assert forall|i: int| 0 <= i < v.len() && contains(v[i], "latest"@) implies forall|j: int|
        0 <= j < i ==> contains(#[trigger] v[j], "latest"@) by {
        if i >= a.len() {
            assert(v[i] == b[i - a.len()]);
        }
        assert forall|j: int| 0 <= j < i implies contains(#[trigger] v[j], "latest"@) by {
            assert(v[j] == a[j]);
        }
    }
}

fn supports_generate(body: &str, i: usize) -> (b: bool)
    ensures
        b == supports_generate_content(body@, i as nat),
{
    proof {
        reveal_strlit("/models/");
        reveal_strlit("/supportedGenerationMethods");
    }
    let mut base = "/models/".to_owned();
    let digits = radix_string(i as u64, 10);
    base.append(digits.as_str());
    base.append("/supportedGenerationMethods");
    assert(base@ == methods_pointer(i as nat));
    let k: usize = match json_array_len_at(body, base.as_str()) {
        Some(k) => k,
        None => return false,
    };
    let mut j: usize = 0;
    while j < k
        invariant
            j <= k,
            base@ == methods_pointer(i as nat),
            json_pointer_array_len(body@, methods_pointer(i as nat)) == Some(k as nat),
            forall|m: nat|
                m < j ==> #[trigger] json_pointer_str(body@, methods_pointer(i as nat) + "/"@ + dec(m))
                    != Some("generateContent"@),
        decreases k - j,
    {
        let mut pointer = base.clone();
        pointer.append("/");
        let jd = radix_string(j as u64, 10);
        pointer.append(jd.as_str());
        assert(pointer@ == methods_pointer(i as nat) + "/"@ + dec(j as nat));
        let method = json_str_at(body, pointer.as_str());
        if let Some(m) = method {
            if str_eq(m.as_str(), "generateContent") {
                assert(json_pointer_str(body@, methods_pointer(i as nat) + "/"@ + dec(j as nat)) == Some("generateContent"@));
                return true;
            }
        }
        j += 1;
    }
    false
}

fn entry_name(body: &str, i: usize, keywords: &Vec<&str>) -> (r: Option<String>)
    requires
        keywords@ == excluded_keywords(),
    ensures
        match r {
            Some(n) => model_entry(body@, i as nat) == Some(n@),
            None => model_entry(body@, i as nat) is None,
        },
{
    if !supports_generate(body, i) {
        return None;
    }
    proof {
        reveal_strlit("/models/");
        reveal_strlit("/name");
        reveal_strlit("models/");
        reveal_strlit("gemini");
    }
    let mut pointer = "/models/".to_owned();
    let digits = radix_string(i as u64, 10);
    pointer.append(digits.as_str());
    pointer.append("/name");
    assert(pointer@ == model_pointer(i as nat) + "/name"@);
    let full = match json_str_at(body, pointer.as_str()) {
        Some(n) => n,
        None => return None,
    };
    let name = match strip_prefix_str(full.as_str(), "models/") {
        Some(n) => n,
        None => return None,
    };
    if crate::text::starts_with_str(name.as_str(), "gemini") && !contains_any_str(name.as_str(), keywords) {
        Some(name)
    } else {
        None
    }
}

/// Parses a model listing: the models that can translate, those whose name
/// mentions `latest` (the aliases that survive retirements) first, each
/// group in listing order; the parser's message when the body is not JSON.
/// A body without a `models` array lists nothing.
pub fn parse_model_list(body: &str) -> (r: Result<Vec<String>, String>)
    ensures
        r is Err <==> json_error(body@) is Some,
        r matches Err(m) ==> json_error(body@) == Some(m@),
        r matches Ok(v) ==> views(v@) == with_latest(listed_models(body@)) + without_latest(listed_models(body@)),
        r matches Ok(v) ==> forall|i: int| 0 <= i < v@.len() ==> translating_name(#[trigger] v@[i]@),
{
    if let Some(e) = json_parse_error(body) {
        return Err(e);
    }
    let n: usize = match json_array_len_at(body, "/models") {
        Some(n) => n,
        None => 0,
    };
    let ghost total: nat = match json_pointer_array_len(body@, "/models"@) {
        Some(n) => n,
        None => 0,
    };
    assert(listed_models(body@) == kept_names(body@, total));
    let keywords: Vec<&str> = vec![
        "tts",
        "image",
        "robotics",
        "computer-use",
        "deep-research",
        "embedding",
        "aqa",
        "lyria",
        "nano-banana",
        "antigravity",
    ];
    assert(keywords@ == excluded_keywords());
    let mut latest: Vec<String> = Vec::new();
    let mut others: Vec<String> = Vec::new();
    let mut i: usize = 0;
    while i < n
        invariant
            i <= n,
            n == total,
            keywords@ == excluded_keywords(),
            views(latest@) == with_latest(kept_names(body@, i as nat)),
            views(others@) == without_latest(kept_names(body@, i as nat)),
        decreases n - i,
    {
        let ghost prev = kept_names(body@, i as nat);
        if let Some(name) = entry_name(body, i, &keywords) {
            let ghost next = prev.push(name@);
            assert(next.drop_last() =~= prev);
            assert(kept_names(body@, (i + 1) as nat) == next);
            proof {
                reveal_strlit("latest");
            }
            if contains_str(name.as_str(), "latest") {
                let ghost before = latest@;
                let ghost nv = name@;
                latest.push(name);
                assert(views(latest@) =~= views(before).push(nv));
            } else {
                let ghost before = others@;
                let ghost nv = name@;
                others.push(name);
                assert(views(others@) =~= views(before).push(nv));
            }
        }
        i += 1;
    }
    let ghost lv = views(latest@);
    let ghost ov = views(others@);
    latest.append(&mut others);
    assert(views(latest@) =~= lv + ov);
    proof {
        lemma_offered_models(body@);
        assert forall|k: int| 0 <= k < latest@.len() implies translating_name(#[trigger] latest@[k]@) by {
            assert(views(latest@)[k] == latest@[k]@);
        }
    }
    Ok(latest)
}

} // verus!
