//! The OpenAI chat-completions engine: its settings, the reading of its
//! stream events, and the filtering of its model list.
use super::{event_chunks, line_chunks, contains_any, contains_any_str, EventOutcome, chunk_views};
use crate::json::{json_array_len_at, json_error, json_parse_error, json_pointer_array_len, json_pointer_str, json_str_at};
use crate::text::{
    contains, dec, is_blank, is_blank_str, lines, radix_string, starts_with, starts_with_str, str_less,
    str_lt, chars_of, views, lemma_str_lt_irreflexive, lemma_str_lt_transitive,
};
use vstd::prelude::*;

verus! {

broadcast use vstd::seq_lib::group_to_multiset_ensures;

/// Model used when none is configured.
pub const DEFAULT_MODEL: &'static str = "gpt-4.1-mini";

/// Environment variable that may name the model.
pub const MODEL_ENV_OVERRIDE: &'static str = "TRAPOP_OPENAI_MODEL";

/// Keychain service under which the API key is stored.
pub const KEYCHAIN_SERVICE: &'static str = "trapop-openai";

/// Environment variable that may hold the API key.
pub const API_KEY_ENV: &'static str = "OPENAI_API_KEY";

/// Streaming chat-completions endpoint.
pub const ENDPOINT: &'static str = "https://api.openai.com/v1/chat/completions";

/// Model-listing endpoint.
pub const MODELS_ENDPOINT: &'static str = "https://api.openai.com/v1/models";

/// Where a stream event carries its text.
pub const CONTENT_POINTER: &'static str = "/choices/0/delta/content";

/// Payload that ends the stream.
pub const DONE_MARKER: &'static str = "[DONE]";

/// No API key in the keychain nor in the environment.
pub struct MissingApiKeyError;

impl MissingApiKeyError {
    /// The message shown for this error.
    pub fn message(&self) -> (m: String)
        ensures
            m@ == "APIキーが未設定です。設定画面から登録してください。"@,
    {
        "APIキーが未設定です。設定画面から登録してください。".to_owned()
    }
}

/// What a translation request to OpenAI is made with.
pub struct OpenAiEngine {
    api_key: String,
    model: String,
    custom_prompt: Option<String>,
}

/// The model in use: a non-blank override, else the environment's choice,
/// else the default.
pub open spec fn chosen_model(model_override: Option<Seq<char>>, env_model: Option<Seq<char>>) -> Seq<char> {
    match model_override {
        Some(m) if !is_blank(m) => m,
        _ => match env_model {
            Some(m) => m,
            None => DEFAULT_MODEL@,
        },
    }
}

pub open spec fn opt_string_view(s: Option<String>) -> Option<Seq<char>> {
    match s {
        Some(t) => Some(t@),
        None => None,
    }
}

impl OpenAiEngine {
    pub closed spec fn spec_api_key(&self) -> Seq<char> {
        self.api_key@
    }

    pub closed spec fn spec_model(&self) -> Seq<char> {
        self.model@
    }

    pub closed spec fn spec_custom_prompt(&self) -> Option<Seq<char>> {
        opt_string_view(self.custom_prompt)
    }

    /// Settings from the key found (keychain first, then environment), the
    /// configured model override, the model named in the environment and
    /// the custom prompt; fails when no key was found.
    pub fn from_environment(
        api_key: Option<String>,
        model_override: Option<&str>,
        env_model: Option<String>,
        custom_prompt: Option<&str>,
    ) -> (r: Result<Self, MissingApiKeyError>)
        ensures
            r is Ok <==> api_key is Some,
            r matches Ok(e) ==> {
                &&& Some(e.spec_api_key()) == opt_string_view(api_key)
                &&& e.spec_model() == chosen_model(super::opt_view(model_override), opt_string_view(env_model))
                &&& e.spec_custom_prompt() == super::opt_view(custom_prompt)
            },
    {
        let api_key = match api_key {
            Some(k) => k,
            None => return Err(MissingApiKeyError),
        };
        let model: String = match model_override {
            Some(m) if !is_blank_str(m) => m.to_owned(),
            _ => match env_model {
                Some(m) => m,
                None => DEFAULT_MODEL.to_owned(),
            },
        };
        let custom_prompt: Option<String> = match custom_prompt {
            Some(p) => Some(p.to_owned()),
            None => None,
        };
        Ok(OpenAiEngine { api_key, model, custom_prompt })
    }

    pub fn api_key(&self) -> (k: &str)
        ensures
            k@ == self.spec_api_key(),
    {
        self.api_key.as_str()
    }

    pub fn model(&self) -> (m: &str)
        ensures
            m@ == self.spec_model(),
    {
        self.model.as_str()
    }

    pub fn custom_prompt(&self) -> (p: Option<&str>)
        ensures
            super::opt_view(p) == self.spec_custom_prompt(),
    {
        match &self.custom_prompt {
            Some(p) => Some(p.as_str()),
            None => None,
        }
    }
}

/// The value `CONTENT_POINTER` reads by position.
pub const CONTENT_ARRAY: &'static str = "/choices";

/// The values `CONTENT_POINTER` reads by position.
pub open spec fn content_arrays() -> Seq<&'static str> {
    seq![CONTENT_ARRAY]
}

/// Reads one stream event: the `choices[0].delta.content` texts, and `[DONE]`
/// as the end of the stream.
pub fn forward_event(event: &str) -> (out: EventOutcome)
    ensures
        (chunk_views(out.chunks@), out.finished) == line_chunks(lines(event@), content_arrays(), CONTENT_POINTER@, Some(DONE_MARKER@)),
{
    let arrays: Vec<&str> = vec![CONTENT_ARRAY];
    assert(arrays@ == content_arrays());
    event_chunks(event, &arrays, CONTENT_POINTER, Some(DONE_MARKER))
}

/// Model families that cannot translate through chat completions.
pub open spec fn excluded_keywords() -> Seq<&'static str> {
    seq![
        "audio",
        "realtime",
        "image",
        "tts",
        "transcribe",
        "whisper",
        "embedding",
        "moderation",
        "dall-e",
        "search",
        "computer-use",
        "codex",
        "instruct",
    ]
}

/// A listed model id that can translate.
pub open spec fn keeps_model(id: Seq<char>) -> bool {
    &&& (starts_with(id, "gpt-"@) || starts_with(id, "o"@))
    &&& !contains_any(id, excluded_keywords())
}

/// The pointer to the id of the `i`-th listed model.
pub open spec fn id_pointer(i: nat) -> Seq<char> {
    "/data/"@ + dec(i) + "/id"@
}

/// The ids among the first `n` listed models that can translate, in listing order.
pub open spec fn kept_ids(body: Seq<char>, n: nat) -> Seq<Seq<char>>
    decreases n,
{
    if n == 0 {
        seq![]
    } else {
        let prev = kept_ids(body, (n - 1) as nat);
        match json_pointer_str(body, id_pointer((n - 1) as nat)) {
            Some(id) => if keeps_model(id) {
                prev.push(id)
            } else {
                prev
            },
            None => prev,
        }
    }
}

/// All listed ids that can translate, in listing order.
pub open spec fn listed_models(body: Seq<char>) -> Seq<Seq<char>> {
    match json_pointer_array_len(body, "/data"@) {
        Some(n) => kept_ids(body, n),
        None => seq![],
    }
}

/// Each kept id begins with `gpt-` or `o` and names none of the model
/// families that cannot translate through chat completions.
pub open spec fn translating_id(id: Seq<char>) -> bool {
    &&& (starts_with(id, "gpt-"@) || starts_with(id, "o"@))
    &&& !contains(id, "audio"@)
    &&& !contains(id, "realtime"@)
    &&& !contains(id, "image"@)
    &&& !contains(id, "tts"@)
    &&& !contains(id, "transcribe"@)
    &&& !contains(id, "whisper"@)
    &&& !contains(id, "embedding"@)
    &&& !contains(id, "moderation"@)
    &&& !contains(id, "dall-e"@)
    &&& !contains(id, "search"@)
    &&& !contains(id, "computer-use"@)
    &&& !contains(id, "codex"@)
    &&& !contains(id, "instruct"@)
}

proof fn lemma_kept_id_translates(id: Seq<char>)
    requires
        keeps_model(id),
    ensures
        translating_id(id),
{
    let k = excluded_keywords();
    assert(!contains(id, k[0]@));
    assert(!contains(id, k[1]@));
    assert(!contains(id, k[2]@));
    assert(!contains(id, k[3]@));
    assert(!contains(id, k[4]@));
    assert(!contains(id, k[5]@));
    assert(!contains(id, k[6]@));
    assert(!contains(id, k[7]@));
    assert(!contains(id, k[8]@));
    assert(!contains(id, k[9]@));
    assert(!contains(id, k[10]@));
    assert(!contains(id, k[11]@));
    assert(!contains(id, k[12]@));
}

proof fn lemma_kept_ids_translate(body: Seq<char>, n: nat)
    ensures
        forall|i: int| 0 <= i < kept_ids(body, n).len() ==> translating_id(#[trigger] kept_ids(body, n)[i]),
    decreases n,
{
    if n > 0 {
        lemma_kept_ids_translate(body, (n - 1) as nat);
        let prev = kept_ids(body, (n - 1) as nat);
        match json_pointer_str(body, id_pointer((n - 1) as nat)) {
            Some(id) => if keeps_model(id) {
                lemma_kept_id_translates(id);
                assert forall|i: int| 0 <= i < kept_ids(body, n).len() implies translating_id(#[trigger] kept_ids(body, n)[i]) by {
                    if i < prev.len() {
                        assert(kept_ids(body, n)[i] == prev[i]);
                    }
                }
            },
            None => {},
        }
    }
}

/// Every model offered for translation is a chat model (`gpt-…` or `o…`)
/// outside the audio, realtime, image, speech, transcription, whisper,
/// embedding, moderation, dall-e, search, computer-use, codex and instruct
/// families; and every listed id of that kind is offered.
pub proof fn lemma_listed_models_translate(body: Seq<char>)
    ensures
        forall|i: int| 0 <= i < listed_models(body).len() ==> translating_id(#[trigger] listed_models(body)[i]),
        forall|n: nat, i: nat|
            #![trigger kept_ids(body, n), json_pointer_str(body, id_pointer(i))]
            (json_pointer_array_len(body, "/data"@) == Some(n) && i < n && json_pointer_str(body, id_pointer(i)) is Some
                && translating_id(json_pointer_str(body, id_pointer(i))->0)) ==> listed_models(body).contains(
                json_pointer_str(body, id_pointer(i))->0,
            ),
{
    match json_pointer_array_len(body, "/data"@) {
        Some(n) => lemma_kept_ids_translate(body, n),
        None => {},
    }
    assert forall|n: nat, i: nat|
        #![trigger kept_ids(body, n), json_pointer_str(body, id_pointer(i))]
        json_pointer_array_len(body, "/data"@) == Some(n) && i < n && json_pointer_str(body, id_pointer(i)) is Some
            && translating_id(json_pointer_str(body, id_pointer(i))->0) implies listed_models(body).contains(
        json_pointer_str(body, id_pointer(i))->0,
    ) by {
        let id = json_pointer_str(body, id_pointer(i))->0;
        lemma_translating_id_kept(id);
        lemma_kept_ids_include(body, n, i);
    }
}

proof fn lemma_translating_id_kept(id: Seq<char>)
    requires
        translating_id(id),
    ensures
        keeps_model(id),
{
    let k = excluded_keywords();
    assert forall|j: int| 0 <= j < k.len() implies !contains(id, #[trigger] k[j]@) by {
        assert(j == 0 || j == 1 || j == 2 || j == 3 || j == 4 || j == 5 || j == 6 || j == 7 || j == 8
            || j == 9 || j == 10 || j == 11 || j == 12);
    }
}

proof fn lemma_kept_ids_include(body: Seq<char>, n: nat, i: nat)
    requires
        i < n,
        json_pointer_str(body, id_pointer(i)) is Some,
        keeps_model(json_pointer_str(body, id_pointer(i))->0),
    ensures
        kept_ids(body, n).contains(json_pointer_str(body, id_pointer(i))->0),
    decreases n,
{
    let prev = kept_ids(body, (n - 1) as nat);
    if i < n - 1 {
        lemma_kept_ids_include(body, (n - 1) as nat, i);
        let id = json_pointer_str(body, id_pointer(i))->0;
        let k = choose|k: int| 0 <= k < prev.len() && prev[k] == id;
        match json_pointer_str(body, id_pointer((n - 1) as nat)) {
            Some(x) => if keeps_model(x) {
                assert(kept_ids(body, n)[k] == id);
            },
            None => {},
        }
    } else {
        let id = json_pointer_str(body, id_pointer(i))->0;
        assert(kept_ids(body, n) == prev.push(id));
        assert(kept_ids(body, n)[prev.len() as int] == id);
    }
}

/// Sorted in `String` order.
pub open spec fn is_sorted(s: Seq<Seq<char>>) -> bool {
    forall|i: int, j: int| 0 <= i < j < s.len() ==> !str_lt(#[trigger] s[j], #[trigger] s[i])
}

/// Inserts `x` after every element that does not sort after it.
fn insert_sorted(v: &mut Vec<String>, x: String)
    requires
        is_sorted(views(old(v)@)),
    ensures
        is_sorted(views(final(v)@)),
        views(final(v)@).to_multiset() == views(old(v)@).to_multiset().insert(x@),
{
    let xv = chars_of(x.as_str());
    let mut k: usize = 0;
    let mut found = false;
    while k < v.len() && !found
        invariant
            k <= v.len(),
            xv@ == x@,
            forall|j: int| 0 <= j < k ==> !str_lt(xv@, #[trigger] views(v@)[j]),
            found ==> k < v.len() && str_lt(xv@, views(v@)[k as int]),
        decreases v.len() - k + (if found { 0int } else { 1int }),
    {
        let cv = chars_of(v[k].as_str());
        if str_less(&xv, &cv) {
            found = true;
        } else {
            k += 1;
        }
    }
    let ghost old_views = views(v@);
    let ghost xs = x@;
    v.insert(k, x);
    proof {
        assert(views(v@) =~= old_views.insert(k as int, xs));
        vstd::seq_lib::to_multiset_insert(old_views, k as int, xs);
        assert forall|i: int, j: int| 0 <= i < j < views(v@).len() implies !str_lt(
            #[trigger] views(v@)[j],
            #[trigger] views(v@)[i],
        ) by {
            let s = views(v@);
            if j < k {
                assert(s[i] == old_views[i] && s[j] == old_views[j]);
            } else if i > k {
                assert(s[i] == old_views[i - 1] && s[j] == old_views[j - 1]);
            } else if i < k && j == k {
                assert(s[i] == old_views[i] && s[j] == xs);
            } else if i < k {
                assert(s[i] == old_views[i] && s[j] == old_views[j - 1]);
            } else {
                assert(i == k && j > k);
                assert(s[i] == xs);
                assert(s[j] == old_views[j - 1]);
                assert(found);
                if str_lt(s[j], xs) {
                    lemma_str_lt_irreflexive(xs);
                    if j - 1 == k {
                        lemma_str_lt_transitive(xs, old_views[k as int], xs);
                    } else {
                        lemma_str_lt_transitive(old_views[j - 1], xs, old_views[k as int]);
                    }
                }
            }
        }
    }
}

/// Parses a model listing: the translating models, sorted; the parser's
/// message when the body is not JSON.  A body without a `data` array lists
/// nothing.
pub fn parse_model_list(body: &str) -> (r: Result<Vec<String>, String>)
    ensures
        r is Err <==> json_error(body@) is Some,
        r matches Err(m) ==> json_error(body@) == Some(m@),
        r matches Ok(v) ==> is_sorted(views(v@)) && views(v@).to_multiset() == listed_models(body@).to_multiset(),
        r matches Ok(v) ==> forall|i: int| 0 <= i < v@.len() ==> translating_id(#[trigger] v@[i]@),
{
    if let Some(e) = json_parse_error(body) {
        return Err(e);
    }
    let n: usize = match json_array_len_at(body, "/data") {
        Some(n) => n,
        None => 0,
    };
    let ghost total: nat = match json_pointer_array_len(body@, "/data"@) {
        Some(n) => n,
        None => 0,
    };
    assert(listed_models(body@) == kept_ids(body@, total));
    let keywords: Vec<&str> = vec![
        "audio",
        "realtime",
        "image",
        "tts",
        "transcribe",
        "whisper",
        "embedding",
        "moderation",
        "dall-e",
        "search",
        "computer-use",
        "codex",
        "instruct",
    ];
    assert(keywords@ == excluded_keywords());
    let mut out: Vec<String> = Vec::new();
    let mut i: usize = 0;
    while i < n
        invariant
            i <= n,
            n == total,
            keywords@ == excluded_keywords(),
            is_sorted(views(out@)),
            views(out@).to_multiset() == kept_ids(body@, i as nat).to_multiset(),
        decreases n - i,
    {
        proof {
            reveal_strlit("/data/");
            reveal_strlit("/id");
        }
        let mut pointer = "/data/".to_owned();
        let digits = radix_string(i as u64, 10);
        pointer.append(digits.as_str());
        pointer.append("/id");
        assert(pointer@ == id_pointer(i as nat));
        let ghost prev = kept_ids(body@, i as nat);
        if let Some(id) = json_str_at(body, pointer.as_str()) {
            proof {
                reveal_strlit("gpt-");
                reveal_strlit("o");
            }
            let keep = (starts_with_str(id.as_str(), "gpt-") || starts_with_str(id.as_str(), "o"))
                && !contains_any_str(id.as_str(), &keywords);
            if keep {
                proof {
                    vstd::seq_lib::to_multiset_build(prev, id@);
                }
                insert_sorted(&mut out, id);
            }
        }
        i += 1;
    }
    proof {
        lemma_listed_models_translate(body@);
        let listed = listed_models(body@);
        assert forall|k: int| 0 <= k < out@.len() implies translating_id(#[trigger] out@[k]@) by {
            let x = out@[k]@;
            assert(views(out@)[k] == x);
            assert(views(out@).contains(x));
            assert(listed.to_multiset().count(x) > 0);
            assert(listed.contains(x));
            let j = choose|j: int| 0 <= j < listed.len() && listed[j] == x;
            assert(translating_id(listed[j]));
        }
    }
    Ok(out)
}

} // verus!
