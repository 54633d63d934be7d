//! Translation requests and what streams back: prompt assembly, stream
//! chunks, user-facing API errors, and the choice of engine.
pub mod gemini;
pub mod keys;
pub mod mock;
pub mod openai;

use crate::json::{indexed_str, indexed_str_at};
use crate::text::{
    contains, contains_str, dec, is_blank, is_blank_str, lines, lines_str, radix_string,
    replace_all, replace_str, starts_with, str_eq, strip_prefix_str, trim, trim_str, views,
    lemma_trim_empty_iff_blank,
};
use vstd::prelude::*;

verus! {

/// One piece of a streamed translation, as the front end receives it.
pub struct TranslationChunk {
    pub text: String,
    pub done: bool,
    pub error: bool,
}

impl View for TranslationChunk {
    type V = (Seq<char>, bool, bool);

    open spec fn view(&self) -> (Seq<char>, bool, bool) {
        (self.text@, self.done, self.error)
    }
}

/// The views of a sequence of chunks.
pub open spec fn chunk_views(v: Seq<TranslationChunk>) -> Seq<(Seq<char>, bool, bool)> {
    v.map_values(|c: TranslationChunk| c@)
}

impl TranslationChunk {
    /// A piece of translated text; more follows.
    pub fn text(text: &str) -> (c: Self)
        ensures
            c.text@ == text@,
            !c.done,
            !c.error,
    {
        TranslationChunk { text: text.to_owned(), done: false, error: false }
    }

    /// The end of a successful stream.
    pub fn done() -> (c: Self)
        ensures
            c.text@ == Seq::<char>::empty(),
            c.done,
            !c.error,
    {
        TranslationChunk { text: String::new(), done: true, error: false }
    }

    /// The end of a failed stream, carrying the reason.
    pub fn error(message: &str) -> (c: Self)
        ensures
            c.text@ == message@,
            c.done,
            c.error,
    {
        TranslationChunk { text: message.to_owned(), done: true, error: true }
    }
}

/// What the user pasted: rich HTML when there is any, else plain text.
pub enum TranslationInput {
    PlainText(String),
    Html(String),
}

impl TranslationInput {
    /// Prefers non-blank HTML, then non-blank plain text; `None` when both
    /// are absent or blank.
    pub fn from_paste(plain_text: Option<String>, html: Option<String>) -> (r: Option<Self>)
        ensures
            r == (if html matches Some(h) && !is_blank(h@) {
                Some(TranslationInput::Html(html->0))
            } else if plain_text matches Some(p) && !is_blank(p@) {
                Some(TranslationInput::PlainText(plain_text->0))
            } else {
                None::<TranslationInput>
            }),
    {
        if let Some(h) = html {
            if !is_blank_str(h.as_str()) {
                return Some(TranslationInput::Html(h));
            }
        }
        match plain_text {
            Some(p) => if is_blank_str(p.as_str()) {
                None
            } else {
                Some(TranslationInput::PlainText(p))
            },
            None => None,
        }
    }

    /// The pasted text itself.
    pub fn body(&self) -> (s: &str)
        ensures
            s@ == match self {
                TranslationInput::PlainText(t) => t@,
                TranslationInput::Html(t) => t@,
            },
    {
        match self {
            TranslationInput::PlainText(s) => s.as_str(),
            TranslationInput::Html(s) => s.as_str(),
        }
    }

    pub fn is_html(&self) -> (b: bool)
        ensures
            b == (self is Html),
    {
        match self {
            TranslationInput::Html(_) => true,
            TranslationInput::PlainText(_) => false,
        }
    }
}

/// The built-in translation policy; `{lang_a}` and `{lang_b}` stand for the
/// two language names.  Also shown as the placeholder of the prompt editor.
pub const DEFAULT_PROMPT_TEMPLATE: &'static str = "あなたはプロの翻訳者です。入力テキストが{lang_a}であれば{lang_b}に、{lang_b}であれば{lang_a}に全文翻訳してください。どちらの言語でもない場合は{lang_a}に翻訳してください。要約・省略・意訳による情報の削減は禁止です。原文にある情報はすべて訳文に含めてください。出力は訳文のみとし、前置きや説明を含めないでください。";

/// Appended when the output language is detected automatically: mixed-language
/// input counts as its majority language.
pub const AUTO_MIXED_LANGUAGE_RULE: &'static str = " 入力に複数の言語が混在する場合は、文字量の多い主要な言語を入力言語とみなし、必ず全文をどちらか一方の言語に統一してください。";

/// Formatting rule appended for HTML input.
pub const HTML_FORMAT_RULE: &'static str = " 入力はHTMLです。タグ構造(見出し・リスト・コードブロック・太字・リンク等)は変更せず、タグ内のテキストノードのみを翻訳してください。<code>と<pre>の中身は翻訳せず原文のまま保持してください。出力もHTMLのみとし、Markdownのコードフェンスや説明文を付けないでください。";

/// Formatting rule appended for plain-text (Markdown) input.
pub const PLAIN_FORMAT_RULE: &'static str = " 入力がMarkdown記法(見出し・リスト・コードフェンス・強調・リンク等)を含む場合は、記法そのものは変更せず本文のテキストのみを翻訳してください。コードフェンス内のコードは翻訳せず原文のまま保持してください。入力はHTMLではありません。<div>・<p>・<span>などのHTMLタグは出力に一切含めないでください。出力はMarkdown記法(または装飾のない平文)のみとしてください。";

/// The translation policy in use: the trimmed custom template unless it is
/// absent or blank, else the built-in one.
pub open spec fn prompt_template(custom_template: Option<Seq<char>>) -> Seq<char> {
    match custom_template {
        Some(t) => if trim(t).len() > 0 {
            trim(t)
        } else {
            DEFAULT_PROMPT_TEMPLATE@
        },
        None => DEFAULT_PROMPT_TEMPLATE@,
    }
}

/// The rule that forces one output language.
pub open spec fn target_rule(target: Seq<char>) -> Seq<char> {
    " 必ず"@ + target + "で出力してください。入力の一部が既に"@ + target + "でも、そのまま残さず自然な"@
        + target + "に統一してください。"@
}

/// The system prompt: the policy with the language names filled in, then
/// the output-language rule, then the formatting rule for the input kind.
pub open spec fn system_prompt_spec(
    lang_a: Seq<char>,
    lang_b: Seq<char>,
    is_html: bool,
    custom_template: Option<Seq<char>>,
    target: Option<Seq<char>>,
) -> Seq<char> {
    replace_all(replace_all(prompt_template(custom_template), "{lang_a}"@, lang_a), "{lang_b}"@, lang_b)
        + match target {
        Some(t) => target_rule(t),
        None => AUTO_MIXED_LANGUAGE_RULE@,
    } + if is_html {
        HTML_FORMAT_RULE@
    } else {
        PLAIN_FORMAT_RULE@
    }
}

pub open spec fn opt_view(s: Option<&str>) -> Option<Seq<char>> {
    match s {
        Some(t) => Some(t@),
        None => None,
    }
}

/// Builds the system prompt for one translation.  A custom template
/// replaces only the policy part: the formatting rule is always appended,
/// and an explicit `target` language is forced after either policy.
pub fn system_prompt(
    lang_a: &str,
    lang_b: &str,
    is_html: bool,
    custom_template: Option<&str>,
    target: Option<&str>,
) -> (prompt: String)
    ensures
        prompt@ == system_prompt_spec(lang_a@, lang_b@, is_html, opt_view(custom_template), opt_view(target)),
{
    let template: String = match custom_template {
        Some(t) => {
            let trimmed = trim_str(t);
            if trimmed.as_str().is_empty() {
                DEFAULT_PROMPT_TEMPLATE.to_owned()
            } else {
                trimmed
            }
        },
        None => DEFAULT_PROMPT_TEMPLATE.to_owned(),
    };
    proof {
        reveal_strlit("{lang_a}");
        reveal_strlit("{lang_b}");
    }
    let with_a = replace_str(template.as_str(), "{lang_a}", lang_a);
    let mut base = replace_str(with_a.as_str(), "{lang_b}", lang_b);
    match target {
        Some(t) => {
            base.append(" 必ず");
            base.append(t);
            base.append("で出力してください。入力の一部が既に");
            base.append(t);
            base.append("でも、そのまま残さず自然な");
            base.append(t);
            base.append("に統一してください。");
        },
        None => base.append(AUTO_MIXED_LANGUAGE_RULE),
    }
    if is_html {
        base.append(HTML_FORMAT_RULE);
    } else {
        base.append(PLAIN_FORMAT_RULE);
    }
    base
}

/// A blank custom template counts as no template: the built-in policy is
/// used, and the prompt is the same as without one.
pub proof fn lemma_blank_template_is_default(
    lang_a: Seq<char>,
    lang_b: Seq<char>,
    is_html: bool,
    template: Seq<char>,
    target: Option<Seq<char>>,
)
    ensures
        is_blank(template) ==> system_prompt_spec(lang_a, lang_b, is_html, Some(template), target)
            == system_prompt_spec(lang_a, lang_b, is_html, None, target),
        !is_blank(template) ==> prompt_template(Some(template)) == trim(template),
{
    lemma_trim_empty_iff_blank(template);
}

/// Whatever the template, the prompt is the filled-in policy, then the
/// output-language rule (the forced target, or the majority rule when the
/// language is detected), then the formatting rule for the input kind,
/// which a custom template cannot remove.
pub proof fn lemma_prompt_layout(
    lang_a: Seq<char>,
    lang_b: Seq<char>,
    is_html: bool,
    custom_template: Option<Seq<char>>,
    target: Option<Seq<char>>,
)
    ensures
        ({
            let p = system_prompt_spec(lang_a, lang_b, is_html, custom_template, target);
            let rule = if is_html { HTML_FORMAT_RULE@ } else { PLAIN_FORMAT_RULE@ };
            let lang_rule = match target {
                Some(t) => target_rule(t),
                None => AUTO_MIXED_LANGUAGE_RULE@,
            };
            let policy = replace_all(
                replace_all(prompt_template(custom_template), "{lang_a}"@, lang_a),
                "{lang_b}"@,
                lang_b,
            );
            &&& p.len() == policy.len() + lang_rule.len() + rule.len()
            &&& p.take(policy.len() as int) == policy
            &&& p.subrange(policy.len() as int, (policy.len() + lang_rule.len()) as int) == lang_rule
            &&& p.skip((policy.len() + lang_rule.len()) as int) == rule
        }),
{
    let p = system_prompt_spec(lang_a, lang_b, is_html, custom_template, target);
    let rule = if is_html { HTML_FORMAT_RULE@ } else { PLAIN_FORMAT_RULE@ };
    let lang_rule = match target {
        Some(t) => target_rule(t),
        None => AUTO_MIXED_LANGUAGE_RULE@,
    };
    let policy = replace_all(
        replace_all(prompt_template(custom_template), "{lang_a}"@, lang_a),
        "{lang_b}"@,
        lang_b,
    );
    assert(p == policy + lang_rule + rule);
    assert(p.take(policy.len() as int) =~= policy);
    assert(p.subrange(policy.len() as int, (policy.len() + lang_rule.len()) as int) =~= lang_rule);
    assert(p.skip((policy.len() + lang_rule.len()) as int) =~= rule);
}

/// The one-line reason shown for a failed API call with HTTP `status`.
pub open spec fn api_error_message(provider: Seq<char>, status: u16) -> Seq<char> {
    if status == 401 || status == 403 {
        provider + " のAPIキーが無効です。設定画面で確認してください。"@
    } else if status == 429 {
        provider + " がレート制限中です。しばらく待って再試行してください。"@
    } else if 500 <= status <= 599 {
        provider + " 側で障害が発生しています。しばらく待って再試行してください。"@
    } else {
        provider + " APIエラー(HTTP "@ + dec(status as nat) + ")。再試行してください。"@
    }
}

/// Each failed status gets one reason, named after the provider: 401 and
/// 403 a bad key, 429 rate limiting, every 5xx an outage on the provider's
/// side, and any other status its own number.
pub proof fn lemma_api_error_classes(provider: Seq<char>, status: u16)
    ensures
        (status == 401 || status == 403) ==> api_error_message(provider, status)
            == provider + " のAPIキーが無効です。設定画面で確認してください。"@,
        status == 429 ==> api_error_message(provider, status)
            == provider + " がレート制限中です。しばらく待って再試行してください。"@,
        500 <= status < 600 ==> api_error_message(provider, status)
            == provider + " 側で障害が発生しています。しばらく待って再試行してください。"@,
        !(status == 401 || status == 403 || status == 429 || (500 <= status < 600)) ==> api_error_message(
            provider,
            status,
        ) == provider + " APIエラー(HTTP "@ + dec(status as nat) + ")。再試行してください。"@,
        api_error_message(provider, status).take(provider.len() as int) == provider,
{
    let m = api_error_message(provider, status);
    assert(m.take(provider.len() as int) =~= provider);
}

/// Maps an HTTP status to a short reason for the user; the raw response
/// body is never shown.
pub fn user_facing_api_error(provider: &str, status: u16) -> (msg: String)
    ensures
        msg@ == api_error_message(provider@, status),
{
    let mut msg = provider.to_owned();
    if status == 401 || status == 403 {
        msg.append(" のAPIキーが無効です。設定画面で確認してください。");
    } else if status == 429 {
        msg.append(" がレート制限中です。しばらく待って再試行してください。");
    } else if 500 <= status && status <= 599 {
        msg.append(" 側で障害が発生しています。しばらく待って再試行してください。");
    } else {
        msg.append(" APIエラー(HTTP ");
        let code = radix_string(status as u64, 10);
        msg.append(code.as_str());
        msg.append(")。再試行してください。");
    }
    msg
}

/// What one server-sent event carries: the chunks to forward, in order,
/// and whether it ended the stream.
pub struct EventOutcome {
    pub chunks: Vec<TranslationChunk>,
    pub finished: bool,
}

/// The chunks the `data: ` lines of an event carry.  Each line's payload is
/// JSON; the non-empty string that `pointer` reaches (with `arrays` the
/// values it reads by position) becomes a text chunk.  A payload equal to
/// `done_marker` ends the stream with a done chunk, and later lines are not
/// read.  Other lines are skipped.
pub open spec fn line_chunks(
    lines: Seq<Seq<char>>,
    arrays: Seq<&str>,
    pointer: Seq<char>,
    done_marker: Option<Seq<char>>,
) -> (Seq<(Seq<char>, bool, bool)>, bool)
    decreases lines.len(),
{
    if lines.len() == 0 {
        (seq![], false)
    } else {
        let l = lines[0];
        let rest = line_chunks(lines.drop_first(), arrays, pointer, done_marker);
        if starts_with(l, "data: "@) {
            let d = l.skip(6);
            if done_marker == Some(d) {
                (seq![(Seq::<char>::empty(), true, false)], true)
            } else {
                match indexed_str(d, arrays, pointer) {
                    Some(t) => if t.len() > 0 {
                        (seq![(t, false, false)] + rest.0, rest.1)
                    } else {
                        rest
                    },
                    None => rest,
                }
            }
        } else {
            rest
        }
    }
}

/// Reads one event of a streaming completion.
pub fn event_chunks(event: &str, arrays: &Vec<&str>, pointer: &str, done_marker: Option<&str>) -> (out: EventOutcome)
    ensures
        (chunk_views(out.chunks@), out.finished) == line_chunks(lines(event@), arrays@, pointer@, opt_view(done_marker)),
{
    let ls = lines_str(event);
    let ghost lv = lines(event@);
    let ghost full = line_chunks(lv, arrays@, pointer@, opt_view(done_marker));
    let mut chunks: Vec<TranslationChunk> = Vec::new();
    let mut i: usize = 0;
    proof {
        reveal_strlit("data: ");
        assert(lv.skip(0) =~= lv);
    }
    while i < ls.len()
        invariant
            i <= ls.len(),
            views(ls@) == lv,
            lv == lines(event@),
            full == line_chunks(lv, arrays@, pointer@, opt_view(done_marker)),
            full == (chunk_views(chunks@) + line_chunks(lv.skip(i as int), arrays@, pointer@, opt_view(done_marker)).0,
                line_chunks(lv.skip(i as int), arrays@, pointer@, opt_view(done_marker)).1),
        decreases ls.len() - i,
    {
        proof {
            reveal_strlit("data: ");
        }
        let ghost t = lv.skip(i as int);
        let ghost rest = line_chunks(t.drop_first(), arrays@, pointer@, opt_view(done_marker));
        assert(t[0] == ls@[i as int]@);
        assert(t.drop_first() =~= lv.skip(i + 1));
        let line = ls[i].as_str();
        let prefixed = strip_prefix_str(line, "data: ");
        assert(line_chunks(t, arrays@, pointer@, opt_view(done_marker)) == {
            let l = t[0];
            if starts_with(l, "data: "@) {
                let d = l.skip(6);
                if opt_view(done_marker) == Some(d) {
                    (seq![(Seq::<char>::empty(), true, false)], true)
                } else {
                    match indexed_str(d, arrays@, pointer@) {
                        Some(x) => if x.len() > 0 {
                            (seq![(x, false, false)] + rest.0, rest.1)
                        } else {
                            rest
                        },
                        None => rest,
                    }
                }
            } else {
                rest
            }
        });
        if let Some(data) = prefixed {
            let is_done: bool = match done_marker {
                Some(m) => str_eq(data.as_str(), m),
                None => false,
            };
            if is_done {
                let ghost prev = chunks@;
                chunks.push(TranslationChunk::done());
                assert(chunk_views(chunks@) =~= chunk_views(prev) + seq![(Seq::<char>::empty(), true, false)]);
                assert(chunk_views(chunks@) =~= full.0);
                return EventOutcome { chunks, finished: true };
            }
            if let Some(text) = indexed_str_at(data.as_str(), arrays, pointer) {
                if !text.as_str().is_empty() {
                    let ghost prev = chunks@;
                    let c = TranslationChunk::text(text.as_str());
                    chunks.push(c);
                    assert(chunk_views(chunks@) =~= chunk_views(prev) + seq![(text@, false, false)]);
                    assert(chunk_views(prev) + (seq![(text@, false, false)] + rest.0) =~= chunk_views(chunks@) + rest.0);
                }
            }
        }
        i += 1;
    }
    assert(lv.skip(i as int).len() == 0);
    assert(chunk_views(chunks@) + Seq::<(Seq<char>, bool, bool)>::empty() =~= chunk_views(chunks@));
    EventOutcome { chunks, finished: false }
}

/// How each line of an event contributes, whatever follows it: a `data: `
/// line whose payload is the done marker ends the stream there; one whose
/// pointer reaches a non-empty string (whitespace included, such as a
/// paragraph break) forwards exactly that string as one text chunk; any
/// other line contributes nothing.
pub proof fn lemma_line_contribution(
    l: Seq<char>,
    rest: Seq<Seq<char>>,
    arrays: Seq<&str>,
    pointer: Seq<char>,
    done_marker: Option<Seq<char>>,
)
    ensures
        ({
            let all = line_chunks(seq![l] + rest, arrays, pointer, done_marker);
            let tail = line_chunks(rest, arrays, pointer, done_marker);
            let prefix = "data: "@;
            &&& (l.len() < 6 || l.take(6) != prefix) ==> all == tail
            &&& (l.len() >= 6 && l.take(6) == prefix && done_marker == Some(l.skip(6))) ==> all == (
                seq![(Seq::<char>::empty(), true, false)],
                true,
            )
            &&& (l.len() >= 6 && l.take(6) == prefix && done_marker != Some(l.skip(6))) ==> match indexed_str(
                l.skip(6),
                arrays,
                pointer,
            ) {
                Some(t) => if t.len() > 0 {
                    all == (seq![(t, false, false)] + tail.0, tail.1)
                } else {
                    all == tail
                },
                None => all == tail,
            }
        }),
{
    reveal_strlit("data: ");
    let ls = seq![l] + rest;
    assert(ls[0] == l);
    assert(ls.drop_first() =~= rest);
    assert(starts_with(l, "data: "@) <==> (l.len() >= 6 && l.take(6) == "data: "@)) by {
        if l.len() >= 6 {
            assert(l.subrange(0, 6) =~= l.take(6));
        }
    }
}

/// A `data: ` line whose pointer reaches a non-empty string `t` forwards
/// `t` unchanged, ahead of whatever the following lines give.
pub proof fn lemma_nonempty_text_forwarded(
    d: Seq<char>,
    t: Seq<char>,
    rest: Seq<Seq<char>>,
    arrays: Seq<&str>,
    pointer: Seq<char>,
    done_marker: Option<Seq<char>>,
)
    requires
        done_marker != Some(d),
        indexed_str(d, arrays, pointer) == Some(t),
        t.len() > 0,
    ensures
        line_chunks(seq!["data: "@ + d] + rest, arrays, pointer, done_marker) == (
            seq![(t, false, false)] + line_chunks(rest, arrays, pointer, done_marker).0,
            line_chunks(rest, arrays, pointer, done_marker).1,
        ),
{
    reveal_strlit("data: ");
    let l = "data: "@ + d;
    assert(l.take(6) =~= "data: "@);
    assert(l.skip(6) =~= d);
    lemma_line_contribution(l, rest, arrays, pointer, done_marker);
}

/// A done chunk comes only last, and exactly when the event finished.
pub open spec fn done_only_at_end(cs: Seq<(Seq<char>, bool, bool)>, finished: bool) -> bool {
    &&& forall|i: int| 0 <= i < cs.len() - 1 ==> !(#[trigger] cs[i]).1
    &&& finished <==> (cs.len() > 0 && cs.last().1)
}

/// An event's chunks hold a done chunk only as the last one, and exactly
/// when the event ends the stream.
pub proof fn lemma_event_done_only_at_end(
    lines: Seq<Seq<char>>,
    arrays: Seq<&str>,
    pointer: Seq<char>,
    done_marker: Option<Seq<char>>,
)
    ensures
        done_only_at_end(
            line_chunks(lines, arrays, pointer, done_marker).0,
            line_chunks(lines, arrays, pointer, done_marker).1,
        ),
    decreases lines.len(),
{
    if lines.len() > 0 {
        lemma_event_done_only_at_end(lines.drop_first(), arrays, pointer, done_marker);
        let rest = line_chunks(lines.drop_first(), arrays, pointer, done_marker);
        let r = line_chunks(lines, arrays, pointer, done_marker);
        if r.0 != rest.0 && !r.1 {
            assert(r.0.len() == rest.0.len() + 1);
        }
        if r.0.len() == rest.0.len() + 1 {
            assert forall|i: int| 0 <= i < r.0.len() - 1 implies !(#[trigger] r.0[i]).1 by {
                if i > 0 {
                    assert(r.0[i] == rest.0[i - 1]);
                }
            }
        }
    }
}

/// The message of a translation that failed on the way.
pub open spec fn engine_error_message(err: Seq<char>) -> Seq<char> {
    "翻訳中にエラーが発生しました: "@ + err
}

/// What a stream sends, given the outcomes of the events read before the
/// response ended (`failure` is the reason when it ended in an error): each
/// event's chunks in turn, up to and including the event that finishes the
/// stream; when none does, a closing done chunk, or the error chunk.
pub open spec fn stream_sent(
    outcomes: Seq<(Seq<(Seq<char>, bool, bool)>, bool)>,
    failure: Option<Seq<char>>,
) -> Seq<(Seq<char>, bool, bool)>
    decreases outcomes.len(),
{
    if outcomes.len() == 0 {
        match failure {
            None => seq![(Seq::<char>::empty(), true, false)],
            Some(e) => seq![(engine_error_message(e), true, true)],
        }
    } else if outcomes[0].1 {
        outcomes[0].0
    } else {
        outcomes[0].0 + stream_sent(outcomes.drop_first(), failure)
    }
}

/// A stream ends exactly once: whatever the events and however the response
/// ends, what is sent holds exactly one done chunk, and it is the last; so
/// nothing follows the end marker, and a stream that closes without it still
/// ends.
pub proof fn lemma_stream_ends_once(
    outcomes: Seq<(Seq<(Seq<char>, bool, bool)>, bool)>,
    failure: Option<Seq<char>>,
)
    requires
        forall|k: int| 0 <= k < outcomes.len() ==> done_only_at_end((#[trigger] outcomes[k]).0, outcomes[k].1),
    ensures
        stream_sent(outcomes, failure).len() > 0,
        stream_sent(outcomes, failure).last().1,
        forall|i: int|
            0 <= i < stream_sent(outcomes, failure).len() - 1 ==> !(#[trigger] stream_sent(outcomes, failure)[i]).1,
    decreases outcomes.len(),
{
    if outcomes.len() > 0 {
        assert(done_only_at_end(outcomes[0].0, outcomes[0].1));
        if !outcomes[0].1 {
            let tail = outcomes.drop_first();
            assert forall|k: int| 0 <= k < tail.len() implies done_only_at_end((#[trigger] tail[k]).0, tail[k].1) by {
                assert(tail[k] == outcomes[k + 1]);
            }
            lemma_stream_ends_once(tail, failure);
            let head = outcomes[0].0;
            let rest = stream_sent(tail, failure);
            let all = stream_sent(outcomes, failure);
            assert(all == head + rest);
            assert forall|i: int| 0 <= i < all.len() - 1 implies !(#[trigger] all[i]).1 by {
                if i < head.len() {
                    assert(all[i] == head[i]);
                    if head.len() > 0 && i == head.len() - 1 {
                        assert(!head.last().1);
                    }
                } else {
                    assert(all[i] == rest[i - head.len()]);
                }
            }
            assert(all.last() == rest.last());
        }
    }
}

/// The chunks to send for one event and whether to keep reading the
/// response: the event's chunks, in order, and reading stops once the
/// event ended the stream.
pub fn stream_step(outcome: EventOutcome) -> (r: (Vec<TranslationChunk>, bool))
    ensures
        r.0@ == outcome.chunks@,
        r.1 == !outcome.finished,
{
    let keep_reading = !outcome.finished;
    (outcome.chunks, keep_reading)
}

/// The chunk sent when the response ends: a done chunk unless an event
/// already ended the stream.
pub fn stream_end_chunk(finished_seen: bool) -> (r: Option<TranslationChunk>)
    ensures
        r is Some <==> !finished_seen,
        r matches Some(c) ==> c@ == (Seq::<char>::empty(), true, false),
{
    if finished_seen {
        None
    } else {
        Some(TranslationChunk::done())
    }
}

/// The chunk that ends a stream which failed with `err`.
pub fn engine_error_chunk(err: &str) -> (c: TranslationChunk)
    ensures
        c@ == (engine_error_message(err@), true, true),
{
    let mut message = "翻訳中にエラーが発生しました: ".to_owned();
    message.append(err);
    TranslationChunk::error(message.as_str())
}

/// `name` contains one of `keywords`.
pub open spec fn contains_any(name: Seq<char>, keywords: Seq<&str>) -> bool {
    exists|k: int| 0 <= k < keywords.len() && contains(name, keywords[k]@)
}

/// Whether `name` contains one of `keywords`.
pub fn contains_any_str(name: &str, keywords: &Vec<&str>) -> (b: bool)
    ensures
        b == contains_any(name@, keywords@),
{
    let mut k: usize = 0;
    while k < keywords.len()
        invariant
            k <= keywords.len(),
            forall|j: int| 0 <= j < k ==> !contains(name@, keywords@[j]@),
        decreases keywords.len() - k,
    {
        if contains_str(name, keywords[k]) {
            return true;
        }
        k += 1;
    }
    false
}

/// The engine that serves translations.
pub enum EngineKind {
    OpenAi(openai::OpenAiEngine),
    Gemini(gemini::GeminiEngine),
    Mock(mock::MockEngine),
}

impl EngineKind {
    /// The engine's short name, recorded with each history entry.
    pub fn name(&self) -> (n: &'static str)
        ensures
            n@ == match self {
                EngineKind::OpenAi(_) => "openai"@,
                EngineKind::Gemini(_) => "gemini"@,
                EngineKind::Mock(_) => "mock"@,
            },
    {
        match self {
            EngineKind::OpenAi(_) => "openai",
            EngineKind::Gemini(_) => "gemini",
            EngineKind::Mock(_) => "mock",
        }
    }
}

/// The engine chosen from the settings, and why the real engine is not
/// available when it is not (the offline engine then stands in).
pub struct ResolvedEngine {
    pub engine: EngineKind,
    pub unavailable_reason: Option<String>,
}

/// Which engine the settings lead to.
pub enum EngineSlot {
    OpenAi,
    Gemini,
    Mock,
}

/// The engine chosen for `choice` given which keys were found: "mock" is
/// the offline engine; "openai" and "gemini" that provider when its key
/// exists; anything else ("auto") OpenAI first, then Gemini.
pub open spec fn resolved_slot(choice: Seq<char>, openai_ok: bool, gemini_ok: bool) -> EngineSlot {
    if choice == "mock"@ {
        EngineSlot::Mock
    } else if choice == "openai"@ {
        if openai_ok { EngineSlot::OpenAi } else { EngineSlot::Mock }
    } else if choice == "gemini"@ {
        if gemini_ok { EngineSlot::Gemini } else { EngineSlot::Mock }
    } else if openai_ok {
        EngineSlot::OpenAi
    } else if gemini_ok {
        EngineSlot::Gemini
    } else {
        EngineSlot::Mock
    }
}

/// The message for a provider whose key is missing.
pub open spec fn missing_key_message(provider: Seq<char>) -> Seq<char> {
    provider + " のAPIキーが未設定です。設定画面から登録してください。"@
}

/// Why the chosen provider is unavailable, if it is.
pub open spec fn resolved_reason(choice: Seq<char>, openai_ok: bool, gemini_ok: bool) -> Option<Seq<char>> {
    if choice == "mock"@ {
        None
    } else if choice == "openai"@ {
        if openai_ok { None } else { Some(missing_key_message("OpenAI"@)) }
    } else if choice == "gemini"@ {
        if gemini_ok { None } else { Some(missing_key_message("Gemini"@)) }
    } else if openai_ok || gemini_ok {
        None
    } else {
        Some(missing_key_message("OpenAI または Gemini"@))
    }
}

/// Whether the OpenAI key must be looked up for `choice`.
pub open spec fn needs_openai(choice: Seq<char>) -> bool {
    choice != "mock"@ && choice != "gemini"@
}

/// Whether the Gemini key must be looked up for `choice`, once the OpenAI
/// lookup (if any) has answered.
pub open spec fn needs_gemini(choice: Seq<char>, openai_ok: bool) -> bool {
    choice == "gemini"@ || (choice != "mock"@ && choice != "openai"@ && !openai_ok)
}

/// Whether the OpenAI key must be looked up for `choice`.
pub fn needs_openai_key(choice: &str) -> (b: bool)
    ensures
        b == needs_openai(choice@),
{
    !str_eq(choice, "mock") && !str_eq(choice, "gemini")
}

/// Whether the Gemini key must be looked up, given what the OpenAI lookup found.
pub fn needs_gemini_key(choice: &str, openai_found: bool) -> (b: bool)
    ensures
        b == needs_gemini(choice@, openai_found),
{
    str_eq(choice, "gemini") || (!str_eq(choice, "mock") && !str_eq(choice, "openai") && !openai_found)
}

fn missing_key(provider: &str) -> (m: String)
    ensures
        m@ == missing_key_message(provider@),
{
    let mut m = provider.to_owned();
    m.append(" のAPIキーが未設定です。設定画面から登録してください。");
    m
}

/// The four engine choices the settings can hold.
pub open spec fn is_known_choice(choice: Seq<char>) -> bool {
    choice == "auto"@ || choice == "openai"@ || choice == "gemini"@ || choice == "mock"@
}

/// Picks the engine for the configured `choice` (one of the four names the
/// settings can hold) from the engines that could be built (an `Err` means
/// its key is missing).
pub fn resolve(
    choice: &str,
    openai: Result<openai::OpenAiEngine, openai::MissingApiKeyError>,
    gemini: Result<gemini::GeminiEngine, gemini::MissingApiKeyError>,
) -> (r: ResolvedEngine)
    requires
        is_known_choice(choice@),
    ensures
        match resolved_slot(choice@, openai is Ok, gemini is Ok) {
            EngineSlot::OpenAi => r.engine == EngineKind::OpenAi(openai->Ok_0),
            EngineSlot::Gemini => r.engine == EngineKind::Gemini(gemini->Ok_0),
            EngineSlot::Mock => r.engine is Mock,
        },
        crate::engine::openai::opt_string_view(r.unavailable_reason) == resolved_reason(
            choice@,
            openai is Ok,
            gemini is Ok,
        ),
{
    if str_eq(choice, "mock") {
        return ResolvedEngine { engine: EngineKind::Mock(mock::MockEngine), unavailable_reason: None };
    }
    if str_eq(choice, "openai") {
        return match openai {
            Ok(e) => ResolvedEngine { engine: EngineKind::OpenAi(e), unavailable_reason: None },
            Err(_) => ResolvedEngine {
                engine: EngineKind::Mock(mock::MockEngine),
                unavailable_reason: Some(missing_key("OpenAI")),
            },
        };
    }
    if str_eq(choice, "gemini") {
        return match gemini {
            Ok(e) => ResolvedEngine { engine: EngineKind::Gemini(e), unavailable_reason: None },
            Err(_) => ResolvedEngine {
                engine: EngineKind::Mock(mock::MockEngine),
                unavailable_reason: Some(missing_key("Gemini")),
            },
        };
    }
    if let Ok(e) = openai {
        return ResolvedEngine { engine: EngineKind::OpenAi(e), unavailable_reason: None };
    }
    if let Ok(e) = gemini {
        return ResolvedEngine { engine: EngineKind::Gemini(e), unavailable_reason: None };
    }
    ResolvedEngine {
        engine: EngineKind::Mock(mock::MockEngine),
        unavailable_reason: Some(missing_key("OpenAI または Gemini")),
    }
}

/// The four choice names are distinct.
proof fn lemma_choice_names_differ()
    ensures
        "mock"@ != "openai"@,
        "mock"@ != "gemini"@,
        "mock"@ != "auto"@,
        "openai"@ != "gemini"@,
        "openai"@ != "auto"@,
        "gemini"@ != "auto"@,
{
    reveal_strlit("mock");
    reveal_strlit("gemini");
    reveal_strlit("openai");
    reveal_strlit("auto");
    assert("mock"@[0] != "gemini"@[0]);
    assert("mock"@[0] != "openai"@[0]);
    assert("mock"@[0] != "auto"@[0]);
    assert("openai"@[0] != "gemini"@[0]);
    assert("openai"@[0] != "auto"@[0]);
    assert("gemini"@[0] != "auto"@[0]);
}

/// The engine follows the choice: a provider chosen by name serves when its
/// key was found; "auto" takes OpenAI when its key was found, else Gemini
/// when its key was; the offline engine serves only when chosen, or when
/// the settings leave no provider with a key, which is then reported.
pub proof fn lemma_engine_follows_choice(choice: Seq<char>, openai_ok: bool, gemini_ok: bool)
    requires
        is_known_choice(choice),
    ensures
        choice == "openai"@ && openai_ok ==> resolved_slot(choice, openai_ok, gemini_ok) == EngineSlot::OpenAi,
        choice == "gemini"@ && gemini_ok ==> resolved_slot(choice, openai_ok, gemini_ok) == EngineSlot::Gemini,
        choice == "auto"@ && openai_ok ==> resolved_slot(choice, openai_ok, gemini_ok) == EngineSlot::OpenAi,
        choice == "auto"@ && !openai_ok && gemini_ok ==> resolved_slot(choice, openai_ok, gemini_ok)
            == EngineSlot::Gemini,
        choice == "mock"@ ==> resolved_slot(choice, openai_ok, gemini_ok) == EngineSlot::Mock,
        (resolved_slot(choice, openai_ok, gemini_ok) is Mock) <==> (choice == "mock"@ || resolved_reason(
            choice,
            openai_ok,
            gemini_ok,
        ) is Some),
        resolved_reason(choice, openai_ok, gemini_ok) is Some <==> (
            (choice == "openai"@ && !openai_ok)
            || (choice == "gemini"@ && !gemini_ok)
            || (choice == "auto"@ && !openai_ok && !gemini_ok)),
        resolved_reason(choice, openai_ok, gemini_ok) matches Some(m) ==> m.len() > 0,
{
    lemma_choice_names_differ();
    reveal_strlit(" のAPIキーが未設定です。設定画面から登録してください。");
}

/// A key lookup that `needs_openai` / `needs_gemini` skips cannot change
/// the outcome: the engine and the reason are the same whatever it would
/// have found.
pub proof fn lemma_skipped_lookups_do_not_matter(
    choice: Seq<char>,
    openai_ok: bool,
    openai_ok2: bool,
    gemini_ok: bool,
    gemini_ok2: bool,
)
    ensures
        !needs_openai(choice) ==> resolved_slot(choice, openai_ok, gemini_ok) == resolved_slot(
            choice,
            openai_ok2,
            gemini_ok,
        ) && resolved_reason(choice, openai_ok, gemini_ok) == resolved_reason(
            choice,
            openai_ok2,
            gemini_ok,
        ),
        !needs_gemini(choice, openai_ok) ==> resolved_slot(choice, openai_ok, gemini_ok)
            == resolved_slot(choice, openai_ok, gemini_ok2) && resolved_reason(
            choice,
            openai_ok,
            gemini_ok,
        ) == resolved_reason(choice, openai_ok, gemini_ok2),
{
    reveal_strlit("mock");
    reveal_strlit("gemini");
    reveal_strlit("openai");
    assert("mock"@ != "gemini"@ && "mock"@ != "openai"@ && "openai"@ != "gemini"@) by {
        assert("mock"@[0] != "gemini"@[0]);
        assert("mock"@[0] != "openai"@[0]);
        assert("openai"@[0] != "gemini"@[0]);
    }
}

/// What the settings screen shows as the engine in effect: a placeholder
/// when the configured provider has no key, so it is not mistaken for the
/// offline engine chosen on purpose.
pub fn effective_engine_label(resolved: &ResolvedEngine) -> (label: &'static str)
    ensures
        label@ == (if resolved.unavailable_reason is Some {
            "未設定"@
        } else {
            match resolved.engine {
                EngineKind::OpenAi(_) => "openai"@,
                EngineKind::Gemini(_) => "gemini"@,
                EngineKind::Mock(_) => "mock"@,
            }
        }),
{
    if resolved.unavailable_reason.is_some() {
        "未設定"
    } else {
        resolved.engine.name()
    }
}

} // verus!
