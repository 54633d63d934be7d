//! The offline engine: a fixed reply streamed word by word, used when no
//! API key is configured and selectable for trying the app out.
use super::{chunk_views, TranslationChunk, TranslationInput};
use crate::text::{prefix_chars, split_inclusive, split_inclusive_str, take_chars, views};
use vstd::prelude::*;

verus! {

/// Milliseconds between two streamed words.
pub const STREAM_INTERVAL_MS: u64 = 100;

/// The offline engine.
pub struct MockEngine;

/// The reply to HTML input: a marker paragraph, then the input unchanged.
pub open spec fn structure_preserving_reply(html: Seq<char>) -> Seq<char> {
    "<p>[モック翻訳・構造保持]</p>"@ + html
}

/// The reply to plain text: a fixed sentence quoting the first 24 characters.
pub open spec fn fixed_reply(input: Seq<char>) -> Seq<char> {
    "これはモックエンジンによる固定の和訳です。原文の冒頭は「"@ + prefix_chars(input, 24)
        + "」でした。 実際の翻訳エンジン(OpenAI)は次のタスクで接続されます。 このストリームは100ミリ秒間隔で単語ごとに流れます。"@
}

/// Echoes HTML behind a marker, so the structure survives the round trip.
pub fn structure_preserving_mock(html: &str) -> (s: String)
    ensures
        s@ == structure_preserving_reply(html@),
{
    let mut s = "<p>[モック翻訳・構造保持]</p>".to_owned();
    s.append(html);
    s
}

/// The fixed reply to plain text.
pub fn fixed_translation(input: &str) -> (s: String)
    ensures
        s@ == fixed_reply(input@),
{
    let mut s = "これはモックエンジンによる固定の和訳です。原文の冒頭は「".to_owned();
    let preview = take_chars(input, 24);
    s.append(preview.as_str());
    s.append("」でした。 実際の翻訳エンジン(OpenAI)は次のタスクで接続されます。 このストリームは100ミリ秒間隔で単語ごとに流れます。");
    s
}

/// The reply to an input.
pub open spec fn mock_reply(input: TranslationInput) -> Seq<char> {
    match input {
        TranslationInput::Html(h) => structure_preserving_reply(h@),
        TranslationInput::PlainText(t) => fixed_reply(t@),
    }
}

/// The stream for a reply: one text chunk per space-terminated word, then done.
pub open spec fn mock_stream(reply: Seq<char>) -> Seq<(Seq<char>, bool, bool)> {
    split_inclusive(reply, ' ').map_values(|w: Seq<char>| (w, false, false)).push(
        (Seq::<char>::empty(), true, false),
    )
}

impl MockEngine {
    /// Always "mock".
    pub fn name(&self) -> (n: &'static str)
        ensures
            n@ == "mock"@,
    {
        "mock"
    }

    /// The chunks the engine streams for `input`, in order; they are sent
    /// `STREAM_INTERVAL_MS` apart, and sending stops at the first refusal.
    pub fn chunks(&self, input: &TranslationInput) -> (out: Vec<TranslationChunk>)
        ensures
            chunk_views(out@) == mock_stream(mock_reply(*input)),
    {
        let body: String = match input {
            TranslationInput::Html(html) => structure_preserving_mock(html.as_str()),
            TranslationInput::PlainText(text) => fixed_translation(text.as_str()),
        };
        let words = split_inclusive_str(body.as_str(), ' ');
        let ghost ws = split_inclusive(body@, ' ');
        let mut out: Vec<TranslationChunk> = Vec::new();
        let mut i: usize = 0;
        while i < words.len()
            invariant
                i <= words.len(),
                views(words@) == ws,
                chunk_views(out@) == ws.take(i as int).map_values(|w: Seq<char>| (w, false, false)),
            decreases words.len() - i,
        {
            let c = TranslationChunk::text(words[i].as_str());
            let ghost prev = out@;
            let ghost cv = c@;
            out.push(c);
            assert(ws[i as int] == words@[i as int]@);
            assert(chunk_views(out@) =~= chunk_views(prev).push(cv));
            assert(ws.take(i + 1) =~= ws.take(i as int).push(ws[i as int]));
            assert(chunk_views(out@) =~= ws.take(i + 1).map_values(|w: Seq<char>| (w, false, false)));
            i += 1;
        }
        assert(ws.take(words.len() as int) =~= ws);
        let ghost prev = out@;
        out.push(TranslationChunk::done());
        assert(chunk_views(out@) =~= chunk_views(prev).push((Seq::<char>::empty(), true, false)));
        out
    }
}

} // verus!
