//! The bookkeeping of one streamed translation in a window: which events
//! reach the front end, what text accumulates, and whether the result goes
//! to the history.
use crate::engine::TranslationChunk;
use crate::text::{is_blank, is_blank_str};
use vstd::prelude::*;

verus! {

/// The event the front end receives for each chunk.
pub struct TranslateChunkEvent {
    pub request_id: u64,
    pub text: String,
    pub done: bool,
    pub error: bool,
}

/// The message shown when the engine stopped without ending its stream.
pub open spec fn interrupted_message() -> Seq<char> {
    "翻訳が中断されました。再試行してください。"@
}

/// The state of a stream, as a mathematical value.
pub struct SessionState {
    pub text: Seq<char>,
    pub completed: bool,
    pub errored: bool,
    pub stopped: bool,
}

/// The state before any chunk.
pub open spec fn initial_state() -> SessionState {
    SessionState { text: seq![], completed: false, errored: false, stopped: false }
}

/// One chunk's effect: error text is shown but never accumulated; a done
/// chunk completes and stops the stream; nothing changes once stopped.
pub open spec fn step(s: SessionState, c: (Seq<char>, bool, bool)) -> SessionState {
    if s.stopped {
        s
    } else {
        SessionState {
            text: if c.2 { s.text } else { s.text + c.0 },
            completed: s.completed || c.1,
            errored: s.errored || c.2,
            stopped: c.1,
        }
    }
}

/// The state after a sequence of chunks.
pub open spec fn run(s: SessionState, cs: Seq<(Seq<char>, bool, bool)>) -> SessionState
    decreases cs.len(),
{
    if cs.len() == 0 {
        s
    } else {
        run(step(s, cs[0]), cs.drop_first())
    }
}

/// The stream ended normally with some text and no error: it is recorded.
pub open spec fn goes_to_history(s: SessionState) -> bool {
    s.completed && !s.errored && !is_blank(s.text)
}

/// One window's stream of chunks for request `request_id`.
pub struct TranslationSession {
    request_id: u64,
    full_text: String,
    completed: bool,
    errored: bool,
    stopped: bool,
}

impl TranslationSession {
    pub closed spec fn state(&self) -> SessionState {
        SessionState {
            text: self.full_text@,
            completed: self.completed,
            errored: self.errored,
            stopped: self.stopped,
        }
    }

    pub closed spec fn spec_request_id(&self) -> u64 {
        self.request_id
    }

    /// A stream that has received nothing yet.
    pub fn new(request_id: u64) -> (s: Self)
        ensures
            s.state() == initial_state(),
            s.spec_request_id() == request_id,
    {
        TranslationSession {
            request_id,
            full_text: String::new(),
            completed: false,
            errored: false,
            stopped: false,
        }
    }

    /// Takes a chunk from the engine and returns the event to emit; after a
    /// done chunk the stream is stopped.
    pub fn on_chunk(&mut self, chunk: TranslationChunk) -> (ev: TranslateChunkEvent)
        requires
            !old(self).state().stopped,
        ensures
            final(self).state() == step(old(self).state(), chunk@),
            final(self).spec_request_id() == old(self).spec_request_id(),
            ev.request_id == old(self).spec_request_id(),
            ev.text@ == chunk.text@,
            ev.done == chunk.done,
            ev.error == chunk.error,
    {
        if !chunk.error {
            self.full_text.append(chunk.text.as_str());
        }
        if chunk.error {
            self.errored = true;
        }
        if chunk.done {
            self.completed = true;
            self.stopped = true;
        }
        TranslateChunkEvent {
            request_id: self.request_id,
            text: chunk.text,
            done: chunk.done,
            error: chunk.error,
        }
    }

    /// The engine dropped its end of the channel without a done chunk: an
    /// abnormal end, reported as an error rather than as completion.
    pub fn on_channel_closed(&mut self) -> (ev: TranslateChunkEvent)
        requires
            !old(self).state().stopped,
        ensures
            final(self).state() == (SessionState { stopped: true, ..old(self).state() }),
            final(self).spec_request_id() == old(self).spec_request_id(),
            ev.request_id == old(self).spec_request_id(),
            ev.text@ == interrupted_message(),
            ev.done,
            ev.error,
    {
        self.stopped = true;
        TranslateChunkEvent {
            request_id: self.request_id,
            text: "翻訳が中断されました。再試行してください。".to_owned(),
            done: true,
            error: true,
        }
    }

    /// The user stopped the translation: no event, no history.
    pub fn on_cancel(&mut self)
        ensures
            final(self).state() == (SessionState { stopped: true, ..old(self).state() }),
            final(self).spec_request_id() == old(self).spec_request_id(),
    {
        self.stopped = true;
    }

    pub fn is_stopped(&self) -> (b: bool)
        ensures
            b == self.state().stopped,
    {
        self.stopped
    }

    /// The text to record in the history, when the stream qualifies.
    pub fn history_text(&self) -> (t: Option<String>)
        ensures
            t is Some <==> goes_to_history(self.state()),
            t matches Some(x) ==> x@ == self.state().text,
    {
        if self.completed && !self.errored && !is_blank_str(self.full_text.as_str()) {
            Some(self.full_text.clone())
        } else {
            None
        }
    }
}

/// The event answering a paste with nothing to translate: done, no error.
pub fn empty_input_event(request_id: u64) -> (ev: TranslateChunkEvent)
    ensures
        ev.request_id == request_id,
        ev.text@ == Seq::<char>::empty(),
        ev.done,
        !ev.error,
{
    TranslateChunkEvent { request_id, text: String::new(), done: true, error: false }
}

/// The event answering a request while the configured engine has no key:
/// done, as an error carrying the reason.
pub fn unavailable_event(request_id: u64, reason: String) -> (ev: TranslateChunkEvent)
    ensures
        ev.request_id == request_id,
        ev.text@ == reason@,
        ev.done,
        ev.error,
{
    TranslateChunkEvent { request_id, text: reason, done: true, error: true }
}

/// The text of the non-error chunks up to and including the first done chunk.
pub open spec fn text_until_done(cs: Seq<(Seq<char>, bool, bool)>) -> Seq<char>
    decreases cs.len(),
{
    if cs.len() == 0 {
        seq![]
    } else {
        let head = if cs[0].2 { Seq::<char>::empty() } else { cs[0].0 };
        if cs[0].1 {
            head
        } else {
            head + text_until_done(cs.drop_first())
        }
    }
}

/// Some chunk is a done chunk.
pub open spec fn reaches_done(cs: Seq<(Seq<char>, bool, bool)>) -> bool {
    exists|i: int| 0 <= i < cs.len() && cs[i].1
}

/// Some chunk up to and including the first done chunk is an error.
pub open spec fn error_until_done(cs: Seq<(Seq<char>, bool, bool)>) -> bool
    decreases cs.len(),
{
    if cs.len() == 0 {
        false
    } else if cs[0].2 {
        true
    } else if cs[0].1 {
        false
    } else {
        error_until_done(cs.drop_first())
    }
}

/// What a stream amounts to: the text is exactly the non-error text
/// received up to the first done chunk, chunks after it are ignored, and it
/// goes to the history exactly when a done chunk arrived, no error came
/// before or with it, and the text is not blank.
pub proof fn lemma_stream_outcome(cs: Seq<(Seq<char>, bool, bool)>)
    ensures
        run(initial_state(), cs).text == text_until_done(cs),
        run(initial_state(), cs).completed == reaches_done(cs),
        run(initial_state(), cs).errored == error_until_done(cs),
        goes_to_history(run(initial_state(), cs)) <==> (reaches_done(cs) && !error_until_done(cs)
            && !is_blank(text_until_done(cs))),
{
    lemma_run_from(initial_state(), cs);
    assert(Seq::<char>::empty() + text_until_done(cs) =~= text_until_done(cs));
}

proof fn lemma_run_stopped(s: SessionState, cs: Seq<(Seq<char>, bool, bool)>)
    requires
        s.stopped,
    ensures
        run(s, cs) == s,
    decreases cs.len(),
{
    if cs.len() > 0 {
        lemma_run_stopped(step(s, cs[0]), cs.drop_first());
    }
}

proof fn lemma_run_from(s: SessionState, cs: Seq<(Seq<char>, bool, bool)>)
    requires
        !s.stopped,
        !s.completed,
    ensures
        run(s, cs).text == s.text + text_until_done(cs),
        run(s, cs).completed == reaches_done(cs),
        run(s, cs).errored == (s.errored || error_until_done(cs)),
    decreases cs.len(),
{
    if cs.len() == 0 {
        assert(s.text + Seq::<char>::empty() =~= s.text);
    } else {
        let t = step(s, cs[0]);
        if cs[0].1 {
            lemma_run_stopped(t, cs.drop_first());
            if cs[0].2 {
                assert(s.text + Seq::<char>::empty() =~= s.text);
            }
        } else {
            lemma_run_from(t, cs.drop_first());
            let head = if cs[0].2 { Seq::<char>::empty() } else { cs[0].0 };
            assert(t.text =~= s.text + head);
            assert(s.text + head + text_until_done(cs.drop_first()) =~= s.text + (head + text_until_done(cs.drop_first())));
            assert(reaches_done(cs) == reaches_done(cs.drop_first())) by {
                if reaches_done(cs) {
                    let i = choose|i: int| 0 <= i < cs.len() && cs[i].1;
                    assert(cs.drop_first()[i - 1] == cs[i]);
                }
                if reaches_done(cs.drop_first()) {
                    let i = choose|i: int| 0 <= i < cs.drop_first().len() && cs.drop_first()[i].1;
                    assert(cs[i + 1] == cs.drop_first()[i]);
                }
            }
        }
    }
}

} // verus!
