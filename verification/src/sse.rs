//! Framing of a server-sent-event byte stream into events.
//!
//! Events end at a blank line, written either `\n\n` or `\r\n\r\n`.  The
//! delimiters are ASCII, so a multi-byte character split across network
//! chunks is never cut by an event boundary: decoding always runs on whole
//! events.
use vstd::prelude::*;
use vstd::utf8::{
    decode_utf8, is_char_boundary, is_char_boundary_iff_not_is_continuation_byte,
    is_char_boundary_start_end_of_seq, decode_utf8_split, valid_utf8, valid_utf8_split,
};

verus! {

/// `\n\n`
pub open spec fn lf_delim() -> Seq<u8> {
    seq![10u8, 10u8]
}

/// `\r\n\r\n`
pub open spec fn crlf_delim() -> Seq<u8> {
    seq![13u8, 10u8, 13u8, 10u8]
}

/// `d` occurs in `b` at position `i`.
pub open spec fn delim_at(b: Seq<u8>, d: Seq<u8>, i: int) -> bool {
    0 <= i && i + d.len() <= b.len() && b.subrange(i, i + d.len()) == d
}

/// The first position at or after `i` where `d` occurs in `b`.
pub open spec fn first_delim_from(b: Seq<u8>, d: Seq<u8>, i: int) -> Option<int>
    decreases b.len() + 1 - i,
{
    if i < 0 || i + d.len() > b.len() {
        None
    } else if delim_at(b, d, i) {
        Some(i)
    } else {
        first_delim_from(b, d, i + 1)
    }
}

/// What `first_delim_from` finds is the earliest occurrence at or after `k`.
pub proof fn lemma_first_delim_from(b: Seq<u8>, d: Seq<u8>, k: int)
    requires
        0 <= k,
    ensures
        first_delim_from(b, d, k) matches Some(i) ==> {
            &&& k <= i
            &&& delim_at(b, d, i)
            &&& forall|j: int| k <= j < i ==> !delim_at(b, d, j)
        },
        first_delim_from(b, d, k) is None ==> forall|j: int| k <= j ==> !delim_at(b, d, j),
    decreases b.len() + 1 - k,
{
    if k + d.len() <= b.len() && !delim_at(b, d, k) {
        lemma_first_delim_from(b, d, k + 1);
    }
}

/// The first position where `d` occurs in `b`.
pub open spec fn first_delim(b: Seq<u8>, d: Seq<u8>) -> Option<int> {
    first_delim_from(b, d, 0)
}

/// Length of the first complete event in `b` (its delimiter included):
/// the event ends at whichever delimiter comes first.
pub open spec fn event_end(b: Seq<u8>) -> Option<int> {
    match (first_delim(b, lf_delim()), first_delim(b, crlf_delim())) {
        (Some(l), Some(c)) => if c < l {
            Some(c + 4)
        } else {
            Some(l + 2)
        },
        (Some(l), None) => Some(l + 2),
        (None, Some(c)) => Some(c + 4),
        (None, None) => None,
    }
}

/// The complete events of a byte stream, in order, as raw bytes.
pub open spec fn events_of(b: Seq<u8>) -> Seq<Seq<u8>>
    decreases b.len(),
{
    match event_end(b) {
        Some(e) => if 0 < e <= b.len() {
            seq![b.take(e)] + events_of(b.skip(e))
        } else {
            seq![]
        },
        None => seq![],
    }
}

/// What stays in the buffer once every complete event has been taken.
pub open spec fn pending_of(b: Seq<u8>) -> Seq<u8>
    decreases b.len(),
{
    match event_end(b) {
        Some(e) => if 0 < e <= b.len() {
            pending_of(b.skip(e))
        } else {
            b
        },
        None => b,
    }
}

/// Byte sequences laid end to end.
pub open spec fn concat(parts: Seq<Seq<u8>>) -> Seq<u8>
    decreases parts.len(),
{
    if parts.len() == 0 {
        seq![]
    } else {
        parts[0] + concat(parts.drop_first())
    }
}

/// `p` ends with a blank line: `\n\n` or `\r\n\r\n`.
pub open spec fn ends_with_blank_line(p: Seq<u8>) -> bool {
    (p.len() >= 2 && p[p.len() - 2] == 10u8 && p[p.len() - 1] == 10u8) || (p.len() >= 4 && p[p.len() - 4]
        == 13u8 && p[p.len() - 3] == 10u8 && p[p.len() - 2] == 13u8 && p[p.len() - 1] == 10u8)
}

/// The first event is the shortest prefix of the buffer that ends with a
/// blank line, in either spelling; there is none exactly when no prefix
/// ends with one.
pub proof fn lemma_event_is_shortest_blank_line_prefix(b: Seq<u8>)
    ensures
        event_end(b) matches Some(e) ==> 0 < e <= b.len() && ends_with_blank_line(b.take(e)) && forall|k: int|
            0 <= k < e ==> !ends_with_blank_line(#[trigger] b.take(k)),
        event_end(b) is None ==> forall|k: int| 0 <= k <= b.len() ==> !ends_with_blank_line(#[trigger] b.take(k)),
{
    let lf = lf_delim();
    let crlf = crlf_delim();
    assert(lf.len() == 2);
    assert(crlf.len() == 4);
    lemma_first_delim_from(b, lf, 0);
    lemma_first_delim_from(b, crlf, 0);
    assert forall|k: int| 0 <= k <= b.len() && #[trigger] ends_with_blank_line(b.take(k)) implies (k >= 2
        && delim_at(b, lf, k - 2)) || (k >= 4 && delim_at(b, crlf, k - 4)) by {
        let p = b.take(k);
        if p.len() >= 2 && p[p.len() - 2] == 10u8 && p[p.len() - 1] == 10u8 {
            assert(b.subrange(k - 2, k) =~= lf);
        } else {
            assert(b.subrange(k - 4, k) =~= crlf);
        }
    }
    assert forall|i: int| #[trigger] delim_at(b, lf, i) implies ends_with_blank_line(b.take(i + 2)) by {
        assert(b.subrange(i, i + 2)[0] == b[i]);
        assert(b.subrange(i, i + 2)[1] == b[i + 1]);
    }
    assert forall|i: int| #[trigger] delim_at(b, crlf, i) implies ends_with_blank_line(b.take(i + 4)) by {
        assert(b.subrange(i, i + 4)[0] == b[i]);
        assert(b.subrange(i, i + 4)[1] == b[i + 1]);
        assert(b.subrange(i, i + 4)[2] == b[i + 2]);
        assert(b.subrange(i, i + 4)[3] == b[i + 3]);
    }
    match (first_delim(b, lf), first_delim(b, crlf)) {
        (Some(l), Some(c)) => {
            assert(b.subrange(c, c + 4)[2] == b[c + 2]);
            assert(b.subrange(c, c + 4)[0] == b[c]);
            assert(b.subrange(l, l + 2)[0] == b[l]);
            assert(b.subrange(l, l + 2)[1] == b[l + 1]);
            if c < l {
                assert(l != c + 1 && l != c + 2);
            }
        },
        _ => {},
    }
}

/// What `String::from_utf8_lossy` makes of a byte sequence.
pub uninterp spec fn utf8_lossy(bytes: Seq<u8>) -> Seq<char>;

/// `String::from_utf8_lossy`: decodes the bytes, putting U+FFFD in place of
/// each invalid sequence.  Claimed: the result is the named function of the
/// bytes, and valid UTF-8 decodes without replacement.
#[verifier::external_body]
pub(crate) fn decode_lossy(bytes: &[u8]) -> (s: String)
    ensures
        s@ == utf8_lossy(bytes@),
        valid_utf8(bytes@) ==> s@ == decode_utf8(bytes@),
{
    String::from_utf8_lossy(bytes).into_owned()
}

/// Accumulates raw stream bytes and hands out complete events.
pub struct SseBuffer {
    bytes: Vec<u8>,
}

impl View for SseBuffer {
    type V = Seq<u8>;

    closed spec fn view(&self) -> Seq<u8> {
        self.bytes@
    }
}

fn find_delim(b: &Vec<u8>, d: &Vec<u8>) -> (r: Option<usize>)
    requires
        d@.len() > 0,
    ensures
        r matches Some(i) ==> first_delim(b@, d@) == Some(i as int),
        r is None ==> first_delim(b@, d@) is None,
{
    let n: usize = b.len();
    let m: usize = d.len();
    proof {
        lemma_first_delim_from(b@, d@, 0);
    }
    if m > n {
        return None;
    }
    let mut i: usize = 0;
    while i <= n - m
        invariant
            n == b.len(),
            m == d.len(),
            0 < m <= n,
            i <= n - m + 1,
            first_delim(b@, d@) == first_delim_from(b@, d@, i as int),
        decreases n + 1 - i,
    {
        let mut k: usize = 0;
        let mut same = true;
        while k < m
            invariant
                i + m <= n == b.len(),
                m == d.len(),
                k <= m,
                same == (forall|j: int| 0 <= j < k ==> b@[i + j] == d@[j]),
            decreases m - k,
        {
            if b[i + k] != d[k] {
                same = false;
            }
            k += 1;
        }
        if same {
            assert(b@.subrange(i as int, i + m) =~= d@);
            return Some(i);
        }
        assert(!delim_at(b@, d@, i as int)) by {
            if delim_at(b@, d@, i as int) {
                let j: int = choose|j: int| 0 <= j < m && b@[i + j] != d@[j];
                assert(b@.subrange(i as int, i + m)[j] == b@[i + j]);
            }
        }
        i += 1;
    }
    None
}

impl SseBuffer {
    /// An empty buffer.
    pub fn new() -> (buf: Self)
        ensures
            buf@ == Seq::<u8>::empty(),
    {
        SseBuffer { bytes: Vec::new() }
    }

    /// Appends a network chunk.
    pub fn push(&mut self, chunk: &[u8])
        ensures
            final(self)@ == old(self)@ + chunk@,
    {
        let mut i: usize = 0;
        while i < chunk.len()
            invariant
                i <= chunk@.len(),
                self@ == old(self)@ + chunk@.take(i as int),
            decreases chunk.len() - i,
        {
            self.bytes.push(chunk[i]);
            assert(chunk@.take(i + 1) =~= chunk@.take(i as int).push(chunk@[i as int]));
            i += 1;
        }
        assert(chunk@.take(chunk@.len() as int) =~= chunk@);
    }

    /// Removes the first complete event, delimiter included, and returns
    /// it decoded (exactly, with no replacement character, when its bytes
    /// are valid UTF-8); `None`, with the buffer unchanged, while no event
    /// is complete.
    pub fn next_event(&mut self) -> (ev: Option<String>)
        ensures
            match event_end(old(self)@) {
                Some(e) => {
                    &&& ev matches Some(s) && s@ == utf8_lossy(old(self)@.take(e))
                    &&& valid_utf8(old(self)@.take(e)) ==> ev->0@ == decode_utf8(old(self)@.take(e))
                    &&& final(self)@ == old(self)@.skip(e)
                },
                None => ev is None && final(self)@ == old(self)@,
            },
    {
        let lf: Vec<u8> = vec![10u8, 10u8];
        let crlf: Vec<u8> = vec![13u8, 10u8, 13u8, 10u8];
        assert(lf@ =~= lf_delim());
        assert(crlf@ =~= crlf_delim());
        let l = find_delim(&self.bytes, &lf);
        let c = find_delim(&self.bytes, &crlf);
        proof {
            lemma_first_delim_from(self@, lf_delim(), 0);
            lemma_first_delim_from(self@, crlf_delim(), 0);
            assert(lf_delim().len() == 2);
            assert(crlf_delim().len() == 4);
        }
        let total: usize = self.bytes.len();
        assert(total == self@.len());
        let end: usize = match (l, c) {
            (Some(l), Some(c)) => if c < l {
                c + 4
            } else {
                l + 2
            },
            (Some(l), None) => l + 2,
            (None, Some(c)) => c + 4,
            (None, None) => {
                return None;
            },
        };
        let mut event = self.bytes.split_off(end);
        std::mem::swap(&mut event, &mut self.bytes);
        Some(decode_lossy(event.as_slice()))
    }
}

/// An occurrence found by the earliest-first scan is what it returns.
proof fn lemma_first_delim_is(b: Seq<u8>, d: Seq<u8>, k: int, i: int)
    requires
        0 <= k <= i,
        delim_at(b, d, i),
        forall|j: int| k <= j < i ==> !delim_at(b, d, j),
    ensures
        first_delim_from(b, d, k) == Some(i),
    decreases i - k,
{
    if k < i {
        lemma_first_delim_is(b, d, k + 1, i);
    }
}

/// Appending bytes leaves every occurrence that lies within `b` as it was.
proof fn lemma_delim_at_extend(b: Seq<u8>, x: Seq<u8>, d: Seq<u8>, j: int)
    requires
        0 <= j,
        j + d.len() <= b.len(),
    ensures
        delim_at(b + x, d, j) == delim_at(b, d, j),
{
    assert((b + x).subrange(j, j + d.len()) =~= b.subrange(j, j + d.len()));
}

/// Appending bytes keeps a first occurrence found in `b`, and an
/// occurrence that appears only after appending ends beyond `b`.
proof fn lemma_first_delim_extend(b: Seq<u8>, x: Seq<u8>, d: Seq<u8>)
    ensures
        first_delim(b, d) matches Some(i) ==> first_delim(b + x, d) == Some(i),
        first_delim(b, d) is None ==> (first_delim(b + x, d) matches Some(i) ==> i + d.len()
            > b.len()),
{
    lemma_first_delim_from(b, d, 0);
    lemma_first_delim_from(b + x, d, 0);
    if let Some(i) = first_delim(b, d) {
        assert forall|j: int| 0 <= j < i implies !delim_at(b + x, d, j) by {
            lemma_delim_at_extend(b, x, d, j);
        }
        lemma_delim_at_extend(b, x, d, i);
        lemma_first_delim_is(b + x, d, 0, i);
    } else {
        if let Some(i) = first_delim(b + x, d) {
            if i + d.len() <= b.len() {
                lemma_delim_at_extend(b, x, d, i);
            }
        }
    }
}

/// A complete event stays the same event however many bytes follow it:
/// how the stream was cut into network chunks does not matter.
pub proof fn lemma_event_end_extend(b: Seq<u8>, x: Seq<u8>)
    ensures
        event_end(b) matches Some(e) ==> event_end(b + x) == Some(e),
{
    let lf = lf_delim();
    let crlf = crlf_delim();
    assert(lf.len() == 2);
    assert(crlf.len() == 4);
    lemma_first_delim_extend(b, x, lf);
    lemma_first_delim_extend(b, x, crlf);
    lemma_first_delim_from(b, lf, 0);
    lemma_first_delim_from(b, crlf, 0);
    lemma_first_delim_from(b + x, lf, 0);
    lemma_first_delim_from(b + x, crlf, 0);
    match (first_delim(b, lf), first_delim(b, crlf)) {
        (Some(l), None) => {
            if let Some(c) = first_delim(b + x, crlf) {
                if c < l {
                    assert(c == l - 1);
                    assert((b + x).subrange(c, c + 4)[2] == (b + x)[l + 1]);
                    assert((b + x).subrange(l, l + 2)[1] == (b + x)[l + 1]);
                    assert(false);
                }
            }
        },
        _ => {},
    }
}

/// The events found in a stream are a prefix of those found once more
/// bytes have arrived: events come out in order and are never revised.
pub proof fn lemma_events_prefix(b: Seq<u8>, x: Seq<u8>)
    ensures
        events_of(b).len() <= events_of(b + x).len(),
        events_of(b) == events_of(b + x).take(events_of(b).len() as int),
    decreases b.len(),
{
    lemma_event_end_extend(b, x);
    match event_end(b) {
        Some(e) => {
            if 0 < e <= b.len() {
                assert((b + x).take(e) =~= b.take(e));
                assert((b + x).skip(e) =~= b.skip(e) + x);
                lemma_events_prefix(b.skip(e), x);
                let rest = events_of(b.skip(e));
                let rest_x = events_of(b.skip(e) + x);
                assert(events_of(b) == seq![b.take(e)] + rest);
                assert(events_of(b + x) == seq![b.take(e)] + rest_x);
                assert(events_of(b) =~= events_of(b + x).take(events_of(b).len() as int));
            } else {
                assert(events_of(b) =~= events_of(b + x).take(0));
            }
        },
        None => {
            assert(events_of(b) =~= events_of(b + x).take(0));
        },
    }
}

/// A complete event ends with a line feed.
proof fn lemma_event_ends_with_lf(b: Seq<u8>)
    ensures
        event_end(b) matches Some(e) ==> 0 < e <= b.len() && b[e - 1] == 10u8,
{
    let lf = lf_delim();
    let crlf = crlf_delim();
    assert(lf.len() == 2);
    assert(crlf.len() == 4);
    lemma_first_delim_from(b, lf, 0);
    lemma_first_delim_from(b, crlf, 0);
    match (first_delim(b, lf), first_delim(b, crlf)) {
        (Some(l), Some(c)) => {
            assert(b.subrange(l, l + 2)[1] == b[l + 1]);
            assert(b.subrange(c, c + 4)[3] == b[c + 3]);
        },
        (Some(l), None) => {
            assert(b.subrange(l, l + 2)[1] == b[l + 1]);
        },
        (None, Some(c)) => {
            assert(b.subrange(c, c + 4)[3] == b[c + 3]);
        },
        (None, None) => {},
    }
}

/// In valid UTF-8 input an event boundary is a character boundary, so each
/// event decodes on its own to exactly its part of the whole text: no
/// character is ever split between two events.
pub proof fn lemma_event_keeps_characters_whole(b: Seq<u8>)
    requires
        valid_utf8(b),
    ensures
        event_end(b) matches Some(e) ==> {
            &&& valid_utf8(b.take(e))
            &&& valid_utf8(b.skip(e))
            &&& decode_utf8(b) == decode_utf8(b.take(e)) + decode_utf8(b.skip(e))
        },
{
    lemma_event_ends_with_lf(b);
    if let Some(e) = event_end(b) {
        is_char_boundary_iff_not_is_continuation_byte(b, e - 1);
        valid_utf8_split(b, e - 1);
        if e < b.len() {
            let tail = b.subrange(e - 1, b.len() as int);
            assert(tail[0] == 10u8);
            assert(tail.len() != 0);
            let rest = tail.subrange(1, tail.len() as int);
            assert(rest =~= b.subrange(e, b.len() as int));
            assert(valid_utf8(rest));
            assert(rest[0] == b[e]);
            is_char_boundary_iff_not_is_continuation_byte(b, e);
        } else {
            is_char_boundary_start_end_of_seq(b);
        }
        assert(is_char_boundary(b, e));
        valid_utf8_split(b, e);
        decode_utf8_split(b, e);
        assert(b.take(e) =~= b.subrange(0, e));
        assert(b.skip(e) =~= b.subrange(e, b.len() as int));
    }
}

/// No byte is lost or invented: the events, in order, followed by what is
/// still pending, are exactly the bytes received; and what is pending holds
/// no complete event.
pub proof fn lemma_events_and_pending_partition(b: Seq<u8>)
    ensures
        concat(events_of(b)) + pending_of(b) == b,
        event_end(pending_of(b)) is None || !(0 < event_end(pending_of(b))->0 <= pending_of(b).len()),
    decreases b.len(),
{
    match event_end(b) {
        Some(e) => {
            if 0 < e <= b.len() {
                lemma_events_and_pending_partition(b.skip(e));
                let rest = events_of(b.skip(e));
                assert(events_of(b) == seq![b.take(e)] + rest);
                assert((seq![b.take(e)] + rest).drop_first() =~= rest);
                assert(concat(events_of(b)) == b.take(e) + concat(rest));
                assert(b.take(e) + (concat(rest) + pending_of(b.skip(e))) =~= b);
            } else {
                assert(concat(events_of(b)) + b =~= b);
            }
        },
        None => {
            assert(concat(events_of(b)) + b =~= b);
        },
    }
}

} // verus!
