//! Translation history: the record kept for each finished translation,
//! the selection of recent records, and the size-bounded rotation of the
//! history file (one JSON record per line).
use crate::text::{
    chars_of, dec_signed, hex, is_blank, is_blank_str, lines, lines_str, prefix_chars, push_char,
    radix_string, str_eq, take_chars, views,
};
use vstd::prelude::*;
use vstd::utf8::encode_utf8;

verus! {

/// Characters of the source kept as its preview.
pub const SOURCE_PREVIEW_CHARS: usize = 200;

/// Records shown in the history list.
pub const HISTORY_DISPLAY_LIMIT: usize = 50;

/// Records kept in the history file.
pub const HISTORY_MAX_RECORDS: usize = 500;

/// Characters of a translation kept in its record.
pub const HISTORY_TRANSLATED_MAX_CHARS: usize = 50000;

/// File size from which each append rewrites the file.
pub const ROTATE_TRIGGER_BYTES: u64 = 4194304;

/// Size the rewritten file is brought under.
pub const ROTATE_TARGET_BYTES: usize = 2097152;

/// Every this many appends the file is rewritten whatever its size.
pub const FORCE_ROTATE_EVERY_APPENDS: u32 = 50;

/// One finished translation.
pub struct HistoryRecord {
    pub id: String,
    pub timestamp_ms: i64,
    pub source_preview: String,
    pub translated_text: String,
    pub is_html: bool,
    pub engine: String,
}

/// The preview of a source text: its first `max` characters; for HTML the
/// first `max` characters outside tags.
pub open spec fn preview_spec(s: Seq<char>, max: nat, strip_tags: bool, in_tag: bool) -> Seq<char>
    decreases s.len(),
{
    if !strip_tags {
        prefix_chars(s, max)
    } else if s.len() == 0 || max == 0 {
        seq![]
    } else if s[0] == '<' {
        preview_spec(s.drop_first(), max, strip_tags, true)
    } else if s[0] == '>' {
        preview_spec(s.drop_first(), max, strip_tags, false)
    } else if !in_tag {
        seq![s[0]] + preview_spec(s.drop_first(), (max - 1) as nat, strip_tags, in_tag)
    } else {
        preview_spec(s.drop_first(), max, strip_tags, in_tag)
    }
}

/// Preview of a source text.  Tags are stripped for HTML sources only, so
/// a `<` in plain text (such as `a < b` in code) is kept.
pub fn text_preview(source: &str, max_chars: usize, strip_tags: bool) -> (p: String)
    ensures
        p@ == preview_spec(source@, max_chars as nat, strip_tags, false),
{
    if !strip_tags {
        return take_chars(source, max_chars);
    }
    let v = chars_of(source);
    let mut preview = String::new();
    let mut count: usize = 0;
    let mut in_tag = false;
    let mut i: usize = 0;
    assert(v@.skip(0) =~= v@);
    while i < v.len() && count < max_chars
        invariant
            i <= v.len(),
            v@ == source@,
            count <= max_chars,
            preview_spec(source@, max_chars as nat, true, false) == preview@ + preview_spec(
                v@.skip(i as int),
                (max_chars - count) as nat,
                true,
                in_tag,
            ),
        decreases v.len() - i,
    {
        let ch = v[i];
        let ghost rest = v@.skip(i as int);
        assert(rest[0] == ch);
        assert(rest.drop_first() =~= v@.skip(i + 1));
        if ch == '<' {
            in_tag = true;
        } else if ch == '>' {
            in_tag = false;
        } else if !in_tag {
            let ghost before = preview@;
            push_char(&mut preview, ch);
            assert(before + (seq![ch] + preview_spec(v@.skip(i + 1), (max_chars - count - 1) as nat, true, in_tag))
                =~= preview@ + preview_spec(v@.skip(i + 1), (max_chars - count - 1) as nat, true, in_tag));
            count += 1;
        }
        i += 1;
    }
    assert(preview_spec(v@.skip(i as int), (max_chars - count) as nat, true, in_tag) =~= Seq::<char>::empty());
    preview
}

/// The record's id: the timestamp, a dash, and the sub-second nanoseconds
/// in hexadecimal.
pub open spec fn record_id(timestamp_ms: i64, subsec_nanos: u32) -> Seq<char> {
    dec_signed(timestamp_ms as int) + "-"@ + hex(subsec_nanos as nat)
}

/// `SystemTime::now().duration_since(UNIX_EPOCH)`, as whole milliseconds
/// and the sub-second nanoseconds (zero before the epoch).  Claimed: the
/// nanoseconds are below one billion, as `Duration::subsec_nanos` documents.
#[verifier::external_body]
fn now_since_epoch() -> (r: (u128, u32))
    ensures
        r.1 < 1000000000,
{
    let now = std::time::SystemTime::now().duration_since(std::time::UNIX_EPOCH).unwrap_or_default();
    (now.as_millis(), now.subsec_nanos())
}

fn signed_string(n: i64) -> (s: String)
    ensures
        s@ == dec_signed(n as int),
{
    if n < 0 {
        let mut s = "-".to_owned();
        let magnitude: u64 = if n == i64::MIN {
            9223372036854775808u64
        } else {
            (-n) as u64
        };
        let digits = radix_string(magnitude, 10);
        s.append(digits.as_str());
        proof {
            reveal_strlit("-");
        }
        s
    } else {
        radix_string(n as u64, 10)
    }
}

impl HistoryRecord {
    /// A record stamped with the current time.
    pub fn new(source_text: &str, translated_text: String, is_html: bool, engine: &str) -> (r: Self)
        ensures
            r.source_preview@ == preview_spec(source_text@, SOURCE_PREVIEW_CHARS as nat, is_html, false),
            r.translated_text@ == prefix_chars(translated_text@, HISTORY_TRANSLATED_MAX_CHARS as nat),
            r.is_html == is_html,
            r.engine@ == engine@,
            exists|nanos: u32| nanos < 1000000000 && r.id@ == record_id(r.timestamp_ms, nanos),
    {
        let (millis, nanos) = now_since_epoch();
        Self::at_time(source_text, translated_text, is_html, engine, millis, nanos)
    }

    /// The record for a translation finished `millis` milliseconds (plus
    /// `nanos` nanoseconds) after the epoch.  The translation is cut to
    /// `HISTORY_TRANSLATED_MAX_CHARS` characters so the file stays small.
    pub fn at_time(
        source_text: &str,
        translated_text: String,
        is_html: bool,
        engine: &str,
        millis: u128,
        nanos: u32,
    ) -> (r: Self)
        ensures
            r.timestamp_ms == millis as i64,
            r.id@ == record_id(r.timestamp_ms, nanos),
            r.source_preview@ == preview_spec(source_text@, SOURCE_PREVIEW_CHARS as nat, is_html, false),
            r.translated_text@ == prefix_chars(translated_text@, HISTORY_TRANSLATED_MAX_CHARS as nat),
            r.is_html == is_html,
            r.engine@ == engine@,
    {
        let timestamp_ms: i64 = millis as i64;
        let mut id = signed_string(timestamp_ms);
        id.append("-");
        let h = radix_string(nanos as u64, 16);
        id.append(h.as_str());
        let source_preview = text_preview(source_text, SOURCE_PREVIEW_CHARS, is_html);
        let kept = take_chars(translated_text.as_str(), HISTORY_TRANSLATED_MAX_CHARS);
        HistoryRecord {
            id,
            timestamp_ms,
            source_preview,
            translated_text: kept,
            is_html,
            engine: engine.to_owned(),
        }
    }
}

/// The lines that are not blank, in order.
pub open spec fn non_blank(ls: Seq<Seq<char>>) -> Seq<Seq<char>>
    decreases ls.len(),
{
    if ls.len() == 0 {
        seq![]
    } else if is_blank(ls.last()) {
        non_blank(ls.drop_last())
    } else {
        non_blank(ls.drop_last()).push(ls.last())
    }
}

/// The record lines of a history file, oldest first.
pub open spec fn record_lines(content: Seq<char>) -> Seq<Seq<char>> {
    non_blank(lines(content))
}

/// The record lines of a history file, oldest first (blank lines skipped).
pub fn history_lines(content: &str) -> (out: Vec<String>)
    ensures
        views(out@) == record_lines(content@),
{
    let all = lines_str(content);
    let ghost lv = lines(content@);
    let mut out: Vec<String> = Vec::new();
    let mut i: usize = 0;
    while i < all.len()
        invariant
            i <= all.len(),
            views(all@) == lv,
            views(out@) == non_blank(lv.take(i as int)),
        decreases all.len() - i,
    {
        let ghost t = lv.take(i + 1);
        assert(t.drop_last() =~= lv.take(i as int));
        assert(t.last() == all@[i as int]@);
        if !is_blank_str(all[i].as_str()) {
            let line = all[i].clone();
            let ghost before = views(out@);
            out.push(line);
            assert(views(out@) =~= before.push(t.last()));
        }
        i += 1;
    }
    assert(lv.take(all.len() as int) =~= lv);
    out
}

/// The newest `n` records, most recent first.
pub open spec fn newest_first<T>(s: Seq<T>, n: nat) -> Seq<T> {
    let r = s.reverse();
    if n < r.len() {
        r.take(n as int)
    } else {
        r
    }
}

/// The records to list: most recent first, at most `limit` of them.
pub fn select_recent<T>(records: Vec<T>, limit: usize) -> (out: Vec<T>)
    ensures
        out@ == newest_first(records@, limit as nat),
{
    let mut records = records;
    let ghost orig = records@;
    let mut out: Vec<T> = Vec::new();
    while out.len() < limit && records.len() > 0
        invariant
            out@.len() <= limit,
            out@.len() + records@.len() == orig.len(),
            records@ == orig.take(records@.len() as int),
            out@ == orig.reverse().take(out@.len() as int),
        decreases records@.len(),
    {
        let ghost k = records@.len();
        let r = records.pop().unwrap();
        assert(r == orig[k - 1]);
        assert(orig.reverse()[out@.len() as int] == orig[k - 1]);
        let ghost before = out@;
        out.push(r);
        assert(out@ =~= orig.reverse().take(out@.len() as int));
        assert(records@ =~= orig.take(records@.len() as int));
    }
    assert(out@ =~= newest_first(orig, limit as nat));
    out
}

/// The first record with the given id.
pub fn find_by_id(records: Vec<HistoryRecord>, id: &str) -> (r: Option<HistoryRecord>)
    ensures
        r matches Some(rec) ==> exists|i: int|
            0 <= i < records@.len() && records@[i] == rec && rec.id@ == id@ && forall|j: int|
                0 <= j < i ==> #[trigger] records@[j].id@ != id@,
        r is None ==> forall|j: int| 0 <= j < records@.len() ==> #[trigger] records@[j].id@ != id@,
{
    let mut i: usize = 0;
    let mut found = false;
    while i < records.len() && !found
        invariant
            i <= records@.len(),
            found ==> i < records@.len() && records@[i as int].id@ == id@,
            forall|j: int| 0 <= j < i ==> #[trigger] records@[j].id@ != id@,
        decreases records.len() - i + (if found { 0int } else { 1int }),
    {
        if str_eq(records[i].id.as_str(), id) {
            found = true;
        } else {
            i += 1;
        }
    }
    if found {
        let mut rest = records;
        let rec = rest.remove(i);
        Some(rec)
    } else {
        None
    }
}

/// Whether this append rewrites the file: every `FORCE_ROTATE_EVERY_APPENDS`
/// appends (the first included), or once the file reaches
/// `ROTATE_TRIGGER_BYTES`.
pub fn should_rotate(append_count: u32, file_size: u64) -> (b: bool)
    ensures
        b == (append_count % FORCE_ROTATE_EVERY_APPENDS == 0 || file_size >= ROTATE_TRIGGER_BYTES),
{
    append_count % FORCE_ROTATE_EVERY_APPENDS == 0 || file_size >= ROTATE_TRIGGER_BYTES
}

/// Bytes a line takes in the file (its UTF-8 length, as `str::len`
/// reports it), its newline included.
pub open spec fn line_size(l: Seq<char>) -> nat {
    (encode_utf8(l).len() as usize) as nat + 1
}

/// Bytes a sequence of lines takes in the file.
pub open spec fn total_size(ls: Seq<Seq<char>>) -> nat
    decreases ls.len(),
{
    if ls.len() == 0 {
        0
    } else {
        line_size(ls[0]) + total_size(ls.drop_first())
    }
}

/// Drops the oldest lines until the rest fits in `budget` bytes.
pub open spec fn within_budget(ls: Seq<Seq<char>>, budget: nat) -> Seq<Seq<char>>
    decreases ls.len(),
{
    if ls.len() > 0 && total_size(ls) > budget {
        within_budget(ls.drop_first(), budget)
    } else {
        ls
    }
}

/// The newest `n` lines, oldest first.
pub open spec fn newest_lines(ls: Seq<Seq<char>>, n: nat) -> Seq<Seq<char>> {
    if ls.len() > n {
        ls.skip(ls.len() - n)
    } else {
        ls
    }
}

/// Lines written one per line.
pub open spec fn joined_lines(ls: Seq<Seq<char>>) -> Seq<char>
    decreases ls.len(),
{
    if ls.len() == 0 {
        seq![]
    } else {
        joined_lines(ls.drop_last()) + ls.last() + seq!['\n']
    }
}

/// The lines a rotation keeps: the newest `HISTORY_MAX_RECORDS` record
/// lines, less the oldest of them while they exceed `ROTATE_TARGET_BYTES`.
pub open spec fn rotation_keeps(content: Seq<char>) -> Seq<Seq<char>> {
    within_budget(newest_lines(record_lines(content), HISTORY_MAX_RECORDS as nat), ROTATE_TARGET_BYTES as nat)
}

/// The file after a rotation (a lone newline when nothing is kept).
pub open spec fn rotated_spec(content: Seq<char>) -> Seq<char> {
    let keep = rotation_keeps(content);
    if keep.len() == 0 {
        seq!['\n']
    } else {
        joined_lines(keep)
    }
}

/// Rewrites the history file's content to its newest records within the
/// count and size limits, oldest first.
pub fn rotated_content(content: &str) -> (r: String)
    ensures
        r@ == rotated_spec(content@),
{
    let ls = history_lines(content);
    let ghost all = record_lines(content@);
    let n: usize = ls.len();
    let mut start: usize = if n > HISTORY_MAX_RECORDS {
        n - HISTORY_MAX_RECORDS
    } else {
        0
    };
    assert(views(ls@).subrange(start as int, n as int) =~= newest_lines(all, HISTORY_MAX_RECORDS as nat));
    let mut total: u128 = 0;
    let mut i: usize = n;
    while i > start
        invariant
            start <= i <= n == ls@.len(),
            views(ls@) == all,
            total == total_size(all.subrange(i as int, n as int)),
            total <= (n - i) as u128 * 18446744073709551616u128,
            n - start <= 500,
        decreases i,
    {
        i -= 1;
        let b: usize = ls[i].as_str().len();
        proof {
            let sub = all.subrange(i as int, n as int);
            assert(sub.drop_first() =~= all.subrange(i + 1, n as int));
            assert(sub[0] == ls@[i as int]@);
        }
        total = total + b as u128 + 1;
    }
    while start < n && total > ROTATE_TARGET_BYTES as u128
        invariant
            start <= n == ls@.len(),
            views(ls@) == all,
            total == total_size(all.subrange(start as int, n as int)),
            rotation_keeps(content@) == within_budget(all.subrange(start as int, n as int), ROTATE_TARGET_BYTES as nat),
        decreases n - start,
    {
        let b: usize = ls[start].as_str().len();
        proof {
            let sub = all.subrange(start as int, n as int);
            assert(sub.drop_first() =~= all.subrange(start + 1, n as int));
            assert(sub[0] == ls@[start as int]@);
        }
        total = total - b as u128 - 1;
        start += 1;
    }
    let ghost keep = all.subrange(start as int, n as int);
    assert(rotation_keeps(content@) == keep);
    let mut out = String::new();
    let mut k: usize = start;
    while k < n
        invariant
            start <= k <= n == ls@.len(),
            views(ls@) == all,
            keep == all.subrange(start as int, n as int),
            out@ == joined_lines(all.subrange(start as int, k as int)),
        decreases n - k,
    {
        out.append(ls[k].as_str());
        push_char(&mut out, '\n');
        proof {
            let t = all.subrange(start as int, k + 1);
            assert(t.drop_last() =~= all.subrange(start as int, k as int));
            assert(t.last() == ls@[k as int]@);
        }
        k += 1;
    }
    if start == n {
        push_char(&mut out, '\n');
        assert(out@ =~= seq!['\n']);
    }
    out
}

/// A preview never holds more than `max` characters.
pub proof fn lemma_preview_bounded(s: Seq<char>, max: nat, strip_tags: bool, in_tag: bool)
    ensures
        preview_spec(s, max, strip_tags, in_tag).len() <= max,
    decreases s.len(),
{
    if strip_tags && s.len() > 0 && max > 0 {
        if s[0] == '<' || s[0] == '>' || in_tag {
            lemma_preview_bounded(s.drop_first(), max, strip_tags, s[0] == '<' || (s[0] != '>' && in_tag));
        } else {
            lemma_preview_bounded(s.drop_first(), (max - 1) as nat, strip_tags, in_tag);
        }
    }
}

/// An HTML preview holds no tag delimiters.
pub proof fn lemma_html_preview_has_no_tags(s: Seq<char>, max: nat, in_tag: bool)
    ensures
        forall|i: int|
            0 <= i < preview_spec(s, max, true, in_tag).len() ==> #[trigger] preview_spec(s, max, true, in_tag)[i]
                != '<' && preview_spec(s, max, true, in_tag)[i] != '>',
    decreases s.len(),
{
    if s.len() > 0 && max > 0 {
        if s[0] == '<' {
            lemma_html_preview_has_no_tags(s.drop_first(), max, true);
            assert(preview_spec(s, max, true, in_tag) == preview_spec(s.drop_first(), max, true, true));
        } else if s[0] == '>' {
            lemma_html_preview_has_no_tags(s.drop_first(), max, false);
            assert(preview_spec(s, max, true, in_tag) == preview_spec(s.drop_first(), max, true, false));
        } else if !in_tag {
            lemma_html_preview_has_no_tags(s.drop_first(), (max - 1) as nat, in_tag);
            let p = preview_spec(s, max, true, in_tag);
            let q = preview_spec(s.drop_first(), (max - 1) as nat, true, in_tag);
            assert(p == seq![s[0]] + q);
            assert forall|i: int| 0 <= i < p.len() implies #[trigger] p[i] != '<' && p[i] != '>' by {
                if i > 0 {
                    assert(p[i] == q[i - 1]);
                }
            }
        } else {
            lemma_html_preview_has_no_tags(s.drop_first(), max, in_tag);
            assert(preview_spec(s, max, true, in_tag) == preview_spec(s.drop_first(), max, true, in_tag));
        }
    }
}

proof fn lemma_within_budget(ls: Seq<Seq<char>>, budget: nat)
    ensures
        within_budget(ls, budget).len() <= ls.len(),
        within_budget(ls, budget).len() == 0 || total_size(within_budget(ls, budget)) <= budget,
        within_budget(ls, budget) == ls.skip(ls.len() - within_budget(ls, budget).len()),
    decreases ls.len(),
{
    if ls.len() > 0 && total_size(ls) > budget {
        lemma_within_budget(ls.drop_first(), budget);
        let w = within_budget(ls.drop_first(), budget);
        assert(ls.drop_first().skip(ls.len() - 1 - w.len()) =~= ls.skip(ls.len() - w.len()));
    } else {
        assert(ls.skip(0) =~= ls);
    }
}

/// A rotation keeps at most `HISTORY_MAX_RECORDS` records, within
/// `ROTATE_TARGET_BYTES` unless it keeps none, and they are the newest
/// records of the file, in their order.
pub proof fn lemma_rotation_bounds(content: Seq<char>)
    ensures
        rotation_keeps(content).len() <= HISTORY_MAX_RECORDS,
        rotation_keeps(content).len() == 0 || total_size(rotation_keeps(content)) <= ROTATE_TARGET_BYTES,
        rotation_keeps(content) == record_lines(content).skip(
            record_lines(content).len() - rotation_keeps(content).len(),
        ),
{
    let all = record_lines(content);
    let newest = newest_lines(all, HISTORY_MAX_RECORDS as nat);
    lemma_within_budget(newest, ROTATE_TARGET_BYTES as nat);
    let keep = rotation_keeps(content);
    if all.len() > HISTORY_MAX_RECORDS {
        assert(newest.skip(newest.len() - keep.len()) =~= all.skip(all.len() - keep.len()));
    }
}

proof fn lemma_within_budget_drops_only_over(ls: Seq<Seq<char>>, budget: nat)
    ensures
        within_budget(ls, budget) == ls.skip(ls.len() - within_budget(ls, budget).len()),
        forall|j: int|
            0 <= j < ls.len() - within_budget(ls, budget).len() ==> #[trigger] total_size(ls.skip(j)) > budget,
    decreases ls.len(),
{
    lemma_within_budget(ls, budget);
    if ls.len() > 0 && total_size(ls) > budget {
        let t = ls.drop_first();
        lemma_within_budget_drops_only_over(t, budget);
        let w = within_budget(t, budget);
        assert forall|j: int| 0 <= j < ls.len() - within_budget(ls, budget).len() implies #[trigger] total_size(ls.skip(j)) > budget by {
            if j == 0 {
                assert(ls.skip(0) =~= ls);
            } else {
                assert(ls.skip(j) =~= t.skip(j - 1));
            }
        }
    }
}

/// A rotation keeps the longest run of newest records that fits both
/// limits (500 records, 2 MiB): every longer run of newest records breaks
/// one of them.  So a file within both limits keeps every record.
pub proof fn lemma_rotation_keeps_all_that_fits(content: Seq<char>)
    ensures
        ({
            let all = record_lines(content);
            let keep = rotation_keeps(content);
            &&& keep.len() <= 500
            &&& keep == all.skip(all.len() - keep.len())
            &&& forall|k: int|
                keep.len() < k <= all.len() ==> k > 500 || #[trigger] total_size(all.skip(all.len() - k)) > 2097152
            &&& (all.len() <= 500 && total_size(all) <= 2097152) ==> keep == all
        }),
{
    lemma_rotation_bounds(content);
    let all = record_lines(content);
    let keep = rotation_keeps(content);
    let newest = newest_lines(all, HISTORY_MAX_RECORDS as nat);
    let s0: int = if all.len() > 500 { all.len() - 500 } else { 0 };
    assert(newest =~= all.skip(s0));
    lemma_within_budget_drops_only_over(newest, ROTATE_TARGET_BYTES as nat);
    let d = newest.len() - keep.len();
    assert forall|k: int| keep.len() < k <= all.len() implies k > 500 || #[trigger] total_size(all.skip(all.len() - k)) > 2097152 by {
        if k <= 500 {
            let j = all.len() - k - s0;
            assert(0 <= j < d);
            assert(all.skip(all.len() - k) =~= newest.skip(j));
        }
    }
    if all.len() <= 500 && total_size(all) <= 2097152 {
        if keep.len() < all.len() {
            assert(all.skip(0) =~= all);
            assert(total_size(all.skip(all.len() - all.len())) > 2097152);
        }
        assert(keep =~= all.skip(0));
        assert(all.skip(0) =~= all);
    }
}

/// The record lines are exactly the lines that are not blank, in file order.
pub proof fn lemma_record_lines_are_non_blank_lines(ls: Seq<Seq<char>>)
    ensures
        non_blank(ls) == ls.filter(|l: Seq<char>| !is_blank(l)),
    decreases ls.len(),
{
    reveal_with_fuel(Seq::<_>::filter, 1);
    if ls.len() > 0 {
        lemma_record_lines_are_non_blank_lines(ls.drop_last());
        assert(ls.drop_last() =~= ls.subrange(0, ls.len() - 1));
    } else {
        assert(ls.filter(|l: Seq<char>| !is_blank(l)) =~= Seq::<Seq<char>>::empty());
    }
}

/// The recent list holds at most `limit` records, the newest first.
pub proof fn lemma_recent_newest_first<T>(s: Seq<T>, limit: nat)
    ensures
        newest_first(s, limit).len() <= limit,
        newest_first(s, limit).len() == if s.len() < limit { s.len() } else { limit },
        forall|i: int| 0 <= i < newest_first(s, limit).len() ==> #[trigger] newest_first(s, limit)[i] == s[s.len() - 1 - i],
{
}

} // verus!
