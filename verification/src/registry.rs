//! In-flight translations, one per window, each tagged with its request id
//! (its generation).  Starting a new translation in a window supersedes the
//! one running there; finishing or cancelling only acts on the generation
//! it names, so a late message about an old generation cannot touch the
//! new one.  The registry hands back the cancel handle that must be fired.
use crate::text::str_eq;
use vstd::prelude::*;

verus! {

/// One in-flight translation.
pub struct Inflight<C> {
    pub label: String,
    pub request_id: u64,
    pub cancel: C,
}

/// The in-flight translations, keyed by window label.
pub struct TranslationRegistry<C> {
    inflight: Vec<Inflight<C>>,
}

/// Starting `id` in window `l` replaces whatever ran there.
pub open spec fn begin_map<C>(m: Map<Seq<char>, (u64, C)>, l: Seq<char>, id: u64, h: C) -> Map<
    Seq<char>,
    (u64, C),
> {
    m.insert(l, (id, h))
}

/// Finishing `id` in window `l` forgets it only when it is still current there.
pub open spec fn finish_map<C>(m: Map<Seq<char>, (u64, C)>, l: Seq<char>, id: u64) -> Map<
    Seq<char>,
    (u64, C),
> {
    if m.contains_key(l) && m[l].0 == id {
        m.remove(l)
    } else {
        m
    }
}

/// A cancel reaches window `l` when something runs there and, if it names a
/// generation, that generation is the current one.
pub open spec fn cancel_applies<C>(m: Map<Seq<char>, (u64, C)>, l: Seq<char>, id: Option<u64>) -> bool {
    m.contains_key(l) && (id matches Some(i) ==> m[l].0 == i)
}

/// The registry after a cancel.
pub open spec fn cancel_map<C>(m: Map<Seq<char>, (u64, C)>, l: Seq<char>, id: Option<u64>) -> Map<
    Seq<char>,
    (u64, C),
> {
    if cancel_applies(m, l, id) {
        m.remove(l)
    } else {
        m
    }
}

/// No two entries for one window.
pub open spec fn unique_labels<C>(s: Seq<Inflight<C>>) -> bool {
    forall|i: int, j: int|
        0 <= i < s.len() && 0 <= j < s.len() && i != j ==> #[trigger] s[i].label@ != #[trigger] s[j].label@
}

/// The entries as a map from window label to generation and cancel handle.
pub open spec fn entries_map<C>(s: Seq<Inflight<C>>) -> Map<Seq<char>, (u64, C)> {
    Map::new(
        |l: Seq<char>| exists|i: int| 0 <= i < s.len() && s[i].label@ == l,
        |l: Seq<char>|
            {
                let i = choose|i: int| 0 <= i < s.len() && s[i].label@ == l;
                (s[i].request_id, s[i].cancel)
            },
    )
}

proof fn lemma_entries_map_at<C>(s: Seq<Inflight<C>>, i: int)
    requires
        unique_labels(s),
        0 <= i < s.len(),
    ensures
        entries_map(s).contains_key(s[i].label@),
        entries_map(s)[s[i].label@] == (s[i].request_id, s[i].cancel),
{
    let l = s[i].label@;
    assert(exists|k: int| 0 <= k < s.len() && s[k].label@ == l);
    let k = choose|k: int| 0 <= k < s.len() && s[k].label@ == l;
    assert(k == i);
}

proof fn lemma_entries_map_remove<C>(s: Seq<Inflight<C>>, i: int)
    requires
        unique_labels(s),
        0 <= i < s.len(),
    ensures
        unique_labels(s.remove(i)),
        entries_map(s.remove(i)) == entries_map(s).remove(s[i].label@),
{
    let t = s.remove(i);
    let l = s[i].label@;
    assert(unique_labels(t)) by {
        assert forall|a: int, b: int|
            0 <= a < t.len() && 0 <= b < t.len() && a != b implies #[trigger] t[a].label@
            != #[trigger] t[b].label@ by {
            let a2 = if a < i { a } else { a + 1 };
            let b2 = if b < i { b } else { b + 1 };
            assert(t[a] == s[a2] && t[b] == s[b2]);
        }
    }
    let lhs = entries_map(t);
    let rhs = entries_map(s).remove(l);
    assert forall|k: Seq<char>| lhs.contains_key(k) <==> rhs.contains_key(k) by {
        if lhs.contains_key(k) {
            let a = choose|a: int| 0 <= a < t.len() && t[a].label@ == k;
            let a2 = if a < i { a } else { a + 1 };
            assert(s[a2] == t[a]);
            assert(a2 != i);
        }
        if rhs.contains_key(k) {
            let a = choose|a: int| 0 <= a < s.len() && s[a].label@ == k;
            assert(a != i);
            let a2 = if a < i { a } else { a - 1 };
            assert(t[a2] == s[a]);
        }
    }
    assert forall|k: Seq<char>| #[trigger] lhs.contains_key(k) implies lhs[k] == rhs[k] by {
        let a = choose|a: int| 0 <= a < t.len() && t[a].label@ == k;
        let a2 = if a < i { a } else { a + 1 };
        assert(s[a2] == t[a]);
        lemma_entries_map_at(t, a);
        lemma_entries_map_at(s, a2);
    }
    assert(lhs =~= rhs);
}

proof fn lemma_entries_map_push<C>(s: Seq<Inflight<C>>, e: Inflight<C>)
    requires
        unique_labels(s),
        !entries_map(s).contains_key(e.label@),
    ensures
        unique_labels(s.push(e)),
        entries_map(s.push(e)) == entries_map(s).insert(e.label@, (e.request_id, e.cancel)),
{
    let t = s.push(e);
    assert forall|a: int, b: int|
        0 <= a < t.len() && 0 <= b < t.len() && a != b implies #[trigger] t[a].label@
        != #[trigger] t[b].label@ by {
        if a < s.len() && b < s.len() {
            assert(t[a] == s[a] && t[b] == s[b]);
        } else if a < s.len() {
            assert(t[a] == s[a]);
            assert(entries_map(s).contains_key(s[a].label@));
        } else {
            assert(t[b] == s[b]);
            assert(entries_map(s).contains_key(s[b].label@));
        }
    }
    let lhs = entries_map(t);
    let rhs = entries_map(s).insert(e.label@, (e.request_id, e.cancel));
    assert forall|k: Seq<char>| lhs.contains_key(k) <==> rhs.contains_key(k) by {
        if lhs.contains_key(k) {
            let a = choose|a: int| 0 <= a < t.len() && t[a].label@ == k;
            if a < s.len() {
                assert(t[a] == s[a]);
            }
        }
        if rhs.contains_key(k) && k != e.label@ {
            let a = choose|a: int| 0 <= a < s.len() && s[a].label@ == k;
            assert(t[a] == s[a]);
        }
        if k == e.label@ {
            assert(t[s.len() as int] == e);
        }
    }
    assert forall|k: Seq<char>| #[trigger] lhs.contains_key(k) implies lhs[k] == rhs[k] by {
        let a = choose|a: int| 0 <= a < t.len() && t[a].label@ == k;
        lemma_entries_map_at(t, a);
        if a < s.len() {
            assert(t[a] == s[a]);
            lemma_entries_map_at(s, a);
        }
    }
    assert(lhs =~= rhs);
}

impl<C> TranslationRegistry<C> {
    /// No window has two entries.
    #[verifier::type_invariant]
    closed spec fn labels_unique(self) -> bool {
        unique_labels(self.inflight@)
    }

    /// The in-flight generation and cancel handle of each window.
    pub closed spec fn inflight_map(self) -> Map<Seq<char>, (u64, C)> {
        entries_map(self.inflight@)
    }

    /// An empty registry.
    pub fn new() -> (r: Self)
        ensures
            r.inflight_map() == Map::<Seq<char>, (u64, C)>::empty(),
    {
        let r = TranslationRegistry { inflight: Vec::new() };
        assert(r.inflight_map() =~= Map::<Seq<char>, (u64, C)>::empty());
        r
    }

    fn position(&self, label: &str) -> (r: Option<usize>)
        ensures
            r matches Some(i) ==> i < self.inflight@.len() && self.inflight@[i as int].label@ == label@,
            r is None ==> !self.inflight_map().contains_key(label@),
    {
        let mut i: usize = 0;
        while i < self.inflight.len()
            invariant
                i <= self.inflight@.len(),
                forall|j: int| 0 <= j < i ==> self.inflight@[j].label@ != label@,
            decreases self.inflight.len() - i,
        {
            if str_eq(self.inflight[i].label.as_str(), label) {
                return Some(i);
            }
            i += 1;
        }
        None
    }

    /// Records generation `request_id` as the one running in window `label`
    /// and returns the cancel handle of the generation it supersedes there,
    /// which the caller fires.
    pub fn begin(&mut self, label: &str, request_id: u64, cancel: C) -> (superseded: Option<C>)
        ensures
            final(self).inflight_map() == begin_map(old(self).inflight_map(), label@, request_id, cancel),
            superseded == (if old(self).inflight_map().contains_key(label@) {
                Some(old(self).inflight_map()[label@].1)
            } else {
                None::<C>
            }),
    {
        proof {
            use_type_invariant(&*self);
        }
        let mut superseded: Option<C> = None;
        let pos = self.position(label);
        let mut entries: Vec<Inflight<C>> = Vec::new();
        std::mem::swap(&mut entries, &mut self.inflight);
        let ghost before = entries@;
        if let Some(i) = pos {
            proof {
                lemma_entries_map_at(before, i as int);
                lemma_entries_map_remove(before, i as int);
            }
            let old_entry = entries.remove(i);
            superseded = Some(old_entry.cancel);
        }
        let ghost mid = entries@;
        let e = Inflight { label: label.to_owned(), request_id, cancel };
        proof {
            lemma_entries_map_push(mid, e);
        }
        entries.push(e);
        self.inflight = entries;
        assert(self.inflight_map() =~= begin_map(entries_map(before), label@, request_id, cancel));
        superseded
    }

    /// Forgets window `label`'s translation if `request_id` is still the
    /// generation running there; a stale finish changes nothing.
    pub fn finish(&mut self, label: &str, request_id: u64)
        ensures
            final(self).inflight_map() == finish_map(old(self).inflight_map(), label@, request_id),
    {
        proof {
            use_type_invariant(&*self);
        }
        if let Some(i) = self.position(label) {
            if self.inflight[i].request_id == request_id {
                let mut entries: Vec<Inflight<C>> = Vec::new();
                std::mem::swap(&mut entries, &mut self.inflight);
                proof {
                    lemma_entries_map_at(entries@, i as int);
                    lemma_entries_map_remove(entries@, i as int);
                }
                let _gone = entries.remove(i);
                self.inflight = entries;
            } else {
                proof {
                    lemma_entries_map_at(self.inflight@, i as int);
                }
            }
        }
    }

    /// Cancels window `label`'s translation when `request_id` names its
    /// current generation, or unconditionally when it is `None` (a window
    /// being torn down), and returns the handle to fire.
    pub fn cancel(&mut self, label: &str, request_id: Option<u64>) -> (fired: Option<C>)
        ensures
            final(self).inflight_map() == cancel_map(old(self).inflight_map(), label@, request_id),
            fired == (if cancel_applies(old(self).inflight_map(), label@, request_id) {
                Some(old(self).inflight_map()[label@].1)
            } else {
                None::<C>
            }),
    {
        proof {
            use_type_invariant(&*self);
        }
        let i = match self.position(label) {
            Some(i) => i,
            None => return None,
        };
        proof {
            lemma_entries_map_at(self.inflight@, i as int);
        }
        let applies = match request_id {
            None => true,
            Some(id) => self.inflight[i].request_id == id,
        };
        if !applies {
            return None;
        }
        let mut entries: Vec<Inflight<C>> = Vec::new();
        std::mem::swap(&mut entries, &mut self.inflight);
        proof {
            lemma_entries_map_remove(entries@, i as int);
        }
        let gone = entries.remove(i);
        self.inflight = entries;
        Some(gone.cancel)
    }
}

/// Beginning a generation then finishing it leaves the window idle.
pub proof fn lemma_finish_after_begin<C>(m: Map<Seq<char>, (u64, C)>, l: Seq<char>, id: u64, h: C)
    ensures
        finish_map(begin_map(m, l, id, h), l, id) == m.remove(l),
{
    assert(finish_map(begin_map(m, l, id, h), l, id) =~= m.remove(l));
}

/// A stale finish from a superseded generation leaves the newer one in place.
pub proof fn lemma_stale_finish_keeps_current<C>(
    m: Map<Seq<char>, (u64, C)>,
    l: Seq<char>,
    old_id: u64,
    new_id: u64,
    h: C,
)
    requires
        old_id != new_id,
    ensures
        finish_map(begin_map(m, l, new_id, h), l, old_id) == begin_map(m, l, new_id, h),
{
}

/// A cancel naming a superseded generation does not reach the current one;
/// one naming the current generation does.
pub proof fn lemma_cancel_targets_generation<C>(
    m: Map<Seq<char>, (u64, C)>,
    l: Seq<char>,
    current: u64,
    other: u64,
    h: C,
)
    requires
        other != current,
    ensures
        !cancel_applies(begin_map(m, l, current, h), l, Some(other)),
        cancel_map(begin_map(m, l, current, h), l, Some(other)) == begin_map(m, l, current, h),
        cancel_applies(begin_map(m, l, current, h), l, Some(current)),
        cancel_applies(begin_map(m, l, current, h), l, None),
        begin_map(m, l, current, h)[l].1 == h,
{
}

/// What happens in one window never touches another window's entry.
pub proof fn lemma_windows_are_independent<C>(
    m: Map<Seq<char>, (u64, C)>,
    l: Seq<char>,
    other: Seq<char>,
    id: u64,
    req: Option<u64>,
    h: C,
)
    requires
        l != other,
    ensures
        begin_map(m, l, id, h).contains_key(other) == m.contains_key(other),
        finish_map(m, l, id).contains_key(other) == m.contains_key(other),
        cancel_map(m, l, req).contains_key(other) == m.contains_key(other),
        m.contains_key(other) ==> begin_map(m, l, id, h)[other] == m[other] && finish_map(m, l, id)[other]
            == m[other] && cancel_map(m, l, req)[other] == m[other],
{
}

} // verus!
