//! Local reading markers: when each record was last reviewed or
//! acknowledged, kept in key order and bounded in number.
use vstd::prelude::*;
use crate::text::chars_of;

verus! {

// ---------------------------------------------------------------------------
// Text order
// ---------------------------------------------------------------------------

/// Lexicographic order of texts by character code, which is the byte order
/// of their UTF-8 encodings.
pub open spec fn text_lt(a: Seq<char>, b: Seq<char>) -> bool
    decreases a.len(),
{
    if a.len() == 0 {
        b.len() > 0
    } else if b.len() == 0 {
        false
    } else if a[0] != b[0] {
        a[0] < b[0]
    } else {
        text_lt(a.drop_first(), b.drop_first())
    }
}

pub(crate) proof fn lemma_text_lt_irreflexive(a: Seq<char>)
    ensures
        !text_lt(a, a),
    decreases a.len(),
{
    if a.len() > 0 {
        lemma_text_lt_irreflexive(a.drop_first());
    }
}

pub(crate) proof fn lemma_text_lt_transitive(a: Seq<char>, b: Seq<char>, c: Seq<char>)
    requires
        text_lt(a, b),
        text_lt(b, c),
    ensures
        text_lt(a, c),
    decreases a.len(),
{
    if a.len() > 0 && b.len() > 0 && c.len() > 0 && a[0] == b[0] && b[0] == c[0] {
        lemma_text_lt_transitive(a.drop_first(), b.drop_first(), c.drop_first());
    }
}

pub(crate) proof fn lemma_text_lt_total(a: Seq<char>, b: Seq<char>)
    ensures
        a == b || text_lt(a, b) || text_lt(b, a),
    decreases a.len(),
{
    if a.len() > 0 && b.len() > 0 && a[0] == b[0] {
        lemma_text_lt_total(a.drop_first(), b.drop_first());
        if a.drop_first() == b.drop_first() {
            assert(a =~= seq![a[0]] + a.drop_first());
            assert(b =~= seq![b[0]] + b.drop_first());
        }
    } else if a.len() == 0 && b.len() == 0 {
        assert(a =~= b);
    } else if a.len() > 0 && b.len() > 0 {
        assert(a[0] != b[0]);
    }
}

pub(crate) fn text_less(a: &String, b: &String) -> (r: bool)
    ensures
        r == text_lt(a@, b@),
{
    let x = chars_of(a.as_str());
    let y = chars_of(b.as_str());
    let mut i: usize = 0;
    assert(x@.skip(0) =~= x@);
    assert(y@.skip(0) =~= y@);
    while i < x.len() && i < y.len() && x[i] == y[i]
        invariant
            i <= x.len(),
            i <= y.len(),
            text_lt(x@, y@) == text_lt(x@.skip(i as int), y@.skip(i as int)),
        decreases x.len() - i,
    {
        assert(x@.skip(i as int).drop_first() =~= x@.skip(i + 1));
        assert(y@.skip(i as int).drop_first() =~= y@.skip(i + 1));
        i += 1;
    }
    if i == x.len() {
        i < y.len()
    } else if i == y.len() {
        false
    } else {
        x[i] < y[i]
    }
}

// ---------------------------------------------------------------------------
// Markers
// ---------------------------------------------------------------------------

/// Reading markers by record key, with the time each was set.
pub struct Markers {
    entries: Vec<(String, i64)>,
}

/// The map a list of distinct-key entries stands for.
pub open spec fn to_map(s: Seq<(Seq<char>, i64)>) -> Map<Seq<char>, i64>
    decreases s.len(),
{
    if s.len() == 0 {
        Map::empty()
    } else {
        to_map(s.drop_last()).insert(s.last().0, s.last().1)
    }
}

/// Entries in strictly increasing key order.
pub open spec fn key_sorted(s: Seq<(Seq<char>, i64)>) -> bool {
    forall|i: int, j: int| 0 <= i < j < s.len() ==> text_lt(#[trigger] s[i].0, #[trigger] s[j].0)
}

proof fn lemma_to_map(s: Seq<(Seq<char>, i64)>)
    requires
        key_sorted(s),
    ensures
        forall|k: Seq<char>| #[trigger] to_map(s).dom().contains(k) <==> exists|i: int| 0 <= i < s.len() && s[i].0 == k,
        forall|i: int| 0 <= i < s.len() ==> #[trigger] to_map(s)[s[i].0] == s[i].1,
        to_map(s).dom().finite(),
        to_map(s).dom().len() == s.len(),
    decreases s.len(),
{
    if s.len() > 0 {
        let rest = s.drop_last();
        assert forall|i: int, j: int| 0 <= i < j < rest.len() implies text_lt(#[trigger] rest[i].0, #[trigger] rest[j].0) by {
            assert(rest[i] == s[i] && rest[j] == s[j]);
        }
        lemma_to_map(rest);
        let last = s.last();
        assert(!to_map(rest).dom().contains(last.0)) by {
            if to_map(rest).dom().contains(last.0) {
                let i = choose|i: int| 0 <= i < rest.len() && rest[i].0 == last.0;
                assert(text_lt(s[i].0, s[s.len() - 1].0));
                lemma_text_lt_irreflexive(last.0);
            }
        }
        assert forall|k: Seq<char>| #[trigger] to_map(s).dom().contains(k) <==> exists|i: int| 0 <= i < s.len() && s[i].0 == k by {
            if to_map(s).dom().contains(k) {
                if k == last.0 {
                    assert(s[s.len() - 1].0 == k);
                } else {
                    let i = choose|i: int| 0 <= i < rest.len() && rest[i].0 == k;
                    assert(s[i].0 == k);
                }
            }
            if exists|i: int| 0 <= i < s.len() && s[i].0 == k {
                let i = choose|i: int| 0 <= i < s.len() && s[i].0 == k;
                if i < rest.len() {
                    assert(rest[i].0 == k);
                }
            }
        }
        assert forall|i: int| 0 <= i < s.len() implies #[trigger] to_map(s)[s[i].0] == s[i].1 by {
            if i < rest.len() {
                assert(rest[i] == s[i]);
                assert(to_map(rest).dom().contains(rest[i].0));
                assert(s[i].0 != last.0) by {
                    assert(text_lt(s[i].0, s[s.len() - 1].0));
                    if s[i].0 == last.0 {
                        lemma_text_lt_irreflexive(last.0);
                    }
                }
            }
        }
    }
}

impl Markers {
    /// The markers as (key, time) pairs in key order.
    pub closed spec fn pairs(&self) -> Seq<(Seq<char>, i64)> {
        self.entries@.map_values(|e: (String, i64)| (e.0@, e.1))
    }

    /// Each marked key and its time.
    pub open spec fn view(&self) -> Map<Seq<char>, i64> {
        to_map(self.pairs())
    }

    pub open spec fn wf(&self) -> bool {
        key_sorted(self.pairs())
    }

    pub fn new() -> (r: Self)
        ensures
            r.wf(),
            r.pairs() == Seq::<(Seq<char>, i64)>::empty(),
            r@ == Map::<Seq<char>, i64>::empty(),
    {
        let r = Markers { entries: Vec::new() };
        assert(r.pairs() =~= Seq::<(Seq<char>, i64)>::empty());
        r
    }

    pub fn len(&self) -> (r: usize)
        requires
            self.wf(),
        ensures
            r == self@.dom().len(),
            r == self.pairs().len(),
    {
        proof {
            lemma_to_map(self.pairs());
        }
        self.entries.len()
    }

    /// The number of markers whose key comes before `key`.
    fn lower_bound(&self, key: &String) -> (p: usize)
        requires
            self.wf(),
        ensures
            p <= self.pairs().len(),
            forall|j: int| 0 <= j < p ==> text_lt(#[trigger] self.pairs()[j].0, key@),
            forall|j: int| p <= j < self.pairs().len() ==> !text_lt(#[trigger] self.pairs()[j].0, key@),
    {
        let mut lo: usize = 0;
        let mut hi: usize = self.entries.len();
        while lo < hi
            invariant
                self.wf(),
                lo <= hi <= self.entries.len(),
                self.pairs().len() == self.entries.len(),
                forall|j: int| 0 <= j < lo ==> text_lt(#[trigger] self.pairs()[j].0, key@),
                forall|j: int| hi <= j < self.pairs().len() ==> !text_lt(#[trigger] self.pairs()[j].0, key@),
            decreases hi - lo,
        {
            let mid = lo + (hi - lo) / 2;
            proof {
                assert(self.pairs()[mid as int].0 == self.entries@[mid as int].0@);
            }
            if text_less(&self.entries[mid].0, key) {
                proof {
                    assert forall|j: int| 0 <= j <= mid implies text_lt(#[trigger] self.pairs()[j].0, key@) by {
                        if j < mid {
                            assert(text_lt(self.pairs()[j].0, self.pairs()[mid as int].0));
                            lemma_text_lt_transitive(self.pairs()[j].0, self.pairs()[mid as int].0, key@);
                        }
                    }
                }
                lo = mid + 1;
            } else {
                proof {
                    assert forall|j: int| mid <= j < self.pairs().len() implies !text_lt(#[trigger] self.pairs()[j].0, key@) by {
                        if j > mid && text_lt(self.pairs()[j].0, key@) {
                            assert(text_lt(self.pairs()[mid as int].0, self.pairs()[j].0));
                            lemma_text_lt_transitive(self.pairs()[mid as int].0, self.pairs()[j].0, key@);
                        }
                    }
                }
                hi = mid;
            }
        }
        lo
    }

    /// The time marked for `key`.
    pub fn get(&self, key: &str) -> (r: Option<i64>)
        requires
            self.wf(),
        ensures
            r == (if self@.dom().contains(key@) {
                Some(self@[key@])
            } else {
                None::<i64>
            }),
    {
        proof {
            lemma_to_map(self.pairs());
        }
        let target = key.to_string();
        let p = self.lower_bound(&target);
        if p < self.entries.len() && self.entries[p].0 == target {
            proof {
                assert(self.pairs()[p as int] == (self.entries@[p as int].0@, self.entries@[p as int].1));
                assert(self@[self.pairs()[p as int].0] == self.pairs()[p as int].1);
            }
            Some(self.entries[p].1)
        } else {
            proof {
                if self@.dom().contains(key@) {
                    let i = choose|i: int| 0 <= i < self.pairs().len() && self.pairs()[i].0 == key@;
                    if i < p {
                        lemma_text_lt_irreflexive(key@);
                    } else if i == p {
                        assert(self.pairs()[p as int].0 == self.entries@[p as int].0@);
                    } else {
                        assert(text_lt(self.pairs()[p as int].0, self.pairs()[i].0));
                    }
                }
            }
            None
        }
    }

    pub fn contains_key(&self, key: &str) -> (r: bool)
        requires
            self.wf(),
        ensures
            r == self@.dom().contains(key@),
    {
        self.get(key).is_some()
    }

    /// Marks `key` at time `at`, replacing an earlier mark.
    pub fn insert(&mut self, key: String, at: i64)
        requires
            old(self).wf(),
        ensures
            final(self).wf(),
            final(self)@ == old(self)@.insert(key@, at),
    {
        let ghost before = self.pairs();
        let n = self.entries.len();
        let p = self.lower_bound(&key);
        proof {
            lemma_to_map(before);
        }
        if p < n && !text_less(&key, &self.entries[p].0) {
            proof {
                assert(before[p as int].0 == self.entries@[p as int].0@);
                lemma_text_lt_total(before[p as int].0, key@);
            }
            self.entries.set(p, (key, at));
            proof {
                let after = self.pairs();
                assert(after =~= before.update(p as int, (key@, at)));
                assert forall|i: int, j: int| 0 <= i < j < after.len() implies text_lt(#[trigger] after[i].0, #[trigger] after[j].0) by {
                    assert(after[i].0 == before[i].0 && after[j].0 == before[j].0);
                }
                lemma_to_map(after);
                assert(self@ =~= to_map(before).insert(key@, at)) by {
                    assert forall|k: Seq<char>| #[trigger] self@.dom().contains(k) == to_map(before).insert(key@, at).dom().contains(k) by {
                        if self@.dom().contains(k) {
                            let i = choose|i: int| 0 <= i < after.len() && after[i].0 == k;
                            if i != p {
                                assert(before[i].0 == k);
                            }
                        }
                        if to_map(before).dom().contains(k) {
                            let i = choose|i: int| 0 <= i < before.len() && before[i].0 == k;
                            assert(after[i].0 == k);
                        }
                    }
                    assert forall|k: Seq<char>| #[trigger] self@.dom().contains(k) implies self@[k] == to_map(before).insert(key@, at)[k] by {
                        let i = choose|i: int| 0 <= i < after.len() && after[i].0 == k;
                        if i != p {
                            assert(before[i] == after[i]);
                        }
                    }
                }
            }
        } else {
            proof {
                if p < n {
                    assert(before[p as int].0 == self.entries@[p as int].0@);
                    lemma_text_lt_total(before[p as int].0, key@);
                }
            }
            let ghost k = key@;
            self.entries.insert(p, (key, at));
            proof {
                let after = self.pairs();
                assert(after =~= before.insert(p as int, (k, at)));
                assert forall|i: int, j: int| 0 <= i < j < after.len() implies text_lt(#[trigger] after[i].0, #[trigger] after[j].0) by {
                    if j < p {
                        assert(after[i] == before[i] && after[j] == before[j]);
                    } else if j == p {
                        assert(after[i] == before[i]);
                    } else if i < p {
                        assert(after[i] == before[i] && after[j] == before[j - 1]);
                        assert(text_lt(before[i].0, k));
                        assert(text_lt(k, before[p as int].0));
                        if j - 1 > p {
                            assert(text_lt(before[p as int].0, before[j - 1].0));
                            lemma_text_lt_transitive(k, before[p as int].0, before[j - 1].0);
                        }
                        lemma_text_lt_transitive(before[i].0, k, before[j - 1].0);
                    } else if i == p {
                        assert(after[j] == before[j - 1]);
                        if j - 1 > p {
                            assert(text_lt(before[p as int].0, before[j - 1].0));
                            lemma_text_lt_transitive(k, before[p as int].0, before[j - 1].0);
                        }
                    } else {
                        assert(after[i] == before[i - 1] && after[j] == before[j - 1]);
                    }
                }
                lemma_to_map(after);
                assert(!to_map(before).dom().contains(k)) by {
                    if to_map(before).dom().contains(k) {
                        let i = choose|i: int| 0 <= i < before.len() && before[i].0 == k;
                        if i < p {
                            lemma_text_lt_irreflexive(k);
                        } else {
                            if i > p {
                                assert(text_lt(before[p as int].0, before[i].0));
                                lemma_text_lt_transitive(k, before[p as int].0, before[i].0);
                            }
                            lemma_text_lt_irreflexive(k);
                        }
                    }
                }
                assert(after[p as int].0 == k);
                assert(self@ =~= to_map(before).insert(k, at)) by {
                    assert forall|q: Seq<char>| #[trigger] self@.dom().contains(q) == to_map(before).insert(k, at).dom().contains(q) by {
                        if q == k {
                            assert(after[p as int].0 == q);
                        }
                        if self@.dom().contains(q) {
                            let i = choose|i: int| 0 <= i < after.len() && after[i].0 == q;
                            if i < p {
                                assert(before[i].0 == q);
                            } else if i > p {
                                assert(before[i - 1].0 == q);
                            }
                        }
                        if to_map(before).dom().contains(q) {
                            let i = choose|i: int| 0 <= i < before.len() && before[i].0 == q;
                            if i < p {
                                assert(after[i].0 == q);
                            } else {
                                assert(after[i + 1].0 == q);
                            }
                        }
                    }
                    assert forall|q: Seq<char>| #[trigger] self@.dom().contains(q) implies self@[q] == to_map(before).insert(k, at)[q] by {
                        let i = choose|i: int| 0 <= i < after.len() && after[i].0 == q;
                        if i < p {
                            assert(before[i] == after[i]);
                        } else if i > p {
                            assert(before[i - 1] == after[i]);
                        }
                    }
                }
            }
        }
    }

    /// The markers in key order.
    pub fn entries(&self) -> (r: &Vec<(String, i64)>)
        ensures
            r@.map_values(|e: (String, i64)| (e.0@, e.1)) == self.pairs(),
    {
        &self.entries
    }
}

// ---------------------------------------------------------------------------
// Bounding
// ---------------------------------------------------------------------------

/// The position of the oldest marker: the earliest time, and among equal
/// times the first in key order.
pub open spec fn oldest(s: Seq<(Seq<char>, i64)>) -> int
    decreases s.len(),
{
    if s.len() <= 1 {
        0
    } else {
        let j = oldest(s.drop_last());
        if s.last().1 < s[j].1 {
            s.len() - 1
        } else {
            j
        }
    }
}

/// The markers left when at most `limit` may stay: the oldest go first.
pub open spec fn pruned(s: Seq<(Seq<char>, i64)>, limit: nat) -> Seq<(Seq<char>, i64)>
    decreases s.len(),
{
    if s.len() <= limit {
        s
    } else {
        proof {
            lemma_oldest(s);
        }
        pruned(s.remove(oldest(s)), limit)
    }
}

/// The oldest marker is among the markers, and no marker is older.
pub proof fn lemma_oldest(s: Seq<(Seq<char>, i64)>)
    requires
        s.len() >= 1,
    ensures
        0 <= oldest(s) < s.len(),
        forall|k: int| 0 <= k < s.len() ==> s[oldest(s)].1 <= #[trigger] s[k].1,
    decreases s.len(),
{
    if s.len() > 1 {
        let rest = s.drop_last();
        lemma_oldest(rest);
        assert forall|k: int| 0 <= k < s.len() implies s[oldest(s)].1 <= #[trigger] s[k].1 by {
            if k < rest.len() {
                assert(rest[k] == s[k]);
            }
        }
    }
}

proof fn lemma_remove_keeps_order(s: Seq<(Seq<char>, i64)>, m: int)
    requires
        key_sorted(s),
        0 <= m < s.len(),
    ensures
        key_sorted(s.remove(m)),
        forall|x: (Seq<char>, i64)| #[trigger] s.remove(m).contains(x) ==> s.contains(x),
        forall|i: int| 0 <= i < s.len() && i != m ==> s.remove(m).contains(#[trigger] s[i]),
{
    let r = s.remove(m);
    assert forall|i: int, j: int| 0 <= i < j < r.len() implies text_lt(#[trigger] r[i].0, #[trigger] r[j].0) by {
        let a = if i < m { i } else { i + 1 };
        let b = if j < m { j } else { j + 1 };
        assert(r[i] == s[a] && r[j] == s[b]);
    }
    assert forall|x: (Seq<char>, i64)| #[trigger] r.contains(x) implies s.contains(x) by {
        let i = choose|i: int| 0 <= i < r.len() && r[i] == x;
        let a = if i < m { i } else { i + 1 };
        assert(s[a] == x);
    }
    assert forall|i: int| 0 <= i < s.len() && i != m implies r.contains(#[trigger] s[i]) by {
        let a = if i < m { i } else { i - 1 };
        assert(r[a] == s[i]);
    }
}

/// Bounding keeps at most `limit` markers, all in key order, each from the
/// original set; and every marker dropped is no newer than any marker kept.
pub proof fn law_pruning_drops_only_the_oldest(s: Seq<(Seq<char>, i64)>, limit: nat)
    requires
        key_sorted(s),
    ensures
        pruned(s, limit).len() == if s.len() <= limit {
            s.len()
        } else {
            limit
        },
        key_sorted(pruned(s, limit)),
        forall|x: (Seq<char>, i64)| #[trigger] pruned(s, limit).contains(x) ==> s.contains(x),
        forall|i: int, j: int|
            0 <= i < s.len() && !pruned(s, limit).contains(#[trigger] s[i]) && 0 <= j < pruned(s, limit).len() ==> s[i].1
                <= #[trigger] pruned(s, limit)[j].1,
    decreases s.len(),
{
    if s.len() > limit {
        let m = oldest(s);
        lemma_oldest(s);
        let rest = s.remove(m);
        lemma_remove_keeps_order(s, m);
        law_pruning_drops_only_the_oldest(rest, limit);
        let r = pruned(s, limit);
        assert(r == pruned(rest, limit));
        assert forall|i: int, j: int|
            0 <= i < s.len() && !r.contains(#[trigger] s[i]) && 0 <= j < r.len() implies s[i].1 <= #[trigger] r[j].1 by {
            assert(r.contains(r[j]));
            assert(rest.contains(r[j]));
            assert(s.contains(r[j]));
            let q = choose|q: int| 0 <= q < s.len() && s[q] == r[j];
            if i == m {
                assert(s[m].1 <= s[q].1);
            } else {
                assert(rest.contains(s[i]));
                let a = choose|a: int| 0 <= a < rest.len() && rest[a] == s[i];
                assert(!r.contains(rest[a]));
            }
        }
    }
}

impl Markers {
    /// Drops the oldest markers until at most `limit` remain.
    pub fn prune_to(&mut self, limit: usize)
        requires
            old(self).wf(),
        ensures
            final(self).wf(),
            final(self).pairs() == pruned(old(self).pairs(), limit as nat),
    {
        while self.entries.len() > limit
            invariant
                self.wf(),
                pruned(self.pairs(), limit as nat) == pruned(old(self).pairs(), limit as nat),
            decreases self.entries.len(),
        {
            let ghost before = self.pairs();
            let n = self.entries.len();
            let mut m: usize = 0;
            let mut i: usize = 1;
            while i < n
                invariant
                    n == self.entries.len(),
                    n >= 1,
                    self.pairs() == before,
                    1 <= i <= n,
                    m < i,
                    m as int == oldest(before.take(i as int)),
                decreases n - i,
            {
                proof {
                    assert(before.take(i + 1).drop_last() =~= before.take(i as int));
                    assert(before[i as int].1 == self.entries@[i as int].1);
                    assert(before[m as int].1 == self.entries@[m as int].1);
                }
                if self.entries[i].1 < self.entries[m].1 {
                    m = i;
                }
                i += 1;
            }
            proof {
                assert(before.take(n as int) =~= before);
                lemma_oldest(before);
                lemma_remove_keeps_order(before, m as int);
            }
            self.entries.remove(m);
            assert(self.pairs() =~= before.remove(m as int));
        }
    }
}

/// Local reading markers, never provider approvals or task completion state.
pub struct ReviewMemory {
    pub version: u32,
    pub last_visits: Markers,
    pub reviewed: Markers,
    pub acknowledged: Markers,
}

/// At most this many reviewed and acknowledged markers are kept.
pub const MARKER_LIMIT: usize = 4096;

impl ReviewMemory {
    pub open spec fn wf(&self) -> bool {
        self.last_visits.wf() && self.reviewed.wf() && self.acknowledged.wf()
    }

    pub fn new() -> (r: Self)
        ensures
            r.wf(),
            r.version == 0,
            r.last_visits@ == Map::<Seq<char>, i64>::empty(),
            r.reviewed@ == Map::<Seq<char>, i64>::empty(),
            r.acknowledged@ == Map::<Seq<char>, i64>::empty(),
    {
        ReviewMemory { version: 0, last_visits: Markers::new(), reviewed: Markers::new(), acknowledged: Markers::new() }
    }

    /// Marks the current format and bounds the reviewed and acknowledged
    /// markers, dropping the oldest.
    pub fn prune(&mut self)
        requires
            old(self).wf(),
        ensures
            final(self).wf(),
            final(self).version == 1,
            final(self).last_visits == old(self).last_visits,
            final(self).reviewed.pairs() == pruned(old(self).reviewed.pairs(), MARKER_LIMIT as nat),
            final(self).acknowledged.pairs() == pruned(old(self).acknowledged.pairs(), MARKER_LIMIT as nat),
    {
        self.version = 1;
        self.reviewed.prune_to(MARKER_LIMIT);
        self.acknowledged.prune_to(MARKER_LIMIT);
    }
}

impl Default for ReviewMemory {
    fn default() -> (r: Self)
        ensures
            r.wf(),
            r.version == 0,
            r.last_visits@ == Map::<Seq<char>, i64>::empty(),
            r.reviewed@ == Map::<Seq<char>, i64>::empty(),
            r.acknowledged@ == Map::<Seq<char>, i64>::empty(),
    {
        ReviewMemory::new()
    }
}

} // verus!
