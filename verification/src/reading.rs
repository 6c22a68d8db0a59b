//! Reading position that follows a retained record, not a changing row index.
use vstd::prelude::*;
use crate::layout::same_text;

verus! {

pub open spec fn views_of(v: Seq<String>) -> Seq<Seq<char>> {
    v.map_values(|s: String| s@)
}

/// Whether a list of texts holds `s`.
pub fn contains_text(v: &Vec<String>, s: &str) -> (r: bool)
    ensures
        r == views_of(v@).contains(s@),
{
    let mut i: usize = 0;
    while i < v.len()
        invariant
            i <= v.len(),
            forall|k: int| 0 <= k < i ==> views_of(v@)[k] != s@,
        decreases v.len() - i,
    {
        if same_text(v[i].as_str(), s) {
            assert(views_of(v@)[i as int] == s@);
            return true;
        }
        i += 1;
    }
    false
}

proof fn lemma_push_contains(s: Seq<Seq<char>>, a: Seq<char>)
    ensures
        forall|x: Seq<char>| #[trigger] s.push(a).contains(x) <==> (s.contains(x) || x == a),
{
    assert forall|x: Seq<char>| #[trigger] s.push(a).contains(x) <==> (s.contains(x) || x == a) by {
        vstd::seq_lib::lemma_seq_contains_after_push(s, a, x);
    }
}

/// The distinct texts of a list, first occurrences kept.
fn distinct(v: &Vec<String>) -> (r: Vec<String>)
    ensures
        views_of(r@).no_duplicates(),
        forall|x: Seq<char>| views_of(r@).contains(x) <==> views_of(v@).contains(x),
{
    broadcast use vstd::seq_lib::group_seq_properties;

    let mut out: Vec<String> = Vec::new();
    let mut i: usize = 0;
    while i < v.len()
        invariant
            i <= v.len(),
            views_of(out@).no_duplicates(),
            forall|x: Seq<char>| views_of(out@).contains(x) <==> views_of(v@.take(i as int)).contains(x),
        decreases v.len() - i,
    {
        let item = v[i].clone();
        let ghost before = views_of(out@);
        let ghost a = v@[i as int]@;
        assert(views_of(v@.take(i + 1)) =~= views_of(v@.take(i as int)).push(a));
        proof {
            lemma_push_contains(views_of(v@.take(i as int)), a);
            lemma_push_contains(before, a);
        }
        if !contains_text(&out, item.as_str()) {
            out.push(item);
            assert(views_of(out@) =~= before.push(a));
            assert forall|p: int, q: int| 0 <= p < views_of(out@).len() && 0 <= q < views_of(out@).len() && p != q implies views_of(out@)[p] != views_of(out@)[q] by {
                if p < before.len() && q < before.len() {
                    assert(before[p] != before[q]);
                } else if p < before.len() {
                    assert(before[p] == views_of(out@)[p]);
                    assert(before.contains(before[p]));
                } else {
                    assert(before[q] == views_of(out@)[q]);
                    assert(before.contains(before[q]));
                }
            }
        }
        assert forall|x: Seq<char>| views_of(out@).contains(x) <==> views_of(v@.take(i + 1)).contains(x) by {}
        i += 1;
    }
    assert(v@.take(v.len() as int) =~= v@);
    out
}

#[derive(Debug)]
pub struct ReadingAnchor {
    pub key: Option<String>,
    pub line: usize,
    pub following: bool,
    seen: Vec<String>,
    new_keys: Vec<String>,
    pub expired: bool,
}

/// The new-record set after observing `keys`: unread records arriving while
/// reading (not following) are added once a previous observation exists;
/// records no longer retained are dropped; following clears the set.
pub open spec fn observed_new(
    following: bool,
    seen: Set<Seq<char>>,
    new_keys: Set<Seq<char>>,
    keys: Set<Seq<char>>,
) -> Set<Seq<char>> {
    if following {
        Set::empty()
    } else if !seen.is_empty() {
        new_keys.union(keys.difference(seen)).intersect(keys)
    } else {
        new_keys.intersect(keys)
    }
}

impl ReadingAnchor {
    /// The selected record's key.
    pub closed spec fn key_view(&self) -> Option<Seq<char>> {
        match self.key {
            Some(k) => Some(k@),
            None => None,
        }
    }

    pub closed spec fn line_view(&self) -> usize {
        self.line
    }

    pub closed spec fn is_following(&self) -> bool {
        self.following
    }

    pub closed spec fn is_expired(&self) -> bool {
        self.expired
    }

    /// Records already observed.
    pub closed spec fn seen_keys(&self) -> Set<Seq<char>> {
        views_of(self.seen@).to_set()
    }

    /// Records that arrived after the reader stopped following.
    pub closed spec fn new_key_set(&self) -> Set<Seq<char>> {
        views_of(self.new_keys@).to_set()
    }

    pub closed spec fn wf(&self) -> bool {
        &&& views_of(self.new_keys@).no_duplicates()
        &&& views_of(self.seen@).no_duplicates()
    }

    pub fn new() -> (r: Self)
        ensures
            r.wf(),
            r.key_view() is None,
            r.line_view() == 0,
            !r.is_following(),
            !r.is_expired(),
            r.seen_keys() == Set::<Seq<char>>::empty(),
            r.new_key_set() == Set::<Seq<char>>::empty(),
    {
        let r = ReadingAnchor {
            key: None,
            line: 0,
            following: false,
            seen: Vec::new(),
            new_keys: Vec::new(),
            expired: false,
        };
        assert(views_of(r.seen@).to_set() =~= Set::<Seq<char>>::empty());
        assert(views_of(r.new_keys@).to_set() =~= Set::<Seq<char>>::empty());
        r
    }

    /// A fresh anchor reading the record with `key`, not following.
    pub fn at_record(key: String) -> (r: Self)
        ensures
            r.wf(),
            r.key_view() == Some(key@),
            r.line_view() == 0,
            !r.is_following(),
            !r.is_expired(),
            r.seen_keys() == Set::<Seq<char>>::empty(),
            r.new_key_set() == Set::<Seq<char>>::empty(),
    {
        let mut r = ReadingAnchor::new();
        r.key = Some(key);
        r.line = 0;
        r.following = false;
        r
    }

    /// Jump to the latest record and follow new ones.
    pub fn latest(&mut self)
        requires
            old(self).wf(),
        ensures
            final(self).wf(),
            final(self).key_view() is None,
            final(self).line_view() == 0,
            final(self).is_following(),
            !final(self).is_expired(),
            final(self).new_key_set() == Set::<Seq<char>>::empty(),
            final(self).seen_keys() == old(self).seen_keys(),
    {
        self.key = None;
        self.line = 0;
        self.following = true;
        self.new_keys = Vec::new();
        self.expired = false;
        assert(views_of(self.new_keys@).to_set() =~= Set::<Seq<char>>::empty());
    }

    /// Take in the keys of the records currently retained.
    pub fn observe(&mut self, keys: Vec<String>)
        requires
            old(self).wf(),
        ensures
            final(self).wf(),
            final(self).key_view() == old(self).key_view(),
            final(self).line_view() == old(self).line_view(),
            final(self).is_following() == old(self).is_following(),
            final(self).seen_keys() == views_of(keys@).to_set(),
            final(self).new_key_set() == observed_new(
                old(self).is_following(),
                old(self).seen_keys(),
                old(self).new_key_set(),
                views_of(keys@).to_set(),
            ),
            final(self).is_expired() == (match old(self).key_view() {
                Some(k) => !views_of(keys@).contains(k),
                None => false,
            }),
    {
        broadcast use vstd::seq_lib::group_seq_properties;

        let current = distinct(&keys);
        let ghost kset = views_of(keys@).to_set();
        let ghost seen = views_of(self.seen@).to_set();
        let ghost fresh = views_of(self.new_keys@).to_set();
        let adding = !self.following && self.seen.len() > 0;
        proof {
            if self.seen.len() > 0 {
                assert(views_of(self.seen@)[0] == self.seen@[0]@);
                assert(views_of(self.seen@).contains(self.seen@[0]@));
                assert(seen.contains(self.seen@[0]@));
            } else {
                assert(seen =~= Set::<Seq<char>>::empty());
            }
        }
        let mut result: Vec<String> = Vec::new();
        if !self.following {
            let mut i: usize = 0;
            while i < current.len()
                invariant
                    i <= current.len(),
                    views_of(current@).no_duplicates(),
                    views_of(result@).no_duplicates(),
                    seen == views_of(self.seen@).to_set(),
                    fresh == views_of(self.new_keys@).to_set(),
                    forall|x: Seq<char>| #[trigger] views_of(result@).contains(x) <==> (views_of(current@.take(i as int)).contains(x) && (fresh.contains(x) || (adding && !seen.contains(x)))),
                decreases current.len() - i,
            {
                let item = current[i].clone();
                let in_new = contains_text(&self.new_keys, item.as_str());
                let in_seen = contains_text(&self.seen, item.as_str());
                let ghost before = views_of(result@);
                assert(views_of(current@.take(i + 1)) =~= views_of(current@.take(i as int)).push(current@[i as int]@));
                assert(!views_of(current@.take(i as int)).contains(current@[i as int]@)) by {
                    if views_of(current@.take(i as int)).contains(current@[i as int]@) {
                        let w = views_of(current@.take(i as int));
                        let j = choose|j: int| 0 <= j < w.len() && w[j] == current@[i as int]@;
                        assert(views_of(current@)[j] == views_of(current@)[i as int]);
                    }
                }
                let ghost a = current@[i as int]@;
                proof {
                    lemma_push_contains(views_of(current@.take(i as int)), a);
                    lemma_push_contains(before, a);
                }
                assert(before.contains(a) ==> views_of(current@.take(i as int)).contains(a));
                assert(!before.contains(a));
                assert(in_new == fresh.contains(a));
                assert(in_seen == seen.contains(a));
                if in_new || (adding && !in_seen) {
                    result.push(item);
                    assert(views_of(result@) =~= before.push(a));
                    assert forall|p: int, q: int| 0 <= p < views_of(result@).len() && 0 <= q < views_of(result@).len() && p != q implies views_of(result@)[p] != views_of(result@)[q] by {
                        if p < before.len() && q < before.len() {
                            assert(before[p] != before[q]);
                        } else if p < before.len() {
                            assert(before[p] == views_of(result@)[p]);
                            assert(before.contains(before[p]));
                        } else {
                            assert(before[q] == views_of(result@)[q]);
                            assert(before.contains(before[q]));
                        }
                    }
                }
                assert forall|x: Seq<char>| #[trigger] views_of(result@).contains(x) <==> (views_of(current@.take(i + 1)).contains(x) && (fresh.contains(x) || (adding && !seen.contains(x)))) by {
                    assert(views_of(current@.take(i + 1)).contains(x) == (views_of(current@.take(i as int)).contains(x) || x == a));
                    assert(before.contains(x) == (views_of(current@.take(i as int)).contains(x) && (fresh.contains(x) || (adding && !seen.contains(x)))));
                }
                i += 1;
            }
            assert(current@.take(current.len() as int) =~= current@);
        }
        let expired = match &self.key {
            Some(k) => !contains_text(&keys, k.as_str()),
            None => false,
        };
        assert(views_of(result@).to_set() =~= observed_new(self.following, seen, fresh, kset)) by {
            assert forall|x: Seq<char>| kset.contains(x) <==> views_of(current@).contains(x) by {}
            if !self.following {
                if self.seen.len() > 0 {
                    assert(!seen.is_empty());
                } else {
                    assert(seen.is_empty());
                }
                assert forall|x: Seq<char>| views_of(result@).to_set().contains(x) <==> observed_new(
                    self.following,
                    seen,
                    fresh,
                    kset,
                ).contains(x) by {
                    assert(views_of(result@).to_set().contains(x) == views_of(result@).contains(x));
                }
            } else {
                assert(result@.len() == 0);
                assert(views_of(result@) =~= Seq::<Seq<char>>::empty());
            }
        }
        self.seen = current;
        self.new_keys = result;
        self.expired = expired;
        assert(views_of(self.seen@).to_set() =~= kset);
    }

    /// How many records arrived since the reader stopped following.
    pub fn new_count(&self) -> (r: usize)
        requires
            self.wf(),
        ensures
            r == self.new_key_set().len(),
    {
        proof {
            views_of(self.new_keys@).unique_seq_to_set();
        }
        self.new_keys.len()
    }
}

/// New records are always records still retained: after any observation the
/// new set lies within what was observed, and it is empty while following.
pub proof fn law_new_records_are_retained(
    following: bool,
    seen: Set<Seq<char>>,
    new_keys: Set<Seq<char>>,
    keys: Set<Seq<char>>,
)
    ensures
        observed_new(following, seen, new_keys, keys).subset_of(keys),
        following ==> observed_new(following, seen, new_keys, keys).is_empty(),
{
}

/// A record that was already seen is never counted as new when it reappears.
pub proof fn law_seen_records_are_not_new(
    seen: Set<Seq<char>>,
    keys: Set<Seq<char>>,
    x: Seq<char>,
)
    requires
        seen.contains(x),
    ensures
        !observed_new(false, seen, Set::empty(), keys).contains(x),
{
}

impl Default for ReadingAnchor {
    fn default() -> (r: Self)
        ensures
            r.wf(),
            r.key_view() is None,
            r.line_view() == 0,
            !r.is_following(),
            !r.is_expired(),
            r.seen_keys() == Set::<Seq<char>>::empty(),
            r.new_key_set() == Set::<Seq<char>>::empty(),
    {
        ReadingAnchor::new()
    }
}

} // verus!
