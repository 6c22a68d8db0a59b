//! Meetings in the tower: a lead worker and the team it delegated to, found
//! from the delegation links between workers of one office.
use vstd::prelude::*;

verus! {

/// A link between two workers; only delegation links form teams.
#[derive(Debug, Clone, Copy, PartialEq, Eq, Structural)]
pub struct Relation {
    pub parent: u64,
    pub child: u64,
    pub delegation: bool,
}

/// A lead worker and the members of its team.
pub struct MeetingGroup {
    pub parent: u64,
    pub members: Vec<u64>,
}

/// Whether `p` delegated to `c`.
pub open spec fn delegates(rels: Seq<Relation>, p: u64, c: u64) -> bool {
    exists|i: int| 0 <= i < rels.len() && #[trigger] rels[i] == (Relation { parent: p, child: c, delegation: true })
}

/// Whether anyone delegated to `c`.
pub open spec fn has_delegator(rels: Seq<Relation>, c: u64) -> bool {
    exists|p: u64| #[trigger] delegates(rels, p, c)
}

/// Whether `p` is the one worker that delegated to `c`.
pub open spec fn sole_delegator(rels: Seq<Relation>, p: u64, c: u64) -> bool {
    delegates(rels, p, c) && forall|q: u64| #[trigger] delegates(rels, q, c) ==> q == p
}

/// One step up from `node` towards its team's lead.
pub enum Step {
    /// No one delegated to the node: it leads.
    Lead,
    /// Its one delegator, present in the office.
    Up(u64),
    /// Two delegators, or one outside the office: no team can be told.
    Unclear,
}

pub open spec fn step(rels: Seq<Relation>, present: Seq<u64>, node: u64) -> Step {
    if !has_delegator(rels, node) {
        Step::Lead
    } else if exists|p: u64| #[trigger] sole_delegator(rels, p, node) && present.contains(p) {
        Step::Up(choose|p: u64| #[trigger] sole_delegator(rels, p, node) && present.contains(p))
    } else {
        Step::Unclear
    }
}

/// Whether `chain` climbs from `start` one step at a time, never visiting
/// a worker twice.
pub open spec fn is_climb(rels: Seq<Relation>, present: Seq<u64>, start: u64, chain: Seq<u64>) -> bool {
    &&& chain.len() >= 1
    &&& chain[0] == start
    &&& forall|i: int| 0 <= i < chain.len() - 1 ==> step(rels, present, #[trigger] chain[i]) == Step::Up(chain[i + 1])
    &&& forall|i: int, j: int| 0 <= i < j < chain.len() ==> chain[i] != chain[j]
}

/// The lead above `start`: the end of the climb from it that reaches a
/// worker no one delegated to; none when the climb meets a worker with two
/// delegators, a delegator outside the office, or a loop.
pub open spec fn lead_of(rels: Seq<Relation>, present: Seq<u64>, start: u64) -> Option<u64> {
    if exists|chain: Seq<u64>| #[trigger] is_climb(rels, present, start, chain) && step(rels, present, chain.last()) == Step::Lead {
        Some(
            (choose|chain: Seq<u64>| #[trigger] is_climb(rels, present, start, chain) && step(rels, present, chain.last()) == Step::Lead).last(),
        )
    } else {
        None
    }
}

/// Whether `c` is on the team under `p`: `p` is its only delegator and it
/// is in the office.
pub open spec fn team_edge(rels: Seq<Relation>, present: Seq<u64>, p: u64, c: u64) -> bool {
    sole_delegator(rels, p, c) && present.contains(c)
}

/// Whether `path` leads down team edges from its first worker to its last.
pub open spec fn is_team_path(rels: Seq<Relation>, present: Seq<u64>, path: Seq<u64>) -> bool {
    &&& path.len() >= 1
    &&& forall|i: int| 0 <= i < path.len() - 1 ==> team_edge(rels, present, #[trigger] path[i], path[i + 1])
}

/// Whether `x` is below `lead` in its team.
pub open spec fn in_team(rels: Seq<Relation>, present: Seq<u64>, lead: u64, x: u64) -> bool {
    x != lead && exists|path: Seq<u64>|
        #[trigger] is_team_path(rels, present, path) && path[0] == lead && path.last() == x
}

proof fn lemma_climbs_agree(rels: Seq<Relation>, present: Seq<u64>, start: u64, c: Seq<u64>, d: Seq<u64>, i: int)
    requires
        is_climb(rels, present, start, c),
        is_climb(rels, present, start, d),
        0 <= i < c.len(),
        i < d.len(),
    ensures
        c[i] == d[i],
    decreases i,
{
    if i > 0 {
        lemma_climbs_agree(rels, present, start, c, d, i - 1);
        assert(step(rels, present, c[i - 1]) == Step::Up(c[i]));
        assert(step(rels, present, d[i - 1]) == Step::Up(d[i]));
    }
}

/// A climb that stops short of the lead rules the lead out: if its last
/// worker's step is unclear, or it is about to revisit a worker, no climb
/// from the same start reaches a lead.
proof fn lemma_no_lead(rels: Seq<Relation>, present: Seq<u64>, start: u64, c: Seq<u64>)
    requires
        is_climb(rels, present, start, c),
        step(rels, present, c.last()) == Step::Unclear || (exists|j: int|
            0 <= j < c.len() && step(rels, present, c.last()) == Step::Up(#[trigger] c[j])),
    ensures
        lead_of(rels, present, start) is None,
{
    if exists|d: Seq<u64>| #[trigger] is_climb(rels, present, start, d) && step(rels, present, d.last()) == Step::Lead {
        let d = choose|d: Seq<u64>| #[trigger] is_climb(rels, present, start, d) && step(rels, present, d.last()) == Step::Lead;
        if d.len() <= c.len() {
            lemma_climbs_agree(rels, present, start, c, d, d.len() - 1);
            if d.len() < c.len() {
                assert(step(rels, present, c[d.len() - 1]) == Step::Up(c[d.len() as int]));
            }
        } else {
            lemma_climbs_agree(rels, present, start, c, d, c.len() - 1);
            assert(step(rels, present, d[c.len() - 1]) == Step::Up(d[c.len() as int]));
            if step(rels, present, c.last()) != Step::Unclear {
                let j = choose|j: int| 0 <= j < c.len() && step(rels, present, c.last()) == Step::Up(#[trigger] c[j]);
                lemma_climbs_agree(rels, present, start, c, d, j);
                assert(d[j] == d[c.len() as int]);
            }
        }
    }
}

fn holds(ids: &Vec<u64>, x: u64) -> (r: bool)
    ensures
        r == ids@.contains(x),
{
    let mut i: usize = 0;
    while i < ids.len()
        invariant
            i <= ids@.len(),
            forall|k: int| 0 <= k < i ==> ids@[k] != x,
        decreases ids.len() - i,
    {
        if ids[i] == x {
            assert(ids@[i as int] == x);
            return true;
        }
        i += 1;
    }
    false
}

/// Who delegated to `c`: `(None, _)` when no one did; `(Some(p), false)`
/// when `p` is the only one; `(Some(_), true)` when there were several.
fn delegators(rels: &Vec<Relation>, c: u64) -> (r: (Option<u64>, bool))
    ensures
        r.0 is None <==> !has_delegator(rels@, c),
        r.0 is Some && !r.1 ==> sole_delegator(rels@, r.0->0, c),
        r.0 is Some && r.1 ==> !exists|p: u64| #[trigger] sole_delegator(rels@, p, c),
{
    let mut first: Option<u64> = None;
    let mut several = false;
    let mut i: usize = 0;
    while i < rels.len()
        invariant
            i <= rels@.len(),
            first is None ==> forall|k: int| 0 <= k < i ==> !(#[trigger] rels@[k].delegation && rels@[k].child == c),
            first is Some ==> delegates(rels@, first->0, c),
            first is Some && !several ==> forall|k: int|
                0 <= k < i && #[trigger] rels@[k].delegation && rels@[k].child == c ==> rels@[k].parent == first->0,
            several ==> first is Some && exists|q: u64| q != first->0 && #[trigger] delegates(rels@, q, c),
        decreases rels.len() - i,
    {
        let r = rels[i];
        if r.delegation && r.child == c {
            assert(rels@[i as int] == (Relation { parent: r.parent, child: c, delegation: true }));
            match first {
                None => {
                    first = Some(r.parent);
                },
                Some(p) => {
                    if p != r.parent {
                        several = true;
                        assert(delegates(rels@, r.parent, c));
                    }
                },
            }
        }
        i += 1;
    }
    proof {
        if first is None {
            if has_delegator(rels@, c) {
                let p = choose|p: u64| #[trigger] delegates(rels@, p, c);
                let k = choose|k: int| 0 <= k < rels@.len() && #[trigger] rels@[k] == (Relation { parent: p, child: c, delegation: true });
                assert(rels@[k].delegation && rels@[k].child == c);
            }
        } else {
            assert(delegates(rels@, first->0, c));
            if !several {
                assert forall|q: u64| #[trigger] delegates(rels@, q, c) implies q == first->0 by {
                    let k = choose|k: int| 0 <= k < rels@.len() && #[trigger] rels@[k] == (Relation { parent: q, child: c, delegation: true });
                    assert(rels@[k].delegation && rels@[k].child == c);
                }
            } else {
                let q = choose|q: u64| q != first->0 && #[trigger] delegates(rels@, q, c);
                assert forall|p: u64| !#[trigger] sole_delegator(rels@, p, c) by {
                    if sole_delegator(rels@, p, c) {
                        assert(delegates(rels@, first->0, c));
                        assert(delegates(rels@, q, c));
                    }
                }
            }
        }
    }
    (first, several)
}

/// The step up from `node`, computed.
fn climb_step(rels: &Vec<Relation>, present: &Vec<u64>, node: u64) -> (r: Step)
    ensures
        r == step(rels@, present@, node),
{
    let (first, several) = delegators(rels, node);
    match first {
        None => Step::Lead,
        Some(p) => {
            if several {
                Step::Unclear
            } else if holds(present, p) {
                proof {
                    assert(sole_delegator(rels@, p, node) && present@.contains(p));
                    let q = choose|q: u64| #[trigger] sole_delegator(rels@, q, node) && present@.contains(q);
                    assert(delegates(rels@, q, node));
                }
                Step::Up(p)
            } else {
                proof {
                    assert forall|q: u64| !(#[trigger] sole_delegator(rels@, q, node) && present@.contains(q)) by {
                        if sole_delegator(rels@, q, node) {
                            assert(delegates(rels@, p, node));
                        }
                    }
                }
                Step::Unclear
            }
        },
    }
}

/// The end a link is counted by: its delegator, or its delegate.
pub open spec fn link_end(r: Relation, by_child: bool) -> u64 {
    if by_child {
        r.child
    } else {
        r.parent
    }
}

/// How many of the first `n` links have their counted end outside `seen`.
pub open spec fn uncovered(rels: Seq<Relation>, seen: Seq<u64>, n: int, by_child: bool) -> nat
    decreases n,
{
    if n <= 0 || n > rels.len() {
        0
    } else {
        uncovered(rels, seen, n - 1, by_child) + if seen.contains(link_end(rels[n - 1], by_child)) {
            0nat
        } else {
            1nat
        }
    }
}

proof fn lemma_uncovered_push(rels: Seq<Relation>, seen: Seq<u64>, x: u64, n: int, by_child: bool)
    requires
        0 <= n <= rels.len(),
    ensures
        uncovered(rels, seen.push(x), n, by_child) <= uncovered(rels, seen, n, by_child),
        !seen.contains(x) && (exists|k: int| 0 <= k < n && #[trigger] link_end(rels[k], by_child) == x) ==> uncovered(
            rels,
            seen.push(x),
            n,
            by_child,
        ) < uncovered(rels, seen, n, by_child),
    decreases n,
{
    if n > 0 {
        lemma_uncovered_push(rels, seen, x, n - 1, by_child);
        let e = link_end(rels[n - 1], by_child);
        vstd::seq_lib::lemma_seq_contains_after_push(seen, x, e);
        if !seen.contains(x) && (exists|k: int| 0 <= k < n && #[trigger] link_end(rels[k], by_child) == x) {
            let k = choose|k: int| 0 <= k < n && #[trigger] link_end(rels[k], by_child) == x;
            if k < n - 1 {
                assert(exists|k: int| 0 <= k < n - 1 && #[trigger] link_end(rels[k], by_child) == x);
            }
        }
    }
}

/// A delegator appears as the delegator of some link.
proof fn lemma_delegator_listed(rels: Seq<Relation>, p: u64, c: u64)
    requires
        delegates(rels, p, c),
    ensures
        exists|k: int| 0 <= k < rels.len() && #[trigger] link_end(rels[k], false) == p,
        exists|k: int| 0 <= k < rels.len() && #[trigger] link_end(rels[k], true) == c,
{
    let k = choose|k: int| 0 <= k < rels.len() && #[trigger] rels[k] == (Relation { parent: p, child: c, delegation: true });
    assert(link_end(rels[k], false) == p);
    assert(link_end(rels[k], true) == c);
}

proof fn lemma_lead_unique(rels: Seq<Relation>, present: Seq<u64>, start: u64, c: Seq<u64>)
    requires
        is_climb(rels, present, start, c),
        step(rels, present, c.last()) == Step::Lead,
    ensures
        lead_of(rels, present, start) == Some(c.last()),
{
    let d = choose|d: Seq<u64>| #[trigger] is_climb(rels, present, start, d) && step(rels, present, d.last()) == Step::Lead;
    assert(is_climb(rels, present, start, d) && step(rels, present, d.last()) == Step::Lead);
    if d.len() < c.len() {
        lemma_climbs_agree(rels, present, start, c, d, d.len() - 1);
        assert(step(rels, present, c[d.len() - 1]) == Step::Up(c[d.len() as int]));
    } else if c.len() < d.len() {
        lemma_climbs_agree(rels, present, start, c, d, c.len() - 1);
        assert(step(rels, present, d[c.len() - 1]) == Step::Up(d[c.len() as int]));
    } else {
        lemma_climbs_agree(rels, present, start, c, d, c.len() - 1);
    }
}

/// The lead above `start`, found by climbing.
pub fn find_lead(rels: &Vec<Relation>, present: &Vec<u64>, start: u64) -> (r: Option<u64>)
    ensures
        r == lead_of(rels@, present@, start),
{
    let mut node = start;
    let mut visited: Vec<u64> = Vec::new();
    let ghost mut chain: Seq<u64> = seq![start];
    loop
        invariant
            is_climb(rels@, present@, start, chain),
            chain.last() == node,
            visited@ == chain.drop_last(),
            chain.len() > 1 ==> exists|k: int| 0 <= k < rels@.len() && #[trigger] link_end(rels@[k], false) == node,
        decreases uncovered(rels@, visited@, rels@.len() as int, false) + if visited@.len() == 0 {
            1nat
        } else {
            0nat
        },
    {
        let ghost before = visited@;
        proof {
            assert(!before.contains(node)) by {
                if before.contains(node) {
                    let j = choose|j: int| 0 <= j < before.len() && before[j] == node;
                    assert(chain[j] == chain[chain.len() - 1]);
                }
            }
            lemma_uncovered_push(rels@, before, node, rels@.len() as int, false);
        }
        visited.push(node);
        assert(visited@ == chain);
        match climb_step(rels, present, node) {
            Step::Lead => {
                proof {
                    lemma_lead_unique(rels@, present@, start, chain);
                }
                return Some(node);
            },
            Step::Unclear => {
                proof {
                    lemma_no_lead(rels@, present@, start, chain);
                }
                return None;
            },
            Step::Up(p) => {
                if holds(&visited, p) {
                    proof {
                        let j = choose|j: int| 0 <= j < chain.len() && chain[j] == p;
                        assert(step(rels@, present@, chain.last()) == Step::Up(chain[j]));
                        lemma_no_lead(rels@, present@, start, chain);
                    }
                    return None;
                }
                proof {
                    let q = choose|q: u64| #[trigger] sole_delegator(rels@, q, node) && present@.contains(q);
                    assert(q == p);
                    lemma_delegator_listed(rels@, p, node);
                    let old_chain = chain;
                    chain = chain.push(p);
                    assert(chain.drop_last() =~= old_chain);
                    assert forall|i: int, j: int| 0 <= i < j < chain.len() implies chain[i] != chain[j] by {
                        if j == chain.len() - 1 {
                            assert(old_chain.contains(chain[i]) ==> true);
                            assert(visited@[i] == chain[i]);
                        }
                    }
                }
                node = p;
            },
        }
    }
}

// ---------------------------------------------------------------------------
// The team under a lead
// ---------------------------------------------------------------------------

/// Whether `x` can be reached from `lead` down team edges (the lead
/// itself included).
pub open spec fn reaches(rels: Seq<Relation>, present: Seq<u64>, lead: u64, x: u64) -> bool {
    exists|path: Seq<u64>| #[trigger] is_team_path(rels, present, path) && path[0] == lead && path.last() == x
}

pub open spec fn distinct(s: Seq<u64>) -> bool {
    forall|i: int, j: int| 0 <= i < j < s.len() ==> s[i] != s[j]
}

/// Whether every team edge down from `x` ends in `seen`.
pub open spec fn closed(rels: Seq<Relation>, present: Seq<u64>, seen: Seq<u64>, x: u64) -> bool {
    forall|c: u64| #[trigger] team_edge(rels, present, x, c) ==> seen.contains(c)
}

proof fn lemma_closed_reaches_all(rels: Seq<Relation>, present: Seq<u64>, seen: Seq<u64>, path: Seq<u64>, i: int)
    requires
        is_team_path(rels, present, path),
        seen.contains(path[0]),
        forall|x: u64| #[trigger] seen.contains(x) ==> closed(rels, present, seen, x),
        0 <= i < path.len(),
    ensures
        seen.contains(path[i]),
    decreases i,
{
    if i > 0 {
        lemma_closed_reaches_all(rels, present, seen, path, i - 1);
        assert(team_edge(rels, present, path[i - 1], path[i]));
        assert(closed(rels, present, seen, path[i - 1]));
    }
}

/// The team below `lead`: every worker reached from it down team edges,
/// each once, found depth first.
pub fn team_of(rels: &Vec<Relation>, present: &Vec<u64>, lead: u64) -> (members: Vec<u64>)
    ensures
        distinct(members@),
        forall|x: u64| #[trigger] members@.contains(x) <==> in_team(rels@, present@, lead, x),
{
    let mut members: Vec<u64> = Vec::new();
    let mut queue: Vec<u64> = Vec::new();
    let mut seen: Vec<u64> = Vec::new();
    queue.push(lead);
    seen.push(lead);
    proof {
        assert(is_team_path(rels@, present@, seq![lead]));
        assert(reaches(rels@, present@, lead, lead));
    }
    while queue.len() > 0
        invariant
            seen@ == seq![lead] + members@,
            distinct(seen@),
            forall|q: u64| #[trigger] queue@.contains(q) ==> seen@.contains(q),
            forall|x: u64| #[trigger] seen@.contains(x) ==> reaches(rels@, present@, lead, x),
            forall|x: u64| #[trigger] seen@.contains(x) && !queue@.contains(x) ==> closed(rels@, present@, seen@, x),
        decreases uncovered(rels@, seen@, rels@.len() as int, true), queue@.len(),
    {
        let ghost u0 = uncovered(rels@, seen@, rels@.len() as int, true);
        let ghost queue_before = queue@;
        let parent = queue.pop().unwrap();
        proof {
            assert(queue_before.last() == parent);
            assert(queue_before.contains(parent));
            assert forall|q: u64| #[trigger] queue@.contains(q) implies queue_before.contains(q) by {
                let k = choose|k: int| 0 <= k < queue@.len() && queue@[k] == q;
                assert(queue_before[k] == q);
            }
            assert(queue_before =~= queue@.push(parent));
            assert forall|x: u64| #[trigger] queue_before.contains(x) implies queue@.contains(x) || x == parent by {
                vstd::seq_lib::lemma_seq_contains_after_push(queue@, parent, x);
            }
        }
        let ghost q0 = queue@.len();
        let mut j: usize = 0;
        while j < rels.len()
            invariant
                j <= rels@.len(),
                seen@ == seq![lead] + members@,
                distinct(seen@),
                seen@.contains(parent),
                forall|q: u64| #[trigger] queue@.contains(q) ==> seen@.contains(q),
                forall|x: u64| #[trigger] seen@.contains(x) ==> reaches(rels@, present@, lead, x),
                forall|x: u64|
                    #[trigger] seen@.contains(x) && !queue@.contains(x) && x != parent ==> closed(rels@, present@, seen@, x),
                forall|k: int|
                    0 <= k < j && #[trigger] rels@[k].delegation && rels@[k].parent == parent && team_edge(
                        rels@,
                        present@,
                        parent,
                        rels@[k].child,
                    ) ==> seen@.contains(rels@[k].child),
                uncovered(rels@, seen@, rels@.len() as int, true) < u0 || (uncovered(rels@, seen@, rels@.len() as int, true)
                    == u0 && queue@.len() == q0),
            decreases rels.len() - j,
        {
            let r = rels[j];
            if r.delegation && r.parent == parent {
                let child = r.child;
                assert(rels@[j as int] == (Relation { parent, child, delegation: true }));
                assert(delegates(rels@, parent, child));
                let (first, several) = delegators(rels, child);
                if first.is_some() && !several && holds(present, child) && !holds(&seen, child) {
                    let ghost seen_before = seen@;
                    let ghost queue_mid = queue@;
                    proof {
                        lemma_delegator_listed(rels@, parent, child);
                        lemma_uncovered_push(rels@, seen_before, child, rels@.len() as int, true);
                        assert(sole_delegator(rels@, first->0, child));
                        assert(first->0 == parent);
                        let pp = choose|path: Seq<u64>|
                            #[trigger] is_team_path(rels@, present@, path) && path[0] == lead && path.last() == parent;
                        let np = pp.push(child);
                        assert(is_team_path(rels@, present@, np) && np[0] == lead && np.last() == child);
                    }
                    seen.push(child);
                    members.push(child);
                    queue.push(child);
                    proof {
                        assert(seen@ =~= seq![lead] + members@);
                        assert forall|x: u64| #[trigger] seen@.contains(x) implies seen_before.contains(x) || x == child by {
                            vstd::seq_lib::lemma_seq_contains_after_push(seen_before, child, x);
                        }
                        assert forall|x: u64| seen_before.contains(x) implies #[trigger] seen@.contains(x) by {
                            vstd::seq_lib::lemma_seq_contains_after_push(seen_before, child, x);
                        }
                        assert forall|q: u64| #[trigger] queue@.contains(q) implies seen@.contains(q) by {
                            vstd::seq_lib::lemma_seq_contains_after_push(queue_mid, child, q);
                            vstd::seq_lib::lemma_seq_contains_after_push(seen_before, child, q);
                        }
                        assert forall|x: u64|
                            #[trigger] seen@.contains(x) && !queue@.contains(x) && x != parent implies closed(
                            rels@,
                            present@,
                            seen@,
                            x,
                        ) by {
                            vstd::seq_lib::lemma_seq_contains_after_push(queue_mid, child, x);
                            vstd::seq_lib::lemma_seq_contains_after_push(seen_before, child, x);
                            assert(closed(rels@, present@, seen_before, x));
                            assert forall|c: u64| #[trigger] team_edge(rels@, present@, x, c) implies seen@.contains(c) by {
                                vstd::seq_lib::lemma_seq_contains_after_push(seen_before, child, c);
                            }
                        }
                        assert forall|i: int, k: int| 0 <= i < k < seen@.len() implies seen@[i] != seen@[k] by {
                            if k == seen@.len() - 1 {
                                assert(seen_before[i] == seen@[i]);
                                assert(seen_before.contains(seen@[i]));
                            }
                        }
                        assert forall|k: int|
                            0 <= k < j + 1 && #[trigger] rels@[k].delegation && rels@[k].parent == parent && team_edge(
                                rels@,
                                present@,
                                parent,
                                rels@[k].child,
                            ) implies seen@.contains(rels@[k].child) by {
                            vstd::seq_lib::lemma_seq_contains_after_push(seen_before, child, rels@[k].child);
                        }
                    }
                } else {
                    proof {
                        if team_edge(rels@, present@, parent, child) {
                            assert(first is Some);
                            assert(!several);
                            assert(present@.contains(child));
                        }
                    }
                }
            }
            j += 1;
        }
        proof {
            assert forall|c: u64| #[trigger] team_edge(rels@, present@, parent, c) implies seen@.contains(c) by {
                let k = choose|k: int| 0 <= k < rels@.len() && #[trigger] rels@[k] == (Relation { parent, child: c, delegation: true });
                assert(rels@[k].delegation && rels@[k].parent == parent);
            }
            assert(closed(rels@, present@, seen@, parent));
        }
    }
    proof {
        assert forall|x: u64| #[trigger] members@.contains(x) <==> in_team(rels@, present@, lead, x) by {
            if members@.contains(x) {
                let k = choose|k: int| 0 <= k < members@.len() && members@[k] == x;
                assert(seen@[k + 1] == x);
                assert(seen@.contains(x));
                assert(seen@[0] == lead);
            }
            if in_team(rels@, present@, lead, x) {
                let path = choose|path: Seq<u64>| #[trigger] is_team_path(rels@, present@, path) && path[0] == lead && path.last() == x;
                assert(seen@[0] == lead);
                assert(seen@.contains(lead));
                lemma_closed_reaches_all(rels@, present@, seen@, path, path.len() - 1);
                let k = choose|k: int| 0 <= k < seen@.len() && seen@[k] == x;
                assert(k != 0);
                assert(members@[k - 1] == x);
            }
        }
        assert forall|i: int, k: int| 0 <= i < k < members@.len() implies members@[i] != members@[k] by {
            assert(seen@[i + 1] == members@[i]);
            assert(seen@[k + 1] == members@[k]);
        }
    }
    members
}

// ---------------------------------------------------------------------------
// Meetings
// ---------------------------------------------------------------------------

/// Whether the team under `lead` has a member at work.
pub open spec fn team_is_busy(rels: Seq<Relation>, present: Seq<u64>, active: Seq<u64>, lead: u64) -> bool {
    exists|x: u64| #[trigger] in_team(rels, present, lead, x) && active.contains(x)
}

/// The meeting `selected` takes part in: the lead above it and that
/// lead's team, when the lead can be told and a team member is at work.
/// `present` holds the office's workers and `active` those at work.
pub fn meeting_for(rels: &Vec<Relation>, present: &Vec<u64>, active: &Vec<u64>, selected: Option<u64>) -> (r: Option<MeetingGroup>)
    ensures
        r is None <==> (selected is None || lead_of(rels@, present@, selected->0) is None || !team_is_busy(
            rels@,
            present@,
            active@,
            lead_of(rels@, present@, selected->0)->0,
        )),
        r is Some ==> {
            let g = r->0;
            &&& Some(g.parent) == lead_of(rels@, present@, selected->0)
            &&& distinct(g.members@)
            &&& forall|x: u64| #[trigger] g.members@.contains(x) <==> in_team(rels@, present@, g.parent, x)
        },
{
    let start = match selected {
        Some(s) => s,
        None => {
            return None;
        },
    };
    let lead = match find_lead(rels, present, start) {
        Some(l) => l,
        None => {
            return None;
        },
    };
    let members = team_of(rels, present, lead);
    let mut i: usize = 0;
    let mut busy = false;
    while i < members.len()
        invariant
            i <= members@.len(),
            busy ==> team_is_busy(rels@, present@, active@, lead),
            !busy ==> forall|k: int| 0 <= k < i ==> !active@.contains(#[trigger] members@[k]),
            forall|x: u64| #[trigger] members@.contains(x) <==> in_team(rels@, present@, lead, x),
        decreases members.len() - i,
    {
        if holds(active, members[i]) {
            proof {
                assert(members@.contains(members@[i as int]));
                assert(in_team(rels@, present@, lead, members@[i as int]));
            }
            busy = true;
        }
        i += 1;
    }
    if !busy {
        proof {
            assert forall|x: u64| #[trigger] in_team(rels@, present@, lead, x) implies !active@.contains(x) by {
                assert(members@.contains(x));
                let k = choose|k: int| 0 <= k < members@.len() && members@[k] == x;
            }
        }
        return None;
    }
    Some(MeetingGroup { parent: lead, members })
}

/// Teams are made only of clear delegation: every member is in the office
/// and was delegated to by exactly one worker, and the lead is not its own
/// member.
pub proof fn law_team_members_have_one_delegator(rels: Seq<Relation>, present: Seq<u64>, lead: u64, x: u64)
    requires
        in_team(rels, present, lead, x),
    ensures
        x != lead,
        present.contains(x),
        exists|p: u64| #[trigger] sole_delegator(rels, p, x),
{
    let path = choose|path: Seq<u64>| #[trigger] is_team_path(rels, present, path) && path[0] == lead && path.last() == x;
    assert(path.len() >= 2);
    assert(team_edge(rels, present, path[path.len() - 2], path[path.len() - 1]));
}

/// The lead of the meeting `worker` takes part in, if any.
pub open spec fn meeting_lead(rels: Seq<Relation>, present: Seq<u64>, active: Seq<u64>, worker: u64) -> Option<u64> {
    match lead_of(rels, present, worker) {
        Some(lead) => if team_is_busy(rels, present, active, lead) {
            Some(lead)
        } else {
            None
        },
        None => None,
    }
}

/// Every meeting in the office, one per lead, in order of the leads' ids.
pub fn meetings(rels: &Vec<Relation>, present: &Vec<u64>, active: &Vec<u64>) -> (r: Vec<MeetingGroup>)
    ensures
        forall|i: int, j: int| 0 <= i < j < r@.len() ==> r@[i].parent < r@[j].parent,
        forall|i: int|
            0 <= i < r@.len() ==> {
                &&& exists|k: int| 0 <= k < present@.len() && #[trigger] meeting_lead(rels@, present@, active@, present@[k]) == Some(r@[i].parent)
                &&& distinct(r@[i].members@)
                &&& forall|x: u64| #[trigger] r@[i].members@.contains(x) <==> in_team(rels@, present@, r@[i].parent, x)
            },
        forall|k: int|
            0 <= k < present@.len() && #[trigger] meeting_lead(rels@, present@, active@, present@[k]) is Some ==> exists|i: int|
                0 <= i < r@.len() && Some(r@[i].parent) == meeting_lead(rels@, present@, active@, present@[k]),
{
    let mut groups: Vec<MeetingGroup> = Vec::new();
    let mut w: usize = 0;
    while w < present.len()
        invariant
            w <= present@.len(),
            forall|i: int, j: int| 0 <= i < j < groups@.len() ==> groups@[i].parent < groups@[j].parent,
            forall|i: int|
                0 <= i < groups@.len() ==> {
                    &&& exists|k: int| 0 <= k < present@.len() && #[trigger] meeting_lead(rels@, present@, active@, present@[k]) == Some(groups@[i].parent)
                    &&& distinct(groups@[i].members@)
                    &&& forall|x: u64| #[trigger] groups@[i].members@.contains(x) <==> in_team(rels@, present@, groups@[i].parent, x)
                },
            forall|k: int|
                0 <= k < w && #[trigger] meeting_lead(rels@, present@, active@, present@[k]) is Some ==> exists|i: int|
                    0 <= i < groups@.len() && Some(groups@[i].parent) == meeting_lead(rels@, present@, active@, present@[k]),
        decreases present.len() - w,
    {
        let worker = present[w];
        match meeting_for(rels, present, active, Some(worker)) {
            Some(group) => {
                assert(meeting_lead(rels@, present@, active@, present@[w as int]) == Some(group.parent));
                let mut p: usize = 0;
                while p < groups.len() && groups[p].parent < group.parent
                    invariant
                        p <= groups@.len(),
                        forall|k: int| 0 <= k < p ==> groups@[k].parent < group.parent,
                    decreases groups.len() - p,
                {
                    p += 1;
                }
                if p < groups.len() && groups[p].parent == group.parent {
                    assert(Some(groups@[p as int].parent) == meeting_lead(rels@, present@, active@, present@[w as int]));
                } else {
                    let ghost old_groups = groups@;
                    groups.insert(p, group);
                    proof {
                        assert forall|k: int| 0 <= k < p implies groups@[k] == old_groups[k] by {}
                        assert forall|k: int| p < k < groups@.len() implies groups@[k] == old_groups[k - 1] by {}
                        assert forall|i: int, j: int| 0 <= i < j < groups@.len() implies groups@[i].parent < groups@[j].parent by {
                            if j == p {
                            } else if i == p {
                                if j - 1 > p {
                                    assert(old_groups[p as int].parent < old_groups[j - 1].parent);
                                }
                            } else if i < p && j > p {
                                if j - 1 > p {
                                    assert(old_groups[p as int].parent < old_groups[j - 1].parent);
                                }
                            }
                        }
                        assert forall|i: int|
                            0 <= i < groups@.len() implies {
                                &&& exists|k: int| 0 <= k < present@.len() && #[trigger] meeting_lead(rels@, present@, active@, present@[k]) == Some(groups@[i].parent)
                                &&& distinct(groups@[i].members@)
                                &&& forall|x: u64| #[trigger] groups@[i].members@.contains(x) <==> in_team(rels@, present@, groups@[i].parent, x)
                            } by {
                            if i == p {
                                assert(meeting_lead(rels@, present@, active@, present@[w as int]) == Some(groups@[i].parent));
                            } else if i < p {
                                assert(groups@[i] == old_groups[i]);
                            } else {
                                assert(groups@[i] == old_groups[i - 1]);
                            }
                        }
                        assert forall|k: int|
                            0 <= k < w + 1 && #[trigger] meeting_lead(rels@, present@, active@, present@[k]) is Some implies exists|i: int|
                                0 <= i < groups@.len() && Some(groups@[i].parent) == meeting_lead(rels@, present@, active@, present@[k]) by {
                            if k == w {
                                assert(Some(groups@[p as int].parent) == meeting_lead(rels@, present@, active@, present@[k]));
                            } else {
                                let i = choose|i: int|
                                    0 <= i < old_groups.len() && Some(old_groups[i].parent) == meeting_lead(rels@, present@, active@, present@[k]);
                                if i < p {
                                    assert(groups@[i] == old_groups[i]);
                                } else {
                                    assert(groups@[i + 1] == old_groups[i]);
                                }
                            }
                        }
                    }
                }
            },
            None => {},
        }
        w += 1;
    }
    assert forall|i: int|
        0 <= i < groups@.len() implies {
            &&& exists|k: int| 0 <= k < present@.len() && #[trigger] meeting_lead(rels@, present@, active@, present@[k]) == Some(groups@[i].parent)
            &&& distinct(groups@[i].members@)
            &&& forall|x: u64| #[trigger] groups@[i].members@.contains(x) <==> in_team(rels@, present@, groups@[i].parent, x)
        } by {}
    groups
}

} // verus!
