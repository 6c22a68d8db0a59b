//! Recorded work as the inspector and the finder read it: activity and
//! outcome texts, work records and the brief of one worker's work.
use vstd::prelude::*;
use crate::markers::{lemma_text_lt_irreflexive, lemma_text_lt_total, lemma_text_lt_transitive, text_less, text_lt};
use crate::text::{decimal, extend_str, push_decimal, string_of};

verus! {

/// What a worker was last observed doing.
pub enum Activity {
    Typing { detail: String },
    Reading { detail: String },
    Editing { detail: String },
    Searching { detail: String },
    Talking { detail: String },
    Waiting { detail: String },
    Error { detail: String },
    Thinking,
    Idle,
}

/// The line an activity is shown as: its verb and detail, worded so that
/// nothing is claimed beyond what was recorded.
pub open spec fn activity_text_spec(activity: Activity) -> Seq<char> {
    match activity {
        Activity::Typing { detail } => "Running "@ + detail@,
        Activity::Reading { detail } => "Reading "@ + detail@,
        Activity::Editing { detail } => "Editing "@ + detail@,
        Activity::Searching { detail } => "Searching "@ + detail@,
        Activity::Talking { detail } => "Text update: "@ + detail@,
        Activity::Waiting { detail } => "Recorded wait: "@ + detail@,
        Activity::Error { detail } => "Error reported: "@ + detail@,
        Activity::Thinking => "Processing; no tool activity recorded"@,
        Activity::Idle => "No current activity reported"@,
    }
}

fn prefixed(prefix: &str, detail: &String) -> (r: String)
    ensures
        r@ == prefix@ + detail@,
{
    let mut out: Vec<char> = Vec::new();
    extend_str(&mut out, prefix);
    extend_str(&mut out, detail.as_str());
    string_of(&out)
}

pub fn activity_text(activity: &Activity) -> (r: String)
    ensures
        r@ == activity_text_spec(*activity),
{
    match activity {
        Activity::Typing { detail } => prefixed("Running ", detail),
        Activity::Reading { detail } => prefixed("Reading ", detail),
        Activity::Editing { detail } => prefixed("Editing ", detail),
        Activity::Searching { detail } => prefixed("Searching ", detail),
        Activity::Talking { detail } => prefixed("Text update: ", detail),
        Activity::Waiting { detail } => prefixed("Recorded wait: ", detail),
        Activity::Error { detail } => prefixed("Error reported: ", detail),
        Activity::Thinking => "Processing; no tool activity recorded".to_string(),
        Activity::Idle => "No current activity reported".to_string(),
    }
}

/// What a recorded command or edit came to.
#[derive(Debug, Clone, Copy, PartialEq, Eq, Structural)]
pub enum Outcome {
    Exited(i32),
    Changed { added: u64, removed: u64 },
}

/// An integer in decimal, a minus sign first when negative.
pub open spec fn signed_decimal(n: int) -> Seq<char> {
    if n < 0 {
        seq!['-'] + decimal((-n) as nat)
    } else {
        decimal(n as nat)
    }
}

/// The line an outcome is shown as; nothing without one.
pub open spec fn outcome_text_spec(outcome: Option<Outcome>) -> Seq<char> {
    match outcome {
        Some(Outcome::Exited(code)) => "command exited with code "@ + signed_decimal(code as int),
        Some(Outcome::Changed { added, removed }) => decimal(added as nat) + " lines added, "@ + decimal(removed as nat)
            + " removed"@,
        None => seq![],
    }
}

pub fn outcome_text(outcome: Option<Outcome>) -> (r: String)
    ensures
        r@ == outcome_text_spec(outcome),
{
    let mut out: Vec<char> = Vec::new();
    match outcome {
        Some(Outcome::Exited(code)) => {
            extend_str(&mut out, "command exited with code ");
            if code < 0 {
                out.push('-');
                let magnitude: u64 = (-(code as i64)) as u64;
                push_decimal(&mut out, magnitude);
            } else {
                push_decimal(&mut out, code as u64);
            }
        },
        Some(Outcome::Changed { added, removed }) => {
            push_decimal(&mut out, added);
            extend_str(&mut out, " lines added, ");
            push_decimal(&mut out, removed);
            extend_str(&mut out, " removed");
        },
        None => {},
    }
    let r = string_of(&out);
    assert(r@ =~= outcome_text_spec(outcome));
    r
}

// ---------------------------------------------------------------------------
// Records
// ---------------------------------------------------------------------------

/// One retained observation of a worker's work.
pub struct WorkRecord {
    pub key: String,
    pub at: i64,
    pub actor: String,
    pub author: String,
    pub heading: String,
    pub text: String,
    pub result: bool,
    pub human_request: bool,
    pub provenance: String,
}

/// A record's heading over its text.
pub open spec fn record_detail(r: WorkRecord) -> Seq<char> {
    r.heading@ + seq!['\n'] + r.text@
}

impl WorkRecord {
    pub fn detail(&self) -> (r: String)
        ensures
            r@ == record_detail(*self),
    {
        let mut out: Vec<char> = Vec::new();
        extend_str(&mut out, self.heading.as_str());
        out.push('\n');
        extend_str(&mut out, self.text.as_str());
        let r = string_of(&out);
        assert(r@ =~= record_detail(*self));
        r
    }
}

/// Someone else on a worker's team.
pub struct TeamMember {
    pub id: String,
    pub name: String,
    pub title: String,
    pub relation: String,
    pub state: String,
    pub present: bool,
}

/// What the inspector shows of one worker's work.
pub struct WorkBrief {
    pub worker: String,
    pub alias: String,
    pub title: String,
    pub project: String,
    pub provider: String,
    pub state: String,
    pub observed: String,
    pub observed_at: i64,
    pub records: Vec<WorkRecord>,
    pub team: Vec<TeamMember>,
    pub coverage: String,
    pub warning: bool,
    pub present: bool,
    pub details: String,
}

/// Texts joined with single spaces.
pub open spec fn spaced(parts: Seq<Seq<char>>) -> Seq<char>
    decreases parts.len(),
{
    if parts.len() == 0 {
        seq![]
    } else if parts.len() == 1 {
        parts[0]
    } else {
        spaced(parts.drop_last()) + seq![' '] + parts.last()
    }
}

/// The details of records, in order.
pub open spec fn record_details(records: Seq<WorkRecord>) -> Seq<Seq<char>> {
    Seq::new(records.len(), |i: int| record_detail(records[i]))
}

/// The text a brief is found by: its alias, title and observed activity,
/// then the details of its records.
pub open spec fn brief_search_text(b: WorkBrief) -> Seq<char> {
    b.alias@ + seq![' '] + b.title@ + seq![' '] + b.observed@ + seq![' '] + spaced(record_details(b.records@))
}

impl WorkBrief {
    /// The newest result among the records: the first record marked as one.
    pub fn latest_result(&self) -> (r: Option<&WorkRecord>)
        ensures
            match r {
                Some(record) => exists|i: int|
                    0 <= i < self.records@.len() && self.records@[i] == *record && record.result && forall|k: int|
                        0 <= k < i ==> !#[trigger] self.records@[k].result,
                None => forall|k: int| 0 <= k < self.records@.len() ==> !#[trigger] self.records@[k].result,
            },
    {
        let mut i: usize = 0;
        while i < self.records.len()
            invariant
                i <= self.records@.len(),
                forall|k: int| 0 <= k < i ==> !#[trigger] self.records@[k].result,
            decreases self.records.len() - i,
        {
            if self.records[i].result {
                return Some(&self.records[i]);
            }
            i += 1;
        }
        None
    }

    pub fn search_text(&self) -> (r: String)
        ensures
            r@ == brief_search_text(*self),
    {
        let mut out: Vec<char> = Vec::new();
        extend_str(&mut out, self.alias.as_str());
        out.push(' ');
        extend_str(&mut out, self.title.as_str());
        out.push(' ');
        extend_str(&mut out, self.observed.as_str());
        out.push(' ');
        let ghost head = out@;
        let mut i: usize = 0;
        while i < self.records.len()
            invariant
                i <= self.records@.len(),
                out@ == head + spaced(record_details(self.records@).take(i as int)),
            decreases self.records.len() - i,
        {
            if i > 0 {
                out.push(' ');
            }
            let detail = self.records[i].detail();
            extend_str(&mut out, detail.as_str());
            proof {
                let d = record_details(self.records@);
                assert(d.take(i + 1).drop_last() =~= d.take(i as int));
                assert(d.take(i + 1).last() == record_detail(self.records@[i as int]));
                if i == 0 {
                    assert(spaced(d.take(0)) =~= seq![]);
                    assert(d.take(1).len() == 1);
                }
            }
            i += 1;
            assert(out@ =~= head + spaced(record_details(self.records@).take(i as int)));
        }
        assert(record_details(self.records@).take(self.records@.len() as int) =~= record_details(self.records@));
        let r = string_of(&out);
        assert(r@ =~= brief_search_text(*self));
        r
    }
}

// ---------------------------------------------------------------------------
// Listing order
// ---------------------------------------------------------------------------

/// Whether record `a` is listed before record `b`: newer first, then by
/// key.
pub open spec fn listed_before(a: WorkRecord, b: WorkRecord) -> bool {
    a.at > b.at || (a.at == b.at && text_lt(a.key@, b.key@))
}

/// Whether no record is listed before one ahead of it.
pub open spec fn in_listing_order(s: Seq<WorkRecord>) -> bool {
    forall|i: int, j: int| 0 <= i < j < s.len() ==> !listed_before(#[trigger] s[j], #[trigger] s[i])
}

proof fn lemma_listed_before_is_strict(a: WorkRecord, b: WorkRecord, c: WorkRecord)
    ensures
        !listed_before(a, a),
        listed_before(a, b) ==> !listed_before(b, a),
        listed_before(a, b) && listed_before(b, c) ==> listed_before(a, c),
{
    lemma_text_lt_irreflexive(a.key@);
    if listed_before(a, b) && listed_before(b, a) {
        if a.at == b.at {
            lemma_text_lt_transitive(a.key@, b.key@, a.key@);
        }
    }
    if listed_before(a, b) && listed_before(b, c) && a.at == b.at && b.at == c.at {
        lemma_text_lt_transitive(a.key@, b.key@, c.key@);
    }
}

fn listed_before_exec(a: &WorkRecord, b: &WorkRecord) -> (r: bool)
    ensures
        r == listed_before(*a, *b),
{
    a.at > b.at || (a.at == b.at && text_less(&a.key, &b.key))
}

/// Records in listing order: newest first, records of one moment by key.
pub fn order_records(records: Vec<WorkRecord>) -> (r: Vec<WorkRecord>)
    ensures
        in_listing_order(r@),
        r@.to_multiset() == records@.to_multiset(),
{
    let ghost original = records@;
    let mut rest = records;
    let mut ordered: Vec<WorkRecord> = Vec::new();
    proof {
        vstd::seq_lib::to_multiset_len(ordered@);
        vstd::multiset::lemma_multiset_empty_len(ordered@.to_multiset());
        assert(ordered@.to_multiset().add(rest@.to_multiset()) =~= original.to_multiset()) by {
            broadcast use vstd::multiset::group_multiset_axioms;
        }
    }
    while rest.len() > 0
        invariant
            in_listing_order(ordered@),
            ordered@.to_multiset().add(rest@.to_multiset()) == original.to_multiset(),
        decreases rest.len(),
    {
        let ghost before_rest = rest@;
        let record = rest.pop().unwrap();
        proof {
            assert(before_rest =~= rest@.push(record));
            vstd::seq_lib::to_multiset_build(rest@, record);
        }
        let mut p: usize = 0;
        while p < ordered.len() && !listed_before_exec(&record, &ordered[p])
            invariant
                p <= ordered@.len(),
                forall|k: int| 0 <= k < p ==> !listed_before(record, #[trigger] ordered@[k]),
            decreases ordered.len() - p,
        {
            p += 1;
        }
        let ghost old_ordered = ordered@;
        ordered.insert(p, record);
        proof {
            vstd::seq_lib::to_multiset_insert(old_ordered, p as int, record);
            assert(ordered@.to_multiset().add(rest@.to_multiset()) =~= original.to_multiset()) by {
                broadcast use vstd::multiset::group_multiset_axioms;
            }
            let t = ordered@;
            assert forall|i: int, j: int| 0 <= i < j < t.len() implies !listed_before(#[trigger] t[j], #[trigger] t[i]) by {
                if j < p {
                    assert(t[i] == old_ordered[i] && t[j] == old_ordered[j]);
                } else if j == p {
                    assert(t[i] == old_ordered[i]);
                    assert(!listed_before(record, old_ordered[i]));
                } else if i == p {
                    assert(t[j] == old_ordered[j - 1]);
                    assert(listed_before(record, old_ordered[p as int]));
                    if j - 1 > p {
                        assert(!listed_before(old_ordered[j - 1], old_ordered[p as int]));
                        lemma_listed_before_is_strict(old_ordered[j - 1], record, old_ordered[p as int]);
                    } else {
                        lemma_listed_before_is_strict(record, old_ordered[p as int], record);
                    }
                } else if i > p {
                    assert(t[i] == old_ordered[i - 1] && t[j] == old_ordered[j - 1]);
                } else {
                    assert(t[i] == old_ordered[i] && t[j] == old_ordered[j - 1]);
                }
            }
        }
    }
    proof {
        vstd::seq_lib::to_multiset_len(rest@);
        vstd::multiset::lemma_multiset_empty_len(rest@.to_multiset());
        assert(ordered@.to_multiset() =~= original.to_multiset()) by {
            broadcast use vstd::multiset::group_multiset_axioms;
        }
    }
    ordered
}

/// Listing order is a strict order on records, so a list with distinct
/// moments or keys is put in exactly one order.
pub proof fn law_listing_order_is_strict(a: WorkRecord, b: WorkRecord, c: WorkRecord)
    ensures
        !listed_before(a, a),
        listed_before(a, b) ==> !listed_before(b, a),
        listed_before(a, b) && listed_before(b, c) ==> listed_before(a, c),
        a.at != b.at || a.key@ != b.key@ ==> listed_before(a, b) || listed_before(b, a),
{
    lemma_listed_before_is_strict(a, b, c);
    lemma_text_lt_total(a.key@, b.key@);
}

// ---------------------------------------------------------------------------
// Search and preview texts
// ---------------------------------------------------------------------------

/// The texts of recorded messages that have one, in order.
pub open spec fn message_texts(texts: Seq<Option<String>>) -> Seq<Seq<char>>
    decreases texts.len(),
{
    if texts.len() == 0 {
        seq![]
    } else {
        let before = message_texts(texts.drop_last());
        match texts.last() {
            Some(t) => before.push(t@),
            None => before,
        }
    }
}

/// The texts of activities, in order.
pub open spec fn activity_texts(history: Seq<Activity>) -> Seq<Seq<char>> {
    Seq::new(history.len(), |i: int| activity_text_spec(history[i]))
}

/// What a worker is found by: its current activity, the activities of its
/// history, and the texts of its recorded messages, joined by spaces.
pub open spec fn searchable_work_text(activity: Activity, history: Seq<Activity>, texts: Seq<Option<String>>) -> Seq<char> {
    spaced(seq![activity_text_spec(activity)] + activity_texts(history) + message_texts(texts))
}

fn push_part(out: &mut Vec<char>, parts: Ghost<Seq<Seq<char>>>, part: &String)
    requires
        old(out)@ == spaced(parts@),
        parts@.len() > 0,
    ensures
        final(out)@ == spaced(parts@.push(part@)),
{
    out.push(' ');
    extend_str(out, part.as_str());
    proof {
        assert(parts@.push(part@).drop_last() =~= parts@);
    }
    assert(final(out)@ =~= spaced(parts@.push(part@)));
}

pub fn searchable_work(activity: &Activity, history: &Vec<Activity>, texts: &Vec<Option<String>>) -> (r: String)
    ensures
        r@ == searchable_work_text(*activity, history@, texts@),
{
    let first = activity_text(activity);
    let mut out: Vec<char> = Vec::new();
    extend_str(&mut out, first.as_str());
    let ghost mut parts: Seq<Seq<char>> = seq![first@];
    assert(out@ =~= spaced(parts));
    let mut i: usize = 0;
    while i < history.len()
        invariant
            i <= history@.len(),
            parts == seq![activity_text_spec(*activity)] + activity_texts(history@).take(i as int),
            out@ == spaced(parts),
        decreases history.len() - i,
    {
        let text = activity_text(&history[i]);
        push_part(&mut out, Ghost(parts), &text);
        proof {
            assert(seq![activity_text_spec(*activity)] + activity_texts(history@).take(i + 1) =~= parts.push(text@));
            parts = parts.push(text@);
        }
        i += 1;
    }
    assert(activity_texts(history@).take(history@.len() as int) =~= activity_texts(history@));
    let ghost head = parts;
    let mut k: usize = 0;
    while k < texts.len()
        invariant
            k <= texts@.len(),
            head == seq![activity_text_spec(*activity)] + activity_texts(history@),
            parts == head + message_texts(texts@.take(k as int)),
            out@ == spaced(parts),
        decreases texts.len() - k,
    {
        proof {
            assert(texts@.take(k + 1).drop_last() =~= texts@.take(k as int));
            assert(texts@.take(k + 1).last() == texts@[k as int]);
        }
        match &texts[k] {
            Some(text) => {
                push_part(&mut out, Ghost(parts), text);
                proof {
                    assert(head + message_texts(texts@.take(k + 1)) =~= parts.push(text@));
                    parts = parts.push(text@);
                }
            },
            None => {},
        }
        k += 1;
    }
    assert(texts@.take(texts@.len() as int) =~= texts@);
    string_of(&out)
}

/// A worker's preview: its activity, marked as only the last recorded one
/// when the source is unavailable or stale after an observation, and the
/// text of the latest result when the latest result has one.
pub open spec fn work_preview_text(
    activity: Activity,
    observed_at: i64,
    available: bool,
    stale: bool,
    results: Seq<Option<String>>,
) -> Seq<char> {
    let observed = if observed_at > 0 && (!available || stale) {
        "Last recorded: "@ + activity_text_spec(activity)
    } else {
        activity_text_spec(activity)
    };
    if results.len() > 0 && results.last() is Some {
        observed + "\nLatest result: "@ + results.last()->0@
    } else {
        observed
    }
}

/// The preview of a worker's work. `results` holds the texts of its
/// recorded results, oldest first; `stale` whether its source is stale now.
pub fn work_preview(
    activity: &Activity,
    observed_at: i64,
    available: bool,
    stale: bool,
    results: &Vec<Option<String>>,
) -> (r: String)
    ensures
        r@ == work_preview_text(*activity, observed_at, available, stale, results@),
{
    let mut out: Vec<char> = Vec::new();
    if observed_at > 0 && (!available || stale) {
        extend_str(&mut out, "Last recorded: ");
    }
    let text = activity_text(activity);
    extend_str(&mut out, text.as_str());
    if results.len() > 0 {
        match &results[results.len() - 1] {
            Some(result) => {
                extend_str(&mut out, "\nLatest result: ");
                extend_str(&mut out, result.as_str());
            },
            None => {},
        }
    }
    let r = string_of(&out);
    assert(r@ =~= work_preview_text(*activity, observed_at, available, stale, results@));
    r
}

} // verus!
