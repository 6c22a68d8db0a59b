//! Worker tallies for the camera wall and the tower floors, and their labels.
use vstd::prelude::*;
use crate::color::Color;
use crate::layout::same_text;
use crate::text::{decimal, extend_str, person_count_text, push_decimal, push_person_count, string_of};

verus! {

/// What a worker is doing, as the camera wall counts it.
#[derive(Debug, Clone, Copy, PartialEq, Eq, Structural)]
pub enum WorkerStatus {
    Running,
    Idle,
    Blocked,
    Failed,
}

/// The colour a status is shown in: green running, grey idle, amber
/// blocked, red failed.
pub open spec fn status_color_spec(status: WorkerStatus) -> Color {
    match status {
        WorkerStatus::Running => Color::Rgb(147, 214, 172),
        WorkerStatus::Idle => Color::Rgb(185, 191, 200),
        WorkerStatus::Blocked => Color::Rgb(247, 204, 125),
        WorkerStatus::Failed => Color::Rgb(255, 145, 145),
    }
}

pub fn status_color(status: WorkerStatus) -> (r: Color)
    ensures
        r == status_color_spec(status),
{
    match status {
        WorkerStatus::Running => Color::Rgb(147, 214, 172),
        WorkerStatus::Idle => Color::Rgb(185, 191, 200),
        WorkerStatus::Blocked => Color::Rgb(247, 204, 125),
        WorkerStatus::Failed => Color::Rgb(255, 145, 145),
    }
}

/// Workers of the camera wall by status.
#[derive(Debug, Clone, Copy, PartialEq, Eq, Structural)]
pub struct StatusCounts {
    pub running: usize,
    pub idle: usize,
    pub blocked: usize,
    pub failed: usize,
}

/// How many of `statuses` are `status`.
pub open spec fn status_count(statuses: Seq<WorkerStatus>, status: WorkerStatus) -> nat
    decreases statuses.len(),
{
    if statuses.len() == 0 {
        0
    } else {
        status_count(statuses.drop_last(), status) + if statuses.last() == status {
            1nat
        } else {
            0nat
        }
    }
}

proof fn lemma_status_count_bound(statuses: Seq<WorkerStatus>, status: WorkerStatus)
    ensures
        status_count(statuses, status) <= statuses.len(),
    decreases statuses.len(),
{
    if statuses.len() > 0 {
        lemma_status_count_bound(statuses.drop_last(), status);
    }
}

/// "3 working · 1 idle · 0 waiting · 2 failed".
pub open spec fn status_label_text(c: StatusCounts) -> Seq<char> {
    decimal(c.running as nat) + " working · "@ + decimal(c.idle as nat) + " idle · "@ + decimal(
        c.blocked as nat,
    ) + " waiting · "@ + decimal(c.failed as nat) + " failed"@
}

impl StatusCounts {
    pub fn new() -> (r: Self)
        ensures
            r == (StatusCounts { running: 0, idle: 0, blocked: 0, failed: 0 }),
    {
        StatusCounts { running: 0, idle: 0, blocked: 0, failed: 0 }
    }

    /// Counts the workers of one office, given each worker's status.
    pub fn add_office(&mut self, statuses: &Vec<WorkerStatus>)
        requires
            old(self).running + statuses.len() <= usize::MAX,
            old(self).idle + statuses.len() <= usize::MAX,
            old(self).blocked + statuses.len() <= usize::MAX,
            old(self).failed + statuses.len() <= usize::MAX,
        ensures
            final(self).running == old(self).running + status_count(statuses@, WorkerStatus::Running),
            final(self).idle == old(self).idle + status_count(statuses@, WorkerStatus::Idle),
            final(self).blocked == old(self).blocked + status_count(statuses@, WorkerStatus::Blocked),
            final(self).failed == old(self).failed + status_count(statuses@, WorkerStatus::Failed),
    {
        let mut i: usize = 0;
        while i < statuses.len()
            invariant
                i <= statuses.len(),
                old(self).running + statuses.len() <= usize::MAX,
                old(self).idle + statuses.len() <= usize::MAX,
                old(self).blocked + statuses.len() <= usize::MAX,
                old(self).failed + statuses.len() <= usize::MAX,
                self.running == old(self).running + status_count(statuses@.take(i as int), WorkerStatus::Running),
                self.idle == old(self).idle + status_count(statuses@.take(i as int), WorkerStatus::Idle),
                self.blocked == old(self).blocked + status_count(statuses@.take(i as int), WorkerStatus::Blocked),
                self.failed == old(self).failed + status_count(statuses@.take(i as int), WorkerStatus::Failed),
            decreases statuses.len() - i,
        {
            proof {
                assert(statuses@.take(i + 1).drop_last() =~= statuses@.take(i as int));
                lemma_status_count_bound(statuses@.take(i as int), WorkerStatus::Running);
                lemma_status_count_bound(statuses@.take(i as int), WorkerStatus::Idle);
                lemma_status_count_bound(statuses@.take(i as int), WorkerStatus::Blocked);
                lemma_status_count_bound(statuses@.take(i as int), WorkerStatus::Failed);
            }
            match statuses[i] {
                WorkerStatus::Running => self.running = self.running + 1,
                WorkerStatus::Idle => self.idle = self.idle + 1,
                WorkerStatus::Blocked => self.blocked = self.blocked + 1,
                WorkerStatus::Failed => self.failed = self.failed + 1,
            }
            i += 1;
        }
        assert(statuses@.take(statuses.len() as int) =~= statuses@);
    }

    pub fn label(&self) -> (r: String)
        ensures
            r@ == status_label_text(*self),
    {
        let mut out: Vec<char> = Vec::new();
        push_decimal(&mut out, self.running as u64);
        extend_str(&mut out, " working · ");
        push_decimal(&mut out, self.idle as u64);
        extend_str(&mut out, " idle · ");
        push_decimal(&mut out, self.blocked as u64);
        extend_str(&mut out, " waiting · ");
        push_decimal(&mut out, self.failed as u64);
        extend_str(&mut out, " failed");
        assert(out@ =~= status_label_text(*self));
        string_of(&out)
    }
}

/// The status line of an office: blocked and failed workers first, then
/// whether anyone is working.
pub open spec fn status_line_text(statuses: Seq<WorkerStatus>) -> Seq<char> {
    let blocked = status_count(statuses, WorkerStatus::Blocked);
    let failed = status_count(statuses, WorkerStatus::Failed);
    if blocked > 0 && failed > 0 {
        "! "@ + decimal(blocked) + " blocked • × "@ + decimal(failed) + " failed • manager responding"@
    } else if blocked > 0 {
        "! "@ + decimal(blocked) + " blocked • manager responding"@
    } else if failed > 0 {
        "× "@ + decimal(failed) + " failed • floor needs attention"@
    } else if status_count(statuses, WorkerStatus::Running) > 0 {
        "running • all desks live"@
    } else {
        "idle • floor quiet"@
    }
}

/// The status line of an office whose workers have the given statuses.
pub fn status_label(statuses: &Vec<WorkerStatus>) -> (r: String)
    ensures
        r@ == status_line_text(statuses@),
{
    let mut counts = StatusCounts::new();
    proof {
        lemma_status_count_bound(statuses@, WorkerStatus::Running);
        lemma_status_count_bound(statuses@, WorkerStatus::Idle);
        lemma_status_count_bound(statuses@, WorkerStatus::Blocked);
        lemma_status_count_bound(statuses@, WorkerStatus::Failed);
    }
    counts.add_office(statuses);
    let mut out: Vec<char> = Vec::new();
    if counts.blocked > 0 && counts.failed > 0 {
        extend_str(&mut out, "! ");
        push_decimal(&mut out, counts.blocked as u64);
        extend_str(&mut out, " blocked • × ");
        push_decimal(&mut out, counts.failed as u64);
        extend_str(&mut out, " failed • manager responding");
    } else if counts.blocked > 0 {
        extend_str(&mut out, "! ");
        push_decimal(&mut out, counts.blocked as u64);
        extend_str(&mut out, " blocked • manager responding");
    } else if counts.failed > 0 {
        extend_str(&mut out, "× ");
        push_decimal(&mut out, counts.failed as u64);
        extend_str(&mut out, " failed • floor needs attention");
    } else if counts.running > 0 {
        extend_str(&mut out, "running • all desks live");
    } else {
        extend_str(&mut out, "idle • floor quiet");
    }
    assert(out@ =~= status_line_text(statuses@));
    string_of(&out)
}

// ---------------------------------------------------------------------------
// Floor tallies
// ---------------------------------------------------------------------------

/// The workers of one tower floor. Observation health comes first: an
/// unavailable or stale worker never counts as live work.
#[derive(Debug, Clone, Copy, PartialEq, Eq, Structural)]
pub struct FloorCounts {
    pub total: usize,
    pub working: usize,
    pub ready: usize,
    pub attention: usize,
    pub waiting: usize,
    pub unavailable: usize,
    pub stale: usize,
}

/// Where a worker's state label is counted.
#[derive(Debug, Clone, Copy, PartialEq, Eq, Structural)]
pub enum FloorTally {
    Unavailable,
    Stale,
    Working,
    Ready,
    Attention,
    Waiting,
}

pub open spec fn floor_tally(state: Seq<char>) -> FloorTally {
    if state == "Source unavailable"@ {
        FloorTally::Unavailable
    } else if state == "Last known state"@ {
        FloorTally::Stale
    } else if state == "Working"@ {
        FloorTally::Working
    } else if state == "Ready"@ {
        FloorTally::Ready
    } else if state == "Approval needed"@ || state == "Question for you"@ || state
        == "Needs a follow-up"@ || state == "Error reported"@ {
        FloorTally::Attention
    } else {
        FloorTally::Waiting
    }
}

/// How many of the state labels fall in `tally`.
pub open spec fn tally_count(states: Seq<Seq<char>>, tally: FloorTally) -> nat
    decreases states.len(),
{
    if states.len() == 0 {
        0
    } else {
        tally_count(states.drop_last(), tally) + if floor_tally(states.last()) == tally {
            1nat
        } else {
            0nat
        }
    }
}

proof fn lemma_tally_total(states: Seq<Seq<char>>)
    ensures
        tally_count(states, FloorTally::Unavailable) + tally_count(states, FloorTally::Stale)
            + tally_count(states, FloorTally::Working) + tally_count(states, FloorTally::Ready)
            + tally_count(states, FloorTally::Attention) + tally_count(states, FloorTally::Waiting)
            == states.len(),
    decreases states.len(),
{
    if states.len() > 0 {
        lemma_tally_total(states.drop_last());
    }
}

fn classify(state: &String) -> (t: FloorTally)
    ensures
        t == floor_tally(state@),
{
    let s = state.as_str();
    if same_text(s, "Source unavailable") {
        FloorTally::Unavailable
    } else if same_text(s, "Last known state") {
        FloorTally::Stale
    } else if same_text(s, "Working") {
        FloorTally::Working
    } else if same_text(s, "Ready") {
        FloorTally::Ready
    } else if same_text(s, "Approval needed") || same_text(s, "Question for you") || same_text(
        s,
        "Needs a follow-up",
    ) || same_text(s, "Error reported") {
        FloorTally::Attention
    } else {
        FloorTally::Waiting
    }
}

/// " · " between the parts of a floor summary.
pub open spec fn separator() -> Seq<char> {
    " · "@
}

/// A part that is shown only when its count is positive.
pub open spec fn counted_part(n: nat, text: Seq<char>) -> Seq<char> {
    if n > 0 {
        separator() + text
    } else {
        seq![]
    }
}

/// "5 people · 1 offline · ! 2 · 1 working · 1 waiting", or "· ready" when
/// every worker of a non-empty floor is ready.
pub open spec fn compact_text(c: FloorCounts) -> Seq<char> {
    person_count_text(c.total as nat) + counted_part(c.unavailable as nat, decimal(c.unavailable as nat) + " offline"@)
        + counted_part(c.stale as nat, decimal(c.stale as nat) + " stale"@) + counted_part(
        c.attention as nat,
        "! "@ + decimal(c.attention as nat),
    ) + counted_part(c.working as nat, decimal(c.working as nat) + " working"@) + counted_part(
        c.waiting as nat,
        decimal(c.waiting as nat) + " waiting"@,
    ) + if c.ready == c.total && c.total > 0 {
        separator() + "ready"@
    } else {
        seq![]
    }
}

impl FloorCounts {
    /// Tallies a floor from the state label of each of its workers.
    pub fn new(states: &Vec<String>) -> (r: Self)
        ensures
            r.total == states.len(),
            r.unavailable == tally_count(states@.map_values(|s: String| s@), FloorTally::Unavailable),
            r.stale == tally_count(states@.map_values(|s: String| s@), FloorTally::Stale),
            r.working == tally_count(states@.map_values(|s: String| s@), FloorTally::Working),
            r.ready == tally_count(states@.map_values(|s: String| s@), FloorTally::Ready),
            r.attention == tally_count(states@.map_values(|s: String| s@), FloorTally::Attention),
            r.waiting == tally_count(states@.map_values(|s: String| s@), FloorTally::Waiting),
    {
        let ghost all = states@.map_values(|s: String| s@);
        let mut r = FloorCounts { total: 0, working: 0, ready: 0, attention: 0, waiting: 0, unavailable: 0, stale: 0 };
        let mut i: usize = 0;
        while i < states.len()
            invariant
                all == states@.map_values(|s: String| s@),
                i <= states.len(),
                r.total == i,
                r.unavailable == tally_count(all.take(i as int), FloorTally::Unavailable),
                r.stale == tally_count(all.take(i as int), FloorTally::Stale),
                r.working == tally_count(all.take(i as int), FloorTally::Working),
                r.ready == tally_count(all.take(i as int), FloorTally::Ready),
                r.attention == tally_count(all.take(i as int), FloorTally::Attention),
                r.waiting == tally_count(all.take(i as int), FloorTally::Waiting),
            decreases states.len() - i,
        {
            proof {
                assert(all.take(i + 1).drop_last() =~= all.take(i as int));
                lemma_tally_total(all.take(i as int));
            }
            let t = classify(&states[i]);
            r.total = r.total + 1;
            match t {
                FloorTally::Unavailable => r.unavailable = r.unavailable + 1,
                FloorTally::Stale => r.stale = r.stale + 1,
                FloorTally::Working => r.working = r.working + 1,
                FloorTally::Ready => r.ready = r.ready + 1,
                FloorTally::Attention => r.attention = r.attention + 1,
                FloorTally::Waiting => r.waiting = r.waiting + 1,
            }
            i += 1;
        }
        assert(all.take(states.len() as int) =~= all);
        r
    }

    pub fn compact(&self) -> (r: String)
        ensures
            r@ == compact_text(*self),
    {
        let mut out: Vec<char> = Vec::new();
        push_person_count(&mut out, self.total);
        push_counted(&mut out, self.unavailable, " offline");
        push_counted(&mut out, self.stale, " stale");
        push_attention(&mut out, self.attention);
        push_counted(&mut out, self.working, " working");
        push_counted(&mut out, self.waiting, " waiting");
        if self.ready == self.total && self.total > 0 {
            extend_str(&mut out, " · ");
            extend_str(&mut out, "ready");
        }
        assert(out@ =~= compact_text(*self));
        string_of(&out)
    }
}

/// Appends `" · {n}{word}"` when `n` is positive.
fn push_counted(out: &mut Vec<char>, n: usize, word: &str)
    ensures
        final(out)@ == old(out)@ + counted_part(n as nat, decimal(n as nat) + word@),
{
    if n > 0 {
        extend_str(out, " · ");
        push_decimal(out, n as u64);
        extend_str(out, word);
    }
    assert(final(out)@ =~= old(out)@ + counted_part(n as nat, decimal(n as nat) + word@));
}

/// Appends `" · ! {n}"` when `n` is positive.
fn push_attention(out: &mut Vec<char>, n: usize)
    ensures
        final(out)@ == old(out)@ + counted_part(n as nat, "! "@ + decimal(n as nat)),
{
    if n > 0 {
        extend_str(out, " · ");
        extend_str(out, "! ");
        push_decimal(out, n as u64);
    }
    assert(final(out)@ =~= old(out)@ + counted_part(n as nat, "! "@ + decimal(n as nat)));
}

} // verus!
