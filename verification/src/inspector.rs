//! What the work inspector remembers between frames: whose work it shows,
//! the tab, and where the reader is.
use vstd::prelude::*;
use crate::layout::same_text;
use crate::reading::ReadingAnchor;
use crate::views::WorkTab;

verus! {

/// The inspector's state for one selected worker.
pub struct InspectorState {
    worker: Option<String>,
    pub tab: WorkTab,
    pub results_only: bool,
    pub show_actions: bool,
    pub expanded: bool,
    reading: ReadingAnchor,
    pending_scroll: i32,
    offset: usize,
}

impl InspectorState {
    /// The worker whose work is shown.
    pub closed spec fn worker_view(&self) -> Option<Seq<char>> {
        match self.worker {
            Some(w) => Some(w@),
            None => None,
        }
    }

    /// Where the reader is among the records.
    pub closed spec fn anchor(&self) -> ReadingAnchor {
        self.reading
    }

    /// Lines still to scroll by on the next frame.
    pub closed spec fn scroll_view(&self) -> i32 {
        self.pending_scroll
    }

    /// The first line shown.
    pub closed spec fn offset_view(&self) -> usize {
        self.offset
    }

    pub closed spec fn tab_view(&self) -> WorkTab {
        self.tab
    }

    pub closed spec fn results_view(&self) -> bool {
        self.results_only
    }

    pub closed spec fn actions_view(&self) -> bool {
        self.show_actions
    }

    pub closed spec fn expanded_view(&self) -> bool {
        self.expanded
    }

    pub closed spec fn wf(&self) -> bool {
        self.reading.wf()
    }

    /// Whether the reader is back at the latest record: following, with
    /// nothing new, no selected record, and no scroll.
    pub open spec fn at_latest(&self) -> bool {
        &&& self.anchor().key_view() is None
        &&& self.anchor().line_view() == 0
        &&& self.anchor().is_following()
        &&& !self.anchor().is_expired()
        &&& self.anchor().new_key_set() == Set::<Seq<char>>::empty()
        &&& self.offset_view() == 0
        &&& self.scroll_view() == 0
    }

    pub fn new() -> (r: Self)
        ensures
            r.wf(),
            r.worker_view() is None,
            r.tab_view() == WorkTab::Now,
            !r.results_view() && !r.actions_view() && !r.expanded_view(),
            r.anchor().key_view() is None,
            r.anchor().line_view() == 0,
            !r.anchor().is_following(),
            !r.anchor().is_expired(),
            r.anchor().seen_keys() == Set::<Seq<char>>::empty(),
            r.anchor().new_key_set() == Set::<Seq<char>>::empty(),
            r.scroll_view() == 0,
            r.offset_view() == 0,
    {
        InspectorState {
            worker: None,
            tab: WorkTab::default_tab(),
            results_only: false,
            show_actions: false,
            expanded: false,
            reading: ReadingAnchor::new(),
            pending_scroll: 0,
            offset: 0,
        }
    }

    /// Shows another worker's work: everything but the expanded setting
    /// starts afresh, at its latest record. Selecting the shown worker
    /// again changes nothing.
    pub fn select_worker(&mut self, id: &str)
        requires
            old(self).wf(),
        ensures
            final(self).wf(),
            final(self).worker_view() == Some(id@),
            old(self).worker_view() == Some(id@) ==> *final(self) == *old(self),
            old(self).worker_view() != Some(id@) ==> {
                &&& final(self).tab_view() == WorkTab::Now
                &&& !final(self).results_view() && !final(self).actions_view()
                &&& final(self).expanded_view() == old(self).expanded_view()
                &&& final(self).at_latest()
                &&& final(self).anchor().seen_keys() == Set::<Seq<char>>::empty()
            },
    {
        let same = match &self.worker {
            Some(current) => same_text(current.as_str(), id),
            None => false,
        };
        if same {
            return;
        }
        let expanded = self.expanded;
        *self = InspectorState::new();
        self.expanded = expanded;
        self.worker = Some(id.to_string());
        self.latest();
    }

    /// Shows another tab, from its latest record.
    pub fn select_tab(&mut self, tab: WorkTab)
        requires
            old(self).wf(),
        ensures
            final(self).wf(),
            final(self).tab_view() == tab,
            !final(self).results_view(),
            final(self).at_latest(),
            final(self).anchor().seen_keys() == Set::<Seq<char>>::empty(),
            final(self).worker_view() == old(self).worker_view(),
            final(self).actions_view() == old(self).actions_view(),
            final(self).expanded_view() == old(self).expanded_view(),
    {
        self.tab = tab;
        self.results_only = false;
        self.reading = ReadingAnchor::new();
        self.latest();
    }

    /// Scrolls by `delta` lines on the next frame; the pending scroll
    /// saturates at the ends of `i32`.
    pub fn scroll(&mut self, delta: i32)
        ensures
            final(self).scroll_view() as int == if old(self).scroll_view() + delta > i32::MAX {
                i32::MAX as int
            } else if old(self).scroll_view() + delta < i32::MIN {
                i32::MIN as int
            } else {
                old(self).scroll_view() + delta
            },
            final(self).anchor() == old(self).anchor(),
            final(self).offset_view() == old(self).offset_view(),
            final(self).worker_view() == old(self).worker_view(),
            final(self).tab_view() == old(self).tab_view(),
            final(self).results_view() == old(self).results_view(),
            final(self).actions_view() == old(self).actions_view(),
            final(self).expanded_view() == old(self).expanded_view(),
    {
        let sum: i64 = self.pending_scroll as i64 + delta as i64;
        self.pending_scroll = if sum > i32::MAX as i64 {
            i32::MAX
        } else if sum < i32::MIN as i64 {
            i32::MIN
        } else {
            sum as i32
        };
    }

    /// Jumps to the latest record and follows new ones.
    pub fn latest(&mut self)
        requires
            old(self).wf(),
        ensures
            final(self).wf(),
            final(self).at_latest(),
            final(self).anchor().seen_keys() == old(self).anchor().seen_keys(),
            final(self).worker_view() == old(self).worker_view(),
            final(self).tab_view() == old(self).tab_view(),
            final(self).results_view() == old(self).results_view(),
            final(self).actions_view() == old(self).actions_view(),
            final(self).expanded_view() == old(self).expanded_view(),
    {
        self.reading.latest();
        self.offset = 0;
        self.pending_scroll = 0;
    }

    /// Opens the activity tab at the record with `key`, reading rather
    /// than following.
    pub fn focus_record(&mut self, key: String)
        requires
            old(self).wf(),
        ensures
            final(self).wf(),
            final(self).tab_view() == WorkTab::Activity,
            !final(self).results_view(),
            final(self).anchor().key_view() == Some(key@),
            final(self).anchor().line_view() == 0,
            !final(self).anchor().is_following(),
            !final(self).anchor().is_expired(),
            final(self).anchor().seen_keys() == Set::<Seq<char>>::empty(),
            final(self).anchor().new_key_set() == Set::<Seq<char>>::empty(),
            final(self).scroll_view() == 0,
            final(self).offset_view() == old(self).offset_view(),
            final(self).worker_view() == old(self).worker_view(),
            final(self).actions_view() == old(self).actions_view(),
            final(self).expanded_view() == old(self).expanded_view(),
    {
        self.tab = WorkTab::Activity;
        self.results_only = false;
        self.reading = ReadingAnchor::at_record(key);
        self.pending_scroll = 0;
    }

    /// Shows only results on the activity tab, from the latest.
    pub fn results(&mut self)
        requires
            old(self).wf(),
        ensures
            final(self).wf(),
            final(self).tab_view() == WorkTab::Activity,
            final(self).results_view(),
            final(self).at_latest(),
            final(self).anchor().seen_keys() == old(self).anchor().seen_keys(),
            final(self).worker_view() == old(self).worker_view(),
            final(self).actions_view() == old(self).actions_view(),
            final(self).expanded_view() == old(self).expanded_view(),
    {
        self.tab = WorkTab::Activity;
        self.results_only = true;
        self.latest();
    }

    pub fn toggle_actions(&mut self)
        ensures
            final(self).actions_view() == !old(self).actions_view(),
            final(self).worker_view() == old(self).worker_view(),
            final(self).anchor() == old(self).anchor(),
            final(self).tab_view() == old(self).tab_view(),
            final(self).results_view() == old(self).results_view(),
            final(self).expanded_view() == old(self).expanded_view(),
            final(self).scroll_view() == old(self).scroll_view(),
            final(self).offset_view() == old(self).offset_view(),
    {
        self.show_actions = !self.show_actions;
    }

    /// How many records arrived since the reader stopped following.
    pub fn new_count(&self) -> (r: usize)
        requires
            self.wf(),
        ensures
            r == self.anchor().new_key_set().len(),
    {
        self.reading.new_count()
    }
}

impl Default for InspectorState {
    fn default() -> (r: Self)
        ensures
            r.wf(),
            r.worker_view() is None,
            r.tab_view() == WorkTab::Now,
            !r.results_view() && !r.actions_view() && !r.expanded_view(),
            r.scroll_view() == 0,
            r.offset_view() == 0,
    {
        InspectorState::new()
    }
}


// ---------------------------------------------------------------------------
// The inspector's actions
// ---------------------------------------------------------------------------

/// An action the inspector offers for the worker it shows.
#[derive(Clone, Copy, Debug, PartialEq, Eq, Structural)]
pub enum WorkAction {
    Review,
    Instruct,
    OpenConversation,
    TaskActions,
    Expand,
    Collapse,
    Character,
    Stop,
    Reconnect,
}

/// What the host allows for the shown worker, as the inspector reads it.
#[derive(Clone, Copy, Debug, PartialEq, Eq, Structural)]
pub struct WorkAccess {
    pub send: bool,
    pub native: bool,
    pub interrupt: bool,
    pub reconnect: bool,
}

/// The main actions: reviewing a pending request first, otherwise
/// instructing a task that accepts instructions or opening its own
/// conversation; then the task actions toggle (when there is room) and
/// expanding or collapsing.
pub open spec fn primary_actions(pending: bool, access: WorkAccess, compact: bool, expanded: bool) -> Seq<WorkAction> {
    (if pending {
        seq![WorkAction::Review]
    } else if access.send {
        seq![WorkAction::Instruct]
    } else if access.native {
        seq![WorkAction::OpenConversation]
    } else {
        Seq::<WorkAction>::empty()
    }) + (if !compact { seq![WorkAction::TaskActions] } else { Seq::<WorkAction>::empty() }) + seq![
        if expanded { WorkAction::Collapse } else { WorkAction::Expand },
    ]
}

/// The task actions, shown on request when there is room: opening the
/// conversation and instructing (when a request took the main place), the
/// character, stopping and reconnecting where the host allows them.
pub open spec fn secondary_actions(pending: bool, access: WorkAccess, compact: bool, shown: bool) -> Seq<WorkAction> {
    if shown && !compact {
        (if access.native && pending { seq![WorkAction::OpenConversation] } else { Seq::<WorkAction>::empty() })
            + (if access.send && pending { seq![WorkAction::Instruct] } else { Seq::<WorkAction>::empty() })
            + seq![WorkAction::Character]
            + (if access.interrupt { seq![WorkAction::Stop] } else { Seq::<WorkAction>::empty() })
            + (if access.reconnect { seq![WorkAction::Reconnect] } else { Seq::<WorkAction>::empty() })
    } else {
        Seq::<WorkAction>::empty()
    }
}

/// The inspector's main and secondary actions for a worker, with a pending
/// request or not, in a compact panel or not.
pub fn work_actions(pending: bool, access: WorkAccess, compact: bool, expanded: bool, shown: bool) -> (r: (
    Vec<WorkAction>,
    Vec<WorkAction>,
))
    ensures
        r.0@ == primary_actions(pending, access, compact, expanded),
        r.1@ == secondary_actions(pending, access, compact, shown),
        !pending ==> !r.0@.contains(WorkAction::Review),
        !r.1@.contains(WorkAction::Review),
{
    let mut primary: Vec<WorkAction> = Vec::new();
    if pending {
        primary.push(WorkAction::Review);
    } else if access.send {
        primary.push(WorkAction::Instruct);
    } else if access.native {
        primary.push(WorkAction::OpenConversation);
    }
    if !compact {
        primary.push(WorkAction::TaskActions);
    }
    primary.push(if expanded { WorkAction::Collapse } else { WorkAction::Expand });
    assert(primary@ =~= primary_actions(pending, access, compact, expanded));
    let mut secondary: Vec<WorkAction> = Vec::new();
    if shown && !compact {
        if access.native && pending {
            secondary.push(WorkAction::OpenConversation);
        }
        if access.send && pending {
            secondary.push(WorkAction::Instruct);
        }
        secondary.push(WorkAction::Character);
        if access.interrupt {
            secondary.push(WorkAction::Stop);
        }
        if access.reconnect {
            secondary.push(WorkAction::Reconnect);
        }
    }
    assert(secondary@ =~= secondary_actions(pending, access, compact, shown));
    assert(!pending ==> !primary@.contains(WorkAction::Review)) by {
        if !pending && primary@.contains(WorkAction::Review) {
            let k = choose|k: int| 0 <= k < primary@.len() && primary@[k] == WorkAction::Review;
        }
    }
    assert(!secondary@.contains(WorkAction::Review)) by {
        if secondary@.contains(WorkAction::Review) {
            let k = choose|k: int| 0 <= k < secondary@.len() && secondary@[k] == WorkAction::Review;
        }
    }
    (primary, secondary)
}

pub open spec fn work_action_label(a: WorkAction) -> Seq<char> {
    match a {
        WorkAction::Review => "Review request"@,
        WorkAction::Instruct => "Instruct"@,
        WorkAction::OpenConversation => "Open conversation"@,
        WorkAction::TaskActions => "Task actions"@,
        WorkAction::Expand => "Expand"@,
        WorkAction::Collapse => "Collapse"@,
        WorkAction::Character => "Character"@,
        WorkAction::Stop => "Stop task"@,
        WorkAction::Reconnect => "Reconnect"@,
    }
}

impl WorkAction {
    pub fn label(&self) -> (r: &'static str)
        ensures
            r@ == work_action_label(*self),
    {
        match self {
            WorkAction::Review => "Review request",
            WorkAction::Instruct => "Instruct",
            WorkAction::OpenConversation => "Open conversation",
            WorkAction::TaskActions => "Task actions",
            WorkAction::Expand => "Expand",
            WorkAction::Collapse => "Collapse",
            WorkAction::Character => "Character",
            WorkAction::Stop => "Stop task",
            WorkAction::Reconnect => "Reconnect",
        }
    }
}

} // verus!
