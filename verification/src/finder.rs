//! Searching the project directory: words, substring matching, ranking of
//! results, and the finder's query and selection.
use vstd::prelude::*;
use crate::counts::WorkerStatus;
use crate::sign::{copy_range, is_space, is_whitespace, trim_space, trimmed};
use crate::layout::{inset, inset_spec, min, rect_spec, sat_sub, Rect};
use crate::text::{
    chars_of, decimal, extend_str, is_control, is_control_code, line_display_width, line_width,
    push_decimal, push_decimal_wide, short_path, short_path_text, string_of, tail, tail_text,
};

verus! {

// ---------------------------------------------------------------------------
// Words and substrings
// ---------------------------------------------------------------------------

/// The words of a text and whether its last character is part of a word.
pub open spec fn words_acc(s: Seq<char>) -> (Seq<Seq<char>>, bool)
    decreases s.len(),
{
    if s.len() == 0 {
        (seq![], false)
    } else {
        let (ws, open) = words_acc(s.drop_last());
        let c = s.last();
        if is_space(c) {
            (ws, false)
        } else if open {
            (ws.drop_last().push(ws.last().push(c)), true)
        } else {
            (ws.push(seq![c]), true)
        }
    }
}

/// The maximal runs of non-whitespace characters, as `str::split_whitespace`
/// yields them.
pub open spec fn words(s: Seq<char>) -> Seq<Seq<char>> {
    words_acc(s).0
}

proof fn lemma_words_open(s: Seq<char>)
    ensures
        words_acc(s).1 ==> words_acc(s).0.len() > 0,
    decreases s.len(),
{
    if s.len() > 0 {
        lemma_words_open(s.drop_last());
    }
}

/// The words of a text.
pub fn split_words(text: &Vec<char>) -> (r: Vec<Vec<char>>)
    ensures
        r@.map_values(|w: Vec<char>| w@) == words(text@),
{
    let mut done: Vec<Vec<char>> = Vec::new();
    let mut current: Vec<char> = Vec::new();
    let mut i: usize = 0;
    while i < text.len()
        invariant
            i <= text.len(),
            words_acc(text@.take(i as int)) == (
                if current@.len() > 0 {
                    done@.map_values(|w: Vec<char>| w@).push(current@)
                } else {
                    done@.map_values(|w: Vec<char>| w@)
                },
                current@.len() > 0,
            ),
        decreases text.len() - i,
    {
        let c = text[i];
        assert(text@.take(i + 1).drop_last() =~= text@.take(i as int));
        let ghost before_done = done@.map_values(|w: Vec<char>| w@);
        let ghost before_current = current@;
        if is_whitespace(c) {
            if current.len() > 0 {
                let word = current;
                current = Vec::new();
                done.push(word);
                assert(done@.map_values(|w: Vec<char>| w@) =~= before_done.push(before_current));
            }
        } else {
            current.push(c);
            proof {
                if before_current.len() > 0 {
                    assert(before_done.push(before_current).drop_last() =~= before_done);
                }
            }
        }
        i += 1;
        proof {
            let (ws, open) = words_acc(text@.take(i - 1));
            assert(text@.take(i as int).last() == c);
            assert(words_acc(text@.take(i as int)) == (if is_space(c) {
                (ws, false)
            } else if open {
                (ws.drop_last().push(ws.last().push(c)), true)
            } else {
                (ws.push(seq![c]), true)
            }));
            if !is_space(c) && !open {
                assert(before_current =~= Seq::<char>::empty());
                assert(current@ =~= seq![c]);
            }
        }
    }
    assert(text@.take(text.len() as int) =~= text@);
    if current.len() > 0 {
        let ghost before_done = done@.map_values(|w: Vec<char>| w@);
        done.push(current);
        assert(done@.map_values(|w: Vec<char>| w@) =~= before_done.push(
            done@[done@.len() - 1]@,
        ));
    }
    done
}

/// Whether `needle` occurs in `hay` as a run of consecutive characters.
pub open spec fn has_substring(hay: Seq<char>, needle: Seq<char>) -> bool {
    exists|i: int| 0 <= i && i + needle.len() <= hay.len() && #[trigger] hay.subrange(i, i + needle.len()) == needle
}

/// Whether the characters of `hay` from `at` begin with `needle`.
fn matches_at(hay: &Vec<char>, needle: &Vec<char>, at: usize) -> (r: bool)
    requires
        at + needle.len() <= hay.len(),
    ensures
        r == (hay@.subrange(at as int, at + needle.len()) == needle@),
{
    let mut k: usize = 0;
    while k < needle.len()
        invariant
            at + needle.len() <= hay.len(),
            k <= needle.len(),
            hay@.subrange(at as int, at + k) == needle@.take(k as int),
        decreases needle.len() - k,
    {
        if hay[at + k] != needle[k] {
            assert(hay@.subrange(at as int, at + needle.len())[k as int] != needle@[k as int]);
            return false;
        }
        k += 1;
        assert(hay@.subrange(at as int, at + k) =~= needle@.take(k as int));
    }
    assert(needle@.take(needle.len() as int) =~= needle@);
    true
}

pub fn contains_text(hay: &Vec<char>, needle: &Vec<char>) -> (r: bool)
    ensures
        r == has_substring(hay@, needle@),
{
    if needle.len() > hay.len() {
        return false;
    }
    if needle.len() == 0 {
        assert(hay@.subrange(0int, 0int + needle@.len()) =~= needle@);
        return true;
    }
    let last = hay.len() - needle.len();
    let mut i: usize = 0;
    while i <= last
        invariant
            last + needle.len() == hay.len(),
            needle.len() >= 1,
            forall|j: int| 0 <= j < i ==> #[trigger] hay@.subrange(j, j + needle.len()) != needle@,
        decreases last + 1 - i,
    {
        if matches_at(hay, needle, i) {
            return true;
        }
        i += 1;
    }
    false
}

/// Whether `s` begins with `prefix`.
pub open spec fn starts_with(s: Seq<char>, prefix: Seq<char>) -> bool {
    prefix.len() <= s.len() && s.take(prefix.len() as int) == prefix
}

pub(crate) fn begins_with(s: &Vec<char>, prefix: &Vec<char>) -> (r: bool)
    ensures
        r == starts_with(s@, prefix@),
{
    if prefix.len() > s.len() {
        return false;
    }
    let r = matches_at(s, prefix, 0);
    assert(s@.subrange(0, prefix.len() as int) =~= s@.take(prefix.len() as int));
    r
}

fn same_chars(a: &Vec<char>, b: &Vec<char>) -> (r: bool)
    ensures
        r == (a@ == b@),
{
    if a.len() != b.len() {
        return false;
    }
    let r = matches_at(a, b, 0);
    assert(a@.subrange(0, b.len() as int) =~= a@);
    r
}

// ---------------------------------------------------------------------------
// Results
// ---------------------------------------------------------------------------

/// What a result leads to: a project, or one worker of a project.
#[derive(Debug, PartialEq, Eq)]
pub enum Target {
    Project(String),
    Worker(String, String),
}

pub open spec fn target_view(t: Target) -> (bool, Seq<char>, Seq<char>) {
    match t {
        Target::Project(office) => (false, office@, seq![]),
        Target::Worker(office, worker) => (true, office@, worker@),
    }
}

impl Clone for Target {
    fn clone(&self) -> (r: Self)
        ensures
            target_view(r) == target_view(*self),
    {
        match self {
            Target::Project(office) => Target::Project(office.clone()),
            Target::Worker(office, worker) => Target::Worker(office.clone(), worker.clone()),
        }
    }
}

pub fn same_target(a: &Target, b: &Target) -> (r: bool)
    ensures
        r == (target_view(*a) == target_view(*b)),
{
    match (a, b) {
        (Target::Project(x), Target::Project(y)) => *x == *y,
        (Target::Worker(x, w), Target::Worker(y, v)) => *x == *y && *w == *v,
        _ => false,
    }
}

/// One searchable row of the directory.
#[derive(Debug)]
pub struct Entry {
    pub target: Target,
    pub title: String,
    pub context: String,
    pub path: String,
    pub badge: String,
    pub status: Option<WorkerStatus>,
    /// Lowercase text the query's words are looked for in.
    pub searchable: String,
}

/// Whether `hay` holds each of the words.
pub open spec fn holds_every(hay: Seq<char>, terms: Seq<Seq<char>>) -> bool {
    forall|t: int| 0 <= t < terms.len() ==> has_substring(hay, #[trigger] terms[t])
}

/// Whether an entry answers the query's words: with no words, every
/// project; otherwise every entry whose searchable text holds each word.
pub open spec fn entry_matches(e: Entry, terms: Seq<Seq<char>>) -> bool {
    if terms.len() == 0 {
        e.target is Project
    } else {
        holds_every(e.searchable@, terms)
    }
}

/// The positions of the first `n` entries that answer the query, in order.
pub open spec fn candidates(entries: Seq<Entry>, terms: Seq<Seq<char>>, n: nat) -> Seq<usize>
    decreases n,
{
    if n == 0 {
        seq![]
    } else {
        candidates(entries, terms, (n - 1) as nat) + if entry_matches(entries[n - 1], terms) {
            seq![(n - 1) as usize]
        } else {
            seq![]
        }
    }
}

/// How well a lowercase title answers a lowercase query: the whole title,
/// its beginning, all of the query's words, or only the searchable text.
pub open spec fn title_rank(title: Seq<char>, query: Seq<char>, terms: Seq<Seq<char>>) -> int {
    if title == query {
        0
    } else if starts_with(title, query) {
        1
    } else if holds_every(title, terms) {
        2
    } else {
        3
    }
}

/// The candidates whose title has rank `r`, in order.
pub open spec fn with_rank(cands: Seq<usize>, titles: Seq<Seq<char>>, query: Seq<char>, terms: Seq<Seq<char>>, r: int) -> Seq<usize>
    decreases cands.len(),
{
    if cands.len() == 0 {
        seq![]
    } else {
        with_rank(cands.drop_last(), titles, query, terms, r) + if title_rank(titles[cands.last() as int], query, terms)
            == r {
            seq![cands.last()]
        } else {
            seq![]
        }
    }
}

/// The results of a lowercase query over entries with the given lowercase
/// titles: the matching entries in directory order, and when the query has
/// words, re-ordered by title rank, keeping directory order within a rank.
pub open spec fn search_order(entries: Seq<Entry>, titles: Seq<Seq<char>>, query: Seq<char>) -> Seq<usize> {
    let terms = words(query);
    let c = candidates(entries, terms, entries.len());
    if terms.len() == 0 {
        c
    } else {
        with_rank(c, titles, query, terms, 0) + with_rank(c, titles, query, terms, 1) + with_rank(c, titles, query, terms, 2)
            + with_rank(c, titles, query, terms, 3)
    }
}

fn holds_all(hay: &Vec<char>, terms: &Vec<Vec<char>>) -> (r: bool)
    ensures
        r == holds_every(hay@, terms@.map_values(|w: Vec<char>| w@)),
{
    let ghost tv = terms@.map_values(|w: Vec<char>| w@);
    let mut t: usize = 0;
    while t < terms.len()
        invariant
            t <= terms.len(),
            tv == terms@.map_values(|w: Vec<char>| w@),
            forall|j: int| 0 <= j < t ==> has_substring(hay@, #[trigger] tv[j]),
        decreases terms.len() - t,
    {
        if !contains_text(hay, &terms[t]) {
            assert(tv[t as int] == terms@[t as int]@);
            return false;
        }
        assert(tv[t as int] == terms@[t as int]@);
        t += 1;
    }
    true
}

/// The results of a lowercase query: see `search_order`.
pub fn search(entries: &Vec<Entry>, titles: &Vec<Vec<char>>, query: &Vec<char>) -> (r: Vec<usize>)
    requires
        titles.len() == entries.len(),
    ensures
        r@ == search_order(entries@, titles@.map_values(|t: Vec<char>| t@), query@),
        forall|k: int| 0 <= k < r@.len() ==> #[trigger] r@[k] < entries.len(),
{
    let ghost tv = titles@.map_values(|t: Vec<char>| t@);
    let terms = split_words(query);
    let ghost terms_v = terms@.map_values(|w: Vec<char>| w@);
    let mut cands: Vec<usize> = Vec::new();
    let mut i: usize = 0;
    while i < entries.len()
        invariant
            i <= entries.len(),
            terms_v == words(query@),
            terms_v == terms@.map_values(|w: Vec<char>| w@),
            cands@ == candidates(entries@, terms_v, i as nat),
            forall|k: int| 0 <= k < cands@.len() ==> #[trigger] cands@[k] < i,
        decreases entries.len() - i,
    {
        let e = &entries[i];
        let matched = if terms.len() == 0 {
            match e.target {
                Target::Project(_) => true,
                _ => false,
            }
        } else {
            let searchable = chars_of(e.searchable.as_str());
            holds_all(&searchable, &terms)
        };
        if matched {
            cands.push(i);
        }
        i += 1;
        assert(cands@ =~= candidates(entries@, terms_v, i as nat));
    }
    if terms.len() == 0 {
        return cands;
    }
    let mut ranks: Vec<u8> = Vec::new();
    let mut k: usize = 0;
    while k < cands.len()
        invariant
            k <= cands.len(),
            titles.len() == entries.len(),
            tv == titles@.map_values(|t: Vec<char>| t@),
            terms_v == terms@.map_values(|w: Vec<char>| w@),
            forall|j: int| 0 <= j < cands@.len() ==> #[trigger] cands@[j] < entries.len(),
            ranks@.len() == k,
            forall|j: int| 0 <= j < k ==> #[trigger] ranks@[j] as int == title_rank(tv[cands@[j] as int], query@, terms_v),
        decreases cands.len() - k,
    {
        let title = &titles[cands[k]];
        assert(tv[cands@[k as int] as int] == title@);
        let rank: u8 = if same_chars(title, query) {
            0
        } else if begins_with(title, query) {
            1
        } else if holds_all(title, &terms) {
            2
        } else {
            3
        };
        ranks.push(rank);
        k += 1;
    }
    let mut out: Vec<usize> = Vec::new();
    let mut r: u8 = 0;
    while r < 4
        invariant
            r <= 4,
            ranks@.len() == cands@.len(),
            forall|j: int| 0 <= j < cands@.len() ==> #[trigger] ranks@[j] as int == title_rank(tv[cands@[j] as int], query@, terms_v),
            forall|j: int| 0 <= j < cands@.len() ==> #[trigger] cands@[j] < entries.len(),
            forall|j: int| 0 <= j < out@.len() ==> #[trigger] out@[j] < entries.len(),
            out@ == (if r == 0 {
                Seq::<usize>::empty()
            } else if r == 1 {
                with_rank(cands@, tv, query@, terms_v, 0)
            } else if r == 2 {
                with_rank(cands@, tv, query@, terms_v, 0) + with_rank(cands@, tv, query@, terms_v, 1)
            } else if r == 3 {
                with_rank(cands@, tv, query@, terms_v, 0) + with_rank(cands@, tv, query@, terms_v, 1) + with_rank(cands@, tv, query@, terms_v, 2)
            } else {
                with_rank(cands@, tv, query@, terms_v, 0) + with_rank(cands@, tv, query@, terms_v, 1) + with_rank(cands@, tv, query@, terms_v, 2)
                    + with_rank(cands@, tv, query@, terms_v, 3)
            }),
        decreases 4 - r,
    {
        let ghost start = out@;
        let mut j: usize = 0;
        while j < cands.len()
            invariant
                j <= cands.len(),
                r < 4,
                ranks@.len() == cands@.len(),
                forall|q: int| 0 <= q < cands@.len() ==> #[trigger] ranks@[q] as int == title_rank(tv[cands@[q] as int], query@, terms_v),
                forall|q: int| 0 <= q < cands@.len() ==> #[trigger] cands@[q] < entries.len(),
                forall|q: int| 0 <= q < out@.len() ==> #[trigger] out@[q] < entries.len(),
                out@ == start + with_rank(cands@.take(j as int), tv, query@, terms_v, r as int),
            decreases cands.len() - j,
        {
            assert(cands@.take(j + 1).drop_last() =~= cands@.take(j as int));
            assert(cands@.take(j + 1).last() == cands@[j as int]);
            if ranks[j] == r {
                out.push(cands[j]);
            }
            j += 1;
            assert(out@ =~= start + with_rank(cands@.take(j as int), tv, query@, terms_v, r as int));
        }
        assert(cands@.take(cands.len() as int) =~= cands@);
        r += 1;
    }
    out
}

// ---------------------------------------------------------------------------
// Lowercase
// ---------------------------------------------------------------------------

/// The lowercase form of a text, as `str::to_lowercase` maps it.
pub uninterp spec fn lowercase_of(text: Seq<char>) -> Seq<char>;

/// `str::to_lowercase`: Unicode lowercase mapping of the whole text. The
/// result is claimed to depend on the characters alone; the mapping itself
/// is not stated.
#[verifier::external_body]
fn to_lowercase(text: &str) -> (r: String)
    ensures
        r@ == lowercase_of(text@),
{
    text.to_lowercase()
}

// ---------------------------------------------------------------------------
// The finder
// ---------------------------------------------------------------------------

/// A key of the finder, already separated from terminal key events.
#[derive(Debug, Clone, Copy, PartialEq, Eq, Structural)]
pub enum FinderKey {
    Esc,
    Enter,
    Up,
    Down,
    PageUp,
    PageDown,
    Home,
    End,
    Left,
    Right,
    Backspace,
    Delete,
    /// Control-U: clear the query.
    ClearLine,
    /// A typed character; `modified` when Control or Alt was held.
    Char(char, bool),
    Other,
}

/// The most characters a query holds.
pub const QUERY_LIMIT: usize = 256;

/// The query, cursor and whether the query changed after an editing key.
pub open spec fn key_query(key: FinderKey, q: Seq<char>, c: nat) -> (Seq<char>, nat, bool) {
    match key {
        FinderKey::Home => (q, 0, false),
        FinderKey::End => (q, q.len(), false),
        FinderKey::Left => (q, if c > 0 { (c - 1) as nat } else { 0 }, false),
        FinderKey::Right => (q, if c < q.len() { c + 1 } else { c }, false),
        FinderKey::Backspace => if c > 0 {
            (q.take(c - 1) + q.skip(c as int), (c - 1) as nat, true)
        } else {
            (q, c, false)
        },
        FinderKey::Delete => if c < q.len() {
            (q.take(c as int) + q.skip(c + 1int), c, true)
        } else {
            (q, c, false)
        },
        FinderKey::ClearLine => (seq![], 0, true),
        FinderKey::Char(ch, false) => if !is_control_code(ch as u32) && q.len() < QUERY_LIMIT {
            (q.take(c as int).push(ch) + q.skip(c as int), c + 1, true)
        } else {
            (q, c, false)
        },
        _ => (q, c, false),
    }
}

/// The selection after a moving key, among `count` results shown
/// `page` at a time.
pub open spec fn key_selection(key: FinderKey, selected: nat, page: nat, count: nat) -> nat {
    let last = if count > 0 {
        (count - 1) as nat
    } else {
        0
    };
    let step = if page > 0 {
        page
    } else {
        1
    };
    match key {
        FinderKey::Up => if selected > 0 { (selected - 1) as nat } else { 0 },
        FinderKey::Down => if selected + 1 < last { selected + 1 } else { last },
        FinderKey::PageUp => if selected > step { (selected - step) as nat } else { 0 },
        FinderKey::PageDown => if selected + step < last { selected + step } else { last },
        _ => selected,
    }
}

/// A pasted text as the query takes it: whitespace becomes a space, other
/// controls are dropped, and no more than the room left is kept.
pub open spec fn pasted_query_text(pasted: Seq<char>, current_len: nat) -> Seq<char> {
    let room = if current_len >= QUERY_LIMIT {
        0
    } else {
        (QUERY_LIMIT - current_len) as nat
    };
    let kept = query_chars(pasted);
    if kept.len() <= room {
        kept
    } else {
        kept.take(room as int)
    }
}

pub open spec fn query_chars(s: Seq<char>) -> Seq<char>
    decreases s.len(),
{
    if s.len() == 0 {
        seq![]
    } else {
        let c = s.last();
        let mapped = if is_space(c) {
            ' '
        } else {
            c
        };
        if is_control_code(mapped as u32) {
            query_chars(s.drop_last())
        } else {
            query_chars(s.drop_last()).push(mapped)
        }
    }
}

/// The position among `matches` of the first result leading to `target`,
/// among the first `n`; -1 when there is none.
pub open spec fn target_position(entries: Seq<Entry>, matches: Seq<usize>, target: (bool, Seq<char>, Seq<char>), n: nat) -> int
    decreases n,
{
    if n == 0 {
        -1
    } else {
        let p = target_position(entries, matches, target, (n - 1) as nat);
        if p >= 0 {
            p
        } else if target_view(entries[matches[n - 1] as int].target) == target {
            n - 1
        } else {
            -1
        }
    }
}

/// The directory search: a query, the entries it is looked for in, the
/// results and the selected result.
pub struct Finder {
    pub open: bool,
    query: Vec<char>,
    cursor: usize,
    entries: Vec<Entry>,
    matches: Vec<usize>,
    selected: usize,
    page_size: usize,
    pub unavailable: bool,
}

// ---------------------------------------------------------------------------
// What the finder shows
// ---------------------------------------------------------------------------

/// One result row: two lines, the title with its badge and the context.
pub struct FinderRow {
    /// The clickable area of the row, two lines high.
    pub area: Rect,
    pub target: Target,
    pub selected: bool,
    /// `"> title"` for the selected row, `"  title"` otherwise.
    pub line: String,
    pub badge: String,
    pub badge_area: Rect,
    pub status: Option<WorkerStatus>,
    pub context: String,
}

/// The finder as a terminal of a given size shows it.
pub struct FinderView {
    /// The popup; none when the terminal is too small for it.
    pub popup: Option<Rect>,
    /// The rows shown at a time.
    pub page_size: usize,
    /// `"/ "` and the query's visible part, or the placeholder.
    pub query_line: String,
    pub summary: String,
    pub rows: Vec<FinderRow>,
    /// The selected result's path, its end kept.
    pub path: String,
    pub help: String,
}

/// The popup in a `width` by `height` terminal: at most 100 by 25 cells, two
/// cells from each edge, centred; none under 28 by 10.
pub open spec fn finder_popup(width: u16, height: u16) -> Option<Rect> {
    let w = min(sat_sub(width as int, 4), 100);
    let h = min(sat_sub(height as int, 4), 25);
    if w < 28 || h < 10 {
        None
    } else {
        Some(rect_spec(((width - w) / 2) as u16, ((height - h) / 2) as u16, w as u16, h as u16))
    }
}

/// The rows a page holds inside `inner`: two lines each, at least one.
pub open spec fn finder_page_size(inner: Rect) -> nat {
    let rows = sat_sub(inner.height as int, 5) / 2;
    if rows < 1 { 1 } else { rows as nat }
}

/// Where the visible part of the query starts: the first position whose
/// text up to the cursor is narrower than the query box.
pub open spec fn query_start(q: Seq<char>, cursor: int, room: int, s: int) -> int
    decreases cursor - s,
{
    if s >= cursor || line_display_width(q.subrange(s, cursor)) < room {
        s
    } else {
        query_start(q, cursor, room, s + 1)
    }
}

pub open spec fn placeholder() -> Seq<char> {
    "Project, task, provider or state\u{2026}"@
}

pub open spec fn finder_help() -> Seq<char> {
    "\u{2191}\u{2193} choose \u{b7} PgUp/Dn page \u{b7} Enter open \u{b7} Esc back \u{b7} Ctrl+U clear"@
}

/// The query line: the visible part of the query, or the placeholder.
pub open spec fn query_line_text(q: Seq<char>, cursor: int, inner: Rect) -> Seq<char> {
    let room = sat_sub(inner.width as int, 3);
    let start = query_start(q, cursor, if room < 1 { 1 } else { room }, 0);
    let input = if q.len() == 0 { placeholder() } else { short_path_text(q.skip(start), room as nat) };
    "/ "@ + short_path_text(input, room as nat)
}

/// "N projects · type to find conversations" for an empty query,
/// "N matches · first–last" for a search, or the notice that the chosen
/// item left.
pub open spec fn summary_text(unavailable: bool, blank_query: bool, n: nat, first: nat, page: nat) -> Seq<char> {
    if unavailable {
        "That item left the tower. Choose another result."@
    } else if blank_query {
        decimal(n) + " projects \u{b7} type to find conversations"@
    } else {
        decimal(n) + (if n == 1 { " match"@ } else { " matches"@ }) + " \u{b7} "@ + decimal(
            if n == 0 { 0 } else { first + 1 },
        ) + "\u{2013}"@ + decimal(if first + page < n { first + page } else { n })
    }
}

/// The width kept for a badge: its characters and two, at most half the row.
pub open spec fn badge_width(badge: Seq<char>, inner: Rect) -> int {
    min((badge.len() + 2) as int, (inner.width / 2) as int)
}

/// What row `k` of the page shows for entry `e`.
pub open spec fn row_spec(e: Entry, selected: bool, inner: Rect, k: int, row: FinderRow) -> bool {
    let y = inner.y + 2 + 2 * k;
    let bw = badge_width(e.badge@, inner);
    &&& row.area == rect_spec(inner.x, y as u16, inner.width, 2)
    &&& target_view(row.target) == target_view(e.target)
    &&& row.selected == selected
    &&& row.line@ == (if selected { seq!['>'] } else { seq![' '] }) + seq![' '] + short_path_text(
        e.title@,
        sat_sub(inner.width as int, bw + 2) as nat,
    )
    &&& row.badge@ == e.badge@
    &&& row.badge_area == rect_spec((inner.x + inner.width - bw) as u16, y as u16, bw as u16, 1)
    &&& row.status == e.status
    &&& row.context@ == short_path_text("  "@ + e.context@, inner.width as nat)
}

impl Finder {
    pub closed spec fn is_open(&self) -> bool {
        self.open
    }

    pub closed spec fn is_unavailable(&self) -> bool {
        self.unavailable
    }

    pub closed spec fn query_view(&self) -> Seq<char> {
        self.query@
    }

    pub closed spec fn cursor_at(&self) -> nat {
        self.cursor as nat
    }

    pub closed spec fn entry_list(&self) -> Seq<Entry> {
        self.entries@
    }

    pub closed spec fn results(&self) -> Seq<usize> {
        self.matches@
    }

    pub closed spec fn selected_at(&self) -> nat {
        self.selected as nat
    }

    pub closed spec fn page(&self) -> nat {
        self.page_size as nat
    }

    /// The results the query gives over the current entries.
    pub open spec fn expected_results(&self) -> Seq<usize> {
        search_order(
            self.entry_list(),
            self.entry_list().map_values(|e: Entry| lowercase_of(e.title@)),
            lowercase_of(self.query_view()),
        )
    }

    /// The target of the selected result.
    pub open spec fn selected_target_view(&self) -> Option<(bool, Seq<char>, Seq<char>)> {
        if self.selected_at() < self.results().len() && self.results()[self.selected_at() as int] < self.entry_list().len() {
            Some(target_view(self.entry_list()[self.results()[self.selected_at() as int] as int].target))
        } else {
            None
        }
    }

    pub closed spec fn wf(&self) -> bool {
        &&& self.cursor <= self.query@.len()
        &&& forall|k: int| 0 <= k < self.matches@.len() ==> #[trigger] self.matches@[k] < self.entries@.len()
    }

    pub fn new() -> (r: Self)
        ensures
            r.wf(),
            !r.is_open(),
            !r.is_unavailable(),
            r.query_view() == Seq::<char>::empty(),
            r.cursor_at() == 0,
            r.entry_list() == Seq::<Entry>::empty(),
            r.results() == Seq::<usize>::empty(),
            r.selected_at() == 0,
            r.page() == 0,
    {
        Finder {
            open: false,
            query: Vec::new(),
            cursor: 0,
            entries: Vec::new(),
            matches: Vec::new(),
            selected: 0,
            page_size: 0,
            unavailable: false,
        }
    }

    /// Recomputes the results and keeps the selection on `keep` when it is
    /// still among them, else on the same row as far as the results reach.
    #[verifier::loop_isolation(false)]
    fn filter(&mut self, keep: Option<Target>)
        requires
            old(self).wf(),
        ensures
            final(self).wf(),
            final(self).is_open() == old(self).is_open(),
            final(self).is_unavailable() == old(self).is_unavailable(),
            final(self).query_view() == old(self).query_view(),
            final(self).cursor_at() == old(self).cursor_at(),
            final(self).entry_list() == old(self).entry_list(),
            final(self).page() == old(self).page(),
            final(self).results() == old(self).expected_results(),
            ({
                let last = if final(self).results().len() > 0 {
                    final(self).results().len() - 1
                } else {
                    0
                };
                let fallback = if old(self).selected_at() < last {
                    old(self).selected_at() as int
                } else {
                    last
                };
                final(self).selected_at() == match keep {
                    Some(t) => {
                        let p = target_position(final(self).entry_list(), final(self).results(), target_view(t), final(self).results().len());
                        if p >= 0 {
                            p
                        } else {
                            fallback
                        }
                    },
                    None => fallback,
                }
            }),
    {
        let query_string = string_of(&self.query);
        let lowered = chars_of(to_lowercase(query_string.as_str()).as_str());
        let mut titles: Vec<Vec<char>> = Vec::new();
        let mut i: usize = 0;
        let ghost start = *self;
        while i < self.entries.len()
            invariant
                *self == start,
                i <= self.entries.len(),
                titles@.len() == i,
                forall|k: int| 0 <= k < i ==> #[trigger] titles@[k]@ == lowercase_of(self.entries@[k].title@),
            decreases self.entries.len() - i,
        {
            titles.push(chars_of(to_lowercase(self.entries[i].title.as_str()).as_str()));
            i += 1;
        }
        assert(titles@.map_values(|t: Vec<char>| t@) =~= self.entries@.map_values(|e: Entry| lowercase_of(e.title@)));
        let matches = search(&self.entries, &titles, &lowered);
        self.matches = matches;
        let last = if self.matches.len() > 0 {
            self.matches.len() - 1
        } else {
            0
        };
        let fallback = if self.selected < last {
            self.selected
        } else {
            last
        };
        match keep {
            Some(t) => {
                let ghost tv = target_view(t);
                let ghost snap = *self;
                let mut k: usize = 0;
                while k < self.matches.len()
                    invariant
                        *self == snap,
                        k <= self.matches@.len(),
                        self.wf(),
                        target_position(self.entries@, self.matches@, tv, k as nat) == -1,
                    decreases self.matches.len() - k,
                {
                    if same_target(&self.entries[self.matches[k]].target, &t) {
                        proof {
                            assert(target_view(self.entries@[self.matches@[k as int] as int].target) == tv);
                        }
                        self.selected = k;
                        proof {
                            assert forall|n: nat| k < n <= self.matches@.len() implies
                                #[trigger] target_position(self.entries@, self.matches@, tv, n) == k by {
                                lemma_position_found(self.entries@, self.matches@, tv, k as nat, n);
                            }
                        }
                        return;
                    }
                    k += 1;
                }
                self.selected = fallback;
            },
            None => {
                self.selected = fallback;
            },
        }
    }

    /// Opens the finder on an empty query.
    pub fn show(&mut self)
        requires
            old(self).wf(),
        ensures
            final(self).wf(),
            final(self).is_open(),
            !final(self).is_unavailable(),
            final(self).query_view() == Seq::<char>::empty(),
            final(self).cursor_at() == 0,
            final(self).entry_list() == old(self).entry_list(),
            final(self).results() == final(self).expected_results(),
            final(self).selected_at() == 0,
    {
        self.open = true;
        self.query = Vec::new();
        self.cursor = 0;
        self.selected = 0;
        self.unavailable = false;
        self.filter(None);
    }

    /// Inserts pasted text at the cursor: whitespace becomes a space, other
    /// controls are dropped, and the query stops at its limit. The search
    /// starts again from the first result.
    #[verifier::loop_isolation(false)]
    pub fn paste(&mut self, text: &str)
        requires
            old(self).wf(),
        ensures
            final(self).wf(),
            final(self).is_open() == old(self).is_open(),
            !final(self).is_unavailable(),
            final(self).query_view() == old(self).query_view().take(old(self).cursor_at() as int) + pasted_query_text(
                text@,
                old(self).query_view().len(),
            ) + old(self).query_view().skip(old(self).cursor_at() as int),
            final(self).cursor_at() == old(self).cursor_at() + pasted_query_text(text@, old(self).query_view().len()).len(),
            final(self).entry_list() == old(self).entry_list(),
            final(self).page() == old(self).page(),
            final(self).results() == final(self).expected_results(),
            final(self).selected_at() == 0,
    {
        let pasted = chars_of(text);
        let mut kept: Vec<char> = Vec::new();
        let mut i: usize = 0;
        while i < pasted.len()
            invariant
                i <= pasted.len(),
                pasted@ == text@,
                kept@ == query_chars(pasted@.take(i as int)),
            decreases pasted.len() - i,
        {
            let c = pasted[i];
            assert(pasted@.take(i + 1).drop_last() =~= pasted@.take(i as int));
            let mapped = if is_whitespace(c) {
                ' '
            } else {
                c
            };
            if !is_control(mapped) {
                kept.push(mapped);
            }
            i += 1;
        }
        assert(pasted@.take(pasted.len() as int) =~= pasted@);
        let room: usize = if self.query.len() >= QUERY_LIMIT {
            0
        } else {
            QUERY_LIMIT - self.query.len()
        };
        let take = if kept.len() <= room {
            kept.len()
        } else {
            room
        };
        let ghost q = self.query@;
        let ghost c0 = self.cursor;
        let mut k: usize = 0;
        while k < take
            invariant
                take <= kept.len(),
                k <= take,
                c0 <= q.len(),
                self.entries@ == old(self).entries@,
                self.matches@ == old(self).matches@,
                self.open == old(self).open,
                self.page_size == old(self).page_size,
                self.cursor == c0 + k,
                self.query@ == q.take(c0 as int) + kept@.take(k as int) + q.skip(c0 as int),
            decreases take - k,
        {
            let ghost before = self.query@;
            self.query.insert(self.cursor, kept[k]);
            assert(self.query@ =~= q.take(c0 as int) + kept@.take(k + 1) + q.skip(c0 as int)) by {
                assert(before.insert(c0 + k, kept@[k as int]) =~= q.take(c0 as int) + kept@.take(k + 1) + q.skip(c0 as int));
            }
            self.cursor = self.cursor + 1;
            k += 1;
        }
        assert(kept@.take(take as int) =~= pasted_query_text(text@, q.len()));
        self.selected = 0;
        self.unavailable = false;
        self.filter(None);
    }

    /// Applies a key: Esc closes, Enter opens the selected result once the
    /// results are on screen, moving keys move the selection or the cursor,
    /// and editing keys change the query and start the search again.
    pub fn handle_key(&mut self, key: FinderKey) -> (r: Option<Target>)
        requires
            old(self).wf(),
        ensures
            final(self).wf(),
            final(self).entry_list() == old(self).entry_list(),
            final(self).page() == old(self).page(),
            match key {
                FinderKey::Esc => {
                    &&& r is None
                    &&& !final(self).is_open()
                    &&& final(self).query_view() == old(self).query_view()
                    &&& final(self).cursor_at() == old(self).cursor_at()
                    &&& final(self).results() == old(self).results()
                    &&& final(self).selected_at() == old(self).selected_at()
                    &&& final(self).is_unavailable() == old(self).is_unavailable()
                },
                FinderKey::Enter => {
                    &&& (if old(self).page() == 0 {
                        r is None
                    } else {
                        match r {
                            Some(t) => old(self).selected_target_view() == Some(target_view(t)),
                            None => old(self).selected_target_view() is None,
                        }
                    })
                    &&& final(self).is_open() == (old(self).is_open() && r is None)
                    &&& final(self).query_view() == old(self).query_view()
                    &&& final(self).cursor_at() == old(self).cursor_at()
                    &&& final(self).results() == old(self).results()
                    &&& final(self).selected_at() == old(self).selected_at()
                    &&& final(self).is_unavailable() == old(self).is_unavailable()
                },
                _ => {
                    let (q, c, changed) = key_query(key, old(self).query_view(), old(self).cursor_at());
                    &&& r is None
                    &&& final(self).is_open() == old(self).is_open()
                    &&& final(self).query_view() == q
                    &&& final(self).cursor_at() == c
                    &&& if changed {
                        &&& final(self).selected_at() == 0
                        &&& !final(self).is_unavailable()
                        &&& final(self).results() == final(self).expected_results()
                    } else {
                        &&& final(self).selected_at() == key_selection(
                            key,
                            old(self).selected_at(),
                            old(self).page(),
                            old(self).results().len(),
                        )
                        &&& final(self).is_unavailable() == old(self).is_unavailable()
                        &&& final(self).results() == old(self).results()
                    }
                },
            },
    {
        let ghost q = self.query@;
        let ghost c = self.cursor;
        let count = self.matches.len();
        let last = if count > 0 {
            count - 1
        } else {
            0
        };
        let step = if self.page_size > 0 {
            self.page_size
        } else {
            1
        };
        let mut changed = false;
        match key {
            FinderKey::Esc => {
                self.open = false;
                return None;
            },
            FinderKey::Enter => {
                if self.page_size == 0 {
                    return None;
                }
                let target = self.selected_target();
                if target.is_some() {
                    self.open = false;
                }
                return target;
            },
            FinderKey::Up => {
                self.selected = self.selected.saturating_sub(1);
            },
            FinderKey::Down => {
                self.selected = if self.selected < last && self.selected + 1 < last {
                    self.selected + 1
                } else {
                    last
                };
            },
            FinderKey::PageUp => {
                self.selected = if self.selected > step {
                    self.selected - step
                } else {
                    0
                };
            },
            FinderKey::PageDown => {
                self.selected = if self.selected < last && step < last - self.selected {
                    self.selected + step
                } else {
                    last
                };
            },
            FinderKey::Home => {
                self.cursor = 0;
            },
            FinderKey::End => {
                self.cursor = self.query.len();
            },
            FinderKey::Left => {
                if self.cursor > 0 {
                    self.cursor = self.cursor - 1;
                }
            },
            FinderKey::Right => {
                if self.cursor < self.query.len() {
                    self.cursor = self.cursor + 1;
                }
            },
            FinderKey::Backspace => {
                if self.cursor > 0 {
                    self.query.remove(self.cursor - 1);
                    assert(self.query@ =~= q.take(c - 1) + q.skip(c as int));
                    self.cursor = self.cursor - 1;
                    changed = true;
                }
            },
            FinderKey::Delete => {
                if self.cursor < self.query.len() {
                    self.query.remove(self.cursor);
                    assert(self.query@ =~= q.take(c as int) + q.skip(c + 1int));
                    changed = true;
                }
            },
            FinderKey::ClearLine => {
                self.query = Vec::new();
                self.cursor = 0;
                changed = true;
            },
            FinderKey::Char(ch, modified) => {
                if !modified && !is_control(ch) && self.query.len() < QUERY_LIMIT {
                    self.query.insert(self.cursor, ch);
                    assert(self.query@ =~= q.take(c as int).push(ch) + q.skip(c as int));
                    self.cursor = self.cursor + 1;
                    changed = true;
                }
            },
            FinderKey::Other => {},
        }
        if changed {
            self.selected = 0;
            self.unavailable = false;
            self.filter(None);
        }
        None
    }

    /// Replaces the entries, keeping the selected result where it remains.
    pub fn refresh(&mut self, entries: Vec<Entry>)
        requires
            old(self).wf(),
        ensures
            final(self).wf(),
            final(self).entry_list() == entries@,
            final(self).query_view() == old(self).query_view(),
            final(self).results() == final(self).expected_results(),
            ({
                let last = if final(self).results().len() > 0 {
                    final(self).results().len() - 1
                } else {
                    0
                };
                let fallback = if old(self).selected_at() < last {
                    old(self).selected_at() as int
                } else {
                    last
                };
                final(self).selected_at() == match old(self).selected_target_view() {
                    Some(t) => {
                        let p = target_position(entries@, final(self).results(), t, final(self).results().len());
                        if p >= 0 {
                            p
                        } else {
                            fallback
                        }
                    },
                    None => fallback,
                }
            }),
    {
        let keep = self.selected_target();
        self.entries = entries;
        self.matches = Vec::new();
        self.filter(keep);
    }

    /// The target of the selected result.
    pub fn selected_target(&self) -> (r: Option<Target>)
        requires
            self.wf(),
        ensures
            match r {
                Some(t) => self.selected_target_view() == Some(target_view(t)),
                None => self.selected_target_view() is None,
            },
    {
        if self.selected < self.matches.len() {
            let index = self.matches[self.selected];
            Some(self.entries[index].target.clone())
        } else {
            None
        }
    }

    /// The rows the view shows at a time; zero while nothing is shown.
    pub fn set_page_size(&mut self, rows: usize)
        ensures
            final(self).page() == rows,
            final(self).is_open() == old(self).is_open(),
            final(self).is_unavailable() == old(self).is_unavailable(),
            final(self).query_view() == old(self).query_view(),
            final(self).cursor_at() == old(self).cursor_at(),
            final(self).entry_list() == old(self).entry_list(),
            final(self).results() == old(self).results(),
            final(self).selected_at() == old(self).selected_at(),
            old(self).wf() ==> final(self).wf(),
    {
        self.page_size = rows;
    }

    pub fn query_text(&self) -> (r: String)
        ensures
            r@ == self.query_view(),
    {
        string_of(&self.query)
    }

    pub fn cursor(&self) -> (r: usize)
        ensures
            r == self.cursor_at(),
    {
        self.cursor
    }

    pub fn selected(&self) -> (r: usize)
        ensures
            r == self.selected_at(),
    {
        self.selected
    }

    pub fn matches(&self) -> (r: &Vec<usize>)
        ensures
            r@ == self.results(),
    {
        &self.matches
    }

    pub fn entries(&self) -> (r: &Vec<Entry>)
        ensures
            r@ == self.entry_list(),
    {
        &self.entries
    }
}

impl Default for Finder {
    fn default() -> (r: Self)
        ensures
            r.wf(),
            !r.is_open(),
            !r.is_unavailable(),
            r.query_view() == Seq::<char>::empty(),
            r.cursor_at() == 0,
            r.entry_list() == Seq::<Entry>::empty(),
            r.results() == Seq::<usize>::empty(),
            r.selected_at() == 0,
            r.page() == 0,
    {
        Finder::new()
    }
}

proof fn lemma_position_found(entries: Seq<Entry>, matches: Seq<usize>, target: (bool, Seq<char>, Seq<char>), k: nat, n: nat)
    requires
        k < n <= matches.len(),
        target_position(entries, matches, target, k) == -1,
        target_view(entries[matches[k as int] as int].target) == target,
    ensures
        target_position(entries, matches, target, n) == k,
    decreases n,
{
    if n > k + 1 {
        lemma_position_found(entries, matches, target, k, (n - 1) as nat);
    }
}

// ---------------------------------------------------------------------------
// What a search finds
// ---------------------------------------------------------------------------

proof fn lemma_candidates(entries: Seq<Entry>, terms: Seq<Seq<char>>, n: nat)
    requires
        n <= entries.len(),
        entries.len() <= usize::MAX,
    ensures
        forall|k: int| 0 <= k < candidates(entries, terms, n).len() ==> (#[trigger] candidates(entries, terms, n)[k]) < n
            && entry_matches(entries[candidates(entries, terms, n)[k] as int], terms),
        forall|i: int| 0 <= i < n && entry_matches(entries[i], terms) ==> #[trigger] candidates(entries, terms, n).contains(
            i as usize,
        ),
        forall|a: int, b: int|
            0 <= a < b < candidates(entries, terms, n).len() ==> #[trigger] candidates(entries, terms, n)[a]
                < #[trigger] candidates(entries, terms, n)[b],
    decreases n,
{
    if n > 0 {
        lemma_candidates(entries, terms, (n - 1) as nat);
        let prev = candidates(entries, terms, (n - 1) as nat);
        let c = candidates(entries, terms, n);
        assert forall|i: int| 0 <= i < n && entry_matches(entries[i], terms) implies #[trigger] c.contains(i as usize) by {
            if i < n - 1 {
                assert(prev.contains(i as usize));
                let k = choose|k: int| 0 <= k < prev.len() && prev[k] == i as usize;
                assert(c[k] == prev[k]);
            } else {
                assert(c[c.len() - 1] == i as usize);
            }
        }
        assert forall|k: int| 0 <= k < c.len() implies (#[trigger] c[k]) < n && entry_matches(entries[c[k] as int], terms) by {
            if k < prev.len() {
                assert(c[k] == prev[k]);
            }
        }
        assert forall|a: int, b: int| 0 <= a < b < c.len() implies #[trigger] c[a] < #[trigger] c[b] by {
            if b < prev.len() {
                assert(c[a] == prev[a] && c[b] == prev[b]);
            } else {
                assert(c[a] == prev[a]);
            }
        }
    }
}

proof fn lemma_with_rank(cands: Seq<usize>, titles: Seq<Seq<char>>, query: Seq<char>, terms: Seq<Seq<char>>, r: int)
    requires
        forall|a: int, b: int| 0 <= a < b < cands.len() ==> #[trigger] cands[a] < #[trigger] cands[b],
    ensures
        forall|k: int| 0 <= k < with_rank(cands, titles, query, terms, r).len() ==> cands.contains(
            #[trigger] with_rank(cands, titles, query, terms, r)[k],
        ) && title_rank(titles[with_rank(cands, titles, query, terms, r)[k] as int], query, terms) == r,
        forall|x: usize| cands.contains(x) && title_rank(titles[x as int], query, terms) == r ==> #[trigger] with_rank(
            cands,
            titles,
            query,
            terms,
            r,
        ).contains(x),
        forall|a: int, b: int|
            0 <= a < b < with_rank(cands, titles, query, terms, r).len() ==> #[trigger] with_rank(cands, titles, query, terms, r)[a]
                < #[trigger] with_rank(cands, titles, query, terms, r)[b],
        forall|k: int| 0 <= k < with_rank(cands, titles, query, terms, r).len() && cands.len() > 0 ==>
            #[trigger] with_rank(cands, titles, query, terms, r)[k] <= cands.last(),
    decreases cands.len(),
{
    if cands.len() > 0 {
        let rest = cands.drop_last();
        assert forall|a: int, b: int| 0 <= a < b < rest.len() implies #[trigger] rest[a] < #[trigger] rest[b] by {
            assert(rest[a] == cands[a] && rest[b] == cands[b]);
        }
        lemma_with_rank(rest, titles, query, terms, r);
        let prev = with_rank(rest, titles, query, terms, r);
        let w = with_rank(cands, titles, query, terms, r);
        let x = cands.last();
        assert forall|k: int| 0 <= k < w.len() implies cands.contains(#[trigger] w[k]) && title_rank(titles[w[k] as int], query, terms) == r by {
            if k < prev.len() {
                assert(w[k] == prev[k]);
                let j = choose|j: int| 0 <= j < rest.len() && rest[j] == prev[k];
                assert(cands[j] == rest[j]);
            } else {
                assert(cands[cands.len() - 1] == x);
            }
        }
        assert forall|y: usize| cands.contains(y) && title_rank(titles[y as int], query, terms) == r implies #[trigger] w.contains(y) by {
            let j = choose|j: int| 0 <= j < cands.len() && cands[j] == y;
            if j < rest.len() {
                assert(rest[j] == y);
                assert(prev.contains(y));
                let k = choose|k: int| 0 <= k < prev.len() && prev[k] == y;
                assert(w[k] == prev[k]);
            } else {
                assert(w[w.len() - 1] == y);
            }
        }
        if rest.len() > 0 {
            assert(rest.last() == cands[cands.len() - 2]);
            assert(rest.last() < x);
        }
        assert forall|k: int| 0 <= k < w.len() implies #[trigger] w[k] <= x by {
            if k < prev.len() {
                assert(w[k] == prev[k]);
            }
        }
        assert forall|a: int, b: int| 0 <= a < b < w.len() implies #[trigger] w[a] < #[trigger] w[b] by {
            if b < prev.len() {
                assert(w[a] == prev[a] && w[b] == prev[b]);
            } else {
                assert(w[a] == prev[a]);
            }
        }
    }
}

/// The search finds exactly the entries that answer the query, each once;
/// with words in the query, better-ranked titles come first.
pub proof fn law_search_finds_exactly_the_matches(entries: Seq<Entry>, titles: Seq<Seq<char>>, query: Seq<char>)
    requires
        titles.len() == entries.len(),
        entries.len() <= usize::MAX,
    ensures
        ({
            let r = search_order(entries, titles, query);
            let terms = words(query);
            &&& forall|k: int| 0 <= k < r.len() ==> (#[trigger] r[k]) < entries.len() && entry_matches(entries[r[k] as int], terms)
            &&& forall|i: int| 0 <= i < entries.len() && entry_matches(entries[i], terms) ==> #[trigger] r.contains(i as usize)
            &&& r.no_duplicates()
            &&& terms.len() > 0 ==> forall|a: int, b: int|
                0 <= a < b < r.len() ==> title_rank(titles[#[trigger] r[a] as int], query, terms) <= title_rank(
                    titles[#[trigger] r[b] as int],
                    query,
                    terms,
                )
        }),
{
    let terms = words(query);
    let c = candidates(entries, terms, entries.len());
    lemma_candidates(entries, terms, entries.len());
    let r = search_order(entries, titles, query);
    if terms.len() == 0 {
        assert forall|a: int, b: int| 0 <= a < r.len() && 0 <= b < r.len() && a != b implies r[a] != r[b] by {
            if a < b {
                assert(c[a] < c[b]);
            } else {
                assert(c[b] < c[a]);
            }
        }
    } else {
        let g0 = with_rank(c, titles, query, terms, 0);
        let g1 = with_rank(c, titles, query, terms, 1);
        let g2 = with_rank(c, titles, query, terms, 2);
        let g3 = with_rank(c, titles, query, terms, 3);
        lemma_with_rank(c, titles, query, terms, 0);
        lemma_with_rank(c, titles, query, terms, 1);
        lemma_with_rank(c, titles, query, terms, 2);
        lemma_with_rank(c, titles, query, terms, 3);
        assert(r == g0 + g1 + g2 + g3);
        // Where each position of r comes from, and its rank.
        assert forall|k: int| 0 <= k < r.len() implies c.contains(#[trigger] r[k]) && title_rank(titles[r[k] as int], query, terms)
            == (if k < g0.len() {
            0
        } else if k < g0.len() + g1.len() {
            1
        } else if k < g0.len() + g1.len() + g2.len() {
            2
        } else {
            3int
        }) by {
            if k < g0.len() {
                assert(r[k] == g0[k]);
            } else if k < g0.len() + g1.len() {
                assert(r[k] == g1[k - g0.len()]);
            } else if k < g0.len() + g1.len() + g2.len() {
                assert(r[k] == g2[k - g0.len() - g1.len()]);
            } else {
                assert(r[k] == g3[k - g0.len() - g1.len() - g2.len()]);
            }
        }
        assert forall|k: int| 0 <= k < r.len() implies (#[trigger] r[k]) < entries.len() && entry_matches(entries[r[k] as int], terms) by {
            assert(c.contains(r[k]));
            let j = choose|j: int| 0 <= j < c.len() && c[j] == r[k];
        }
        assert forall|i: int| 0 <= i < entries.len() && entry_matches(entries[i], terms) implies #[trigger] r.contains(i as usize) by {
            let x = i as usize;
            assert(c.contains(x));
            let rank = title_rank(titles[x as int], query, terms);
            if rank == 0 {
                assert(with_rank(c, titles, query, terms, 0).contains(x));
                let k = choose|k: int| 0 <= k < g0.len() && g0[k] == x;
                assert(r[k] == x);
            } else if rank == 1 {
                assert(with_rank(c, titles, query, terms, 1).contains(x));
                let k = choose|k: int| 0 <= k < g1.len() && g1[k] == x;
                assert(r[g0.len() + k] == x);
            } else if rank == 2 {
                assert(with_rank(c, titles, query, terms, 2).contains(x));
                let k = choose|k: int| 0 <= k < g2.len() && g2[k] == x;
                assert(r[g0.len() + g1.len() + k] == x);
            } else {
                assert(with_rank(c, titles, query, terms, 3).contains(x));
                let k = choose|k: int| 0 <= k < g3.len() && g3[k] == x;
                assert(r[g0.len() + g1.len() + g2.len() + k] == x);
            }
        }
        assert forall|a: int, b: int| 0 <= a < b < r.len() implies title_rank(titles[#[trigger] r[a] as int], query, terms) <= title_rank(
            titles[#[trigger] r[b] as int],
            query,
            terms,
        ) by {
            assert(c.contains(r[a]));
            assert(c.contains(r[b]));
        }
        assert forall|a: int, b: int| 0 <= a < r.len() && 0 <= b < r.len() && a != b implies r[a] != r[b] by {
            assert(c.contains(r[a]));
            assert(c.contains(r[b]));
            let (lo, hi) = if a < b {
                (a, b)
            } else {
                (b, a)
            };
            if r[lo] == r[hi] {
                let n0 = g0.len() as int;
                let n1 = n0 + g1.len();
                let n2 = n1 + g2.len();
                if hi < n0 {
                    assert(r[lo] == g0[lo] && r[hi] == g0[hi]);
                } else if lo >= n0 && hi < n1 {
                    assert(r[lo] == g1[lo - n0] && r[hi] == g1[hi - n0]);
                } else if lo >= n1 && hi < n2 {
                    assert(r[lo] == g2[lo - n1] && r[hi] == g2[hi - n1]);
                } else if lo >= n2 {
                    assert(r[lo] == g3[lo - n2] && r[hi] == g3[hi - n2]);
                }
            }
        }
    }
}


/// The first result of the page the selection is on.
pub open spec fn page_first(selected: nat, page: nat) -> nat {
    selected / page * page
}

impl Finder {
    /// What the finder shows in a `width` by `height` terminal: the popup,
    /// the query line, the summary, the result rows of the selection's
    /// page with their clickable areas, the selected path and the help line.
    pub fn view(&self, width: u16, height: u16) -> (r: FinderView)
        requires
            self.wf(),
        ensures
            r.popup == finder_popup(width, height),
            match r.popup {
                None => r.page_size == 0 && r.rows@.len() == 0,
                Some(p) => {
                    let inner = inset_spec(p, 1);
                    let ps = finder_page_size(inner);
                    let n = self.results().len();
                    let first = page_first(self.selected_at(), ps);
                    let last = if first + ps < n { first + ps } else { n };
                    &&& r.page_size == ps
                    &&& r.query_line@ == query_line_text(self.query_view(), self.cursor_at() as int, inner)
                    &&& r.summary@ == short_path_text(
                        summary_text(self.is_unavailable(), trim_space(self.query_view()).len() == 0, n, first, ps),
                        inner.width as nat,
                    )
                    &&& r.rows@.len() == if first < last { last - first } else { 0 }
                    &&& forall|k: int|
                        0 <= k < r.rows@.len() ==> row_spec(
                            self.entry_list()[self.results()[first + k] as int],
                            first + k == self.selected_at(),
                            inner,
                            k,
                            #[trigger] r.rows@[k],
                        )
                    &&& r.path@ == tail_text(
                        if self.selected_at() < n {
                            self.entry_list()[self.results()[self.selected_at() as int] as int].path@
                        } else {
                            Seq::<char>::empty()
                        },
                        inner.width as int,
                    )
                    &&& r.help@ == short_path_text(finder_help(), inner.width as nat)
                },
            },
    {
        let w0: u16 = if width >= 4 { width - 4 } else { 0 };
        let w: u16 = if w0 < 100 { w0 } else { 100 };
        let h0: u16 = if height >= 4 { height - 4 } else { 0 };
        let h: u16 = if h0 < 25 { h0 } else { 25 };
        if w < 28 || h < 10 {
            return FinderView {
                popup: None,
                page_size: 0,
                query_line: String::new(),
                summary: String::new(),
                rows: Vec::new(),
                path: String::new(),
                help: String::new(),
            };
        }
        let popup = Rect::new((width - w) / 2, (height - h) / 2, w, h);
        let inner = inset(popup, 1);
        let room: usize = if inner.width >= 3 { (inner.width - 3) as usize } else { 0 };
        let limit: usize = if room < 1 { 1 } else { room };
        let mut start: usize = 0;
        while start < self.cursor && line_width(string_of(&copy_range(&self.query, start, self.cursor)).as_str())
            >= limit
            invariant
                self.wf(),
                start <= self.cursor,
                query_start(self.query@, self.cursor as int, limit as int, 0) == query_start(
                    self.query@,
                    self.cursor as int,
                    limit as int,
                    start as int,
                ),
            decreases self.cursor - start,
        {
            start += 1;
        }
        let input = if self.query.len() == 0 {
            "Project, task, provider or state\u{2026}".to_owned()
        } else {
            short_path(string_of(&copy_range(&self.query, start, self.query.len())).as_str(), room)
        };
        assert(self.query@.subrange(start as int, self.query@.len() as int) =~= self.query@.skip(start as int));
        let mut line = chars_of("/ ");
        extend_str(&mut line, short_path(input.as_str(), room).as_str());
        let query_line = string_of(&line);
        let rows_room: usize = if inner.height >= 5 { ((inner.height - 5) / 2) as usize } else { 0 };
        let ps: usize = if rows_room < 1 { 1 } else { rows_room };
        let q = self.selected / ps;
        assert(q * ps <= self.selected) by (nonlinear_arith)
            requires
                q == self.selected / ps,
                ps >= 1,
        ;
        let first = q * ps;
        let n = self.matches.len();
        let blank = chars_of(trimmed(string_of(&self.query).as_str()).as_str()).len() == 0;
        let mut summary: Vec<char> = Vec::new();
        if self.unavailable {
            extend_str(&mut summary, "That item left the tower. Choose another result.");
        } else if blank {
            push_decimal(&mut summary, n as u64);
            extend_str(&mut summary, " projects \u{b7} type to find conversations");
        } else {
            push_decimal(&mut summary, n as u64);
            if n == 1 {
                extend_str(&mut summary, " match");
            } else {
                extend_str(&mut summary, " matches");
            }
            extend_str(&mut summary, " \u{b7} ");
            let shown_first: u128 = if n == 0 { 0 } else { first as u128 + 1 };
            push_decimal_wide(&mut summary, shown_first);
            extend_str(&mut summary, "\u{2013}");
            let shown_last: usize = if first < n && n - first > ps { first + ps } else { n };
            push_decimal(&mut summary, shown_last as u64);
        }
        assert(summary@ =~= summary_text(self.unavailable, blank, n as nat, first as nat, ps as nat));
        let summary_line = short_path(string_of(&summary).as_str(), inner.width as usize);
        assert(inner.height >= 8 && inner.y + inner.height <= u16::MAX);
        assert(inner.width >= 26 && inner.x + inner.width <= u16::MAX);
        assert(ps == (inner.height - 5) / 2);
        let mut rows: Vec<FinderRow> = Vec::new();
        let mut row = first;
        while row < n && row - first < ps
            invariant
                self.wf(),
                n == self.matches@.len(),
                first <= row,
                row - first <= ps,
                row == first || row <= n,
                ps == finder_page_size(inner),
                inner == inset_spec(popup, 1),
                popup == rect_spec(((width - w) / 2) as u16, ((height - h) / 2) as u16, w, h),
                10 <= h <= 25,
                28 <= w <= 100,
                inner.height >= 8 && inner.y + inner.height <= u16::MAX,
                inner.width >= 26 && inner.x + inner.width <= u16::MAX,
                ps == (inner.height - 5) / 2,
                rows@.len() == row - first,
                forall|k: int|
                    0 <= k < rows@.len() ==> row_spec(
                        self.entries@[self.matches@[first + k] as int],
                        first + k == self.selected,
                        inner,
                        k,
                        #[trigger] rows@[k],
                    ),
            decreases n - row,
        {
            let entry = &self.entries[self.matches[row]];
            let selected = row == self.selected;
            let k = row - first;
            let y = inner.y + 2 + 2 * (k as u16);
            let bl = chars_of(entry.badge.as_str()).len();
            let half = (inner.width / 2) as usize;
            let bw: usize = if bl <= half && half - bl >= 2 { bl + 2 } else { half };
            let title_room: usize = if (inner.width as usize) >= bw + 2 { inner.width as usize - (bw + 2) } else { 0 };
            let mut text: Vec<char> = Vec::new();
            text.push(if selected { '>' } else { ' ' });
            text.push(' ');
            extend_str(&mut text, short_path(entry.title.as_str(), title_room).as_str());
            let mut context = chars_of("  ");
            extend_str(&mut context, entry.context.as_str());
            let ghost before = rows@;
            rows.push(FinderRow {
                area: Rect::new(inner.x, y, inner.width, 2),
                target: entry.target.clone(),
                selected,
                line: string_of(&text),
                badge: entry.badge.clone(),
                badge_area: Rect::new(inner.x + inner.width - bw as u16, y, bw as u16, 1),
                status: entry.status,
                context: short_path(string_of(&context).as_str(), inner.width as usize),
            });
            assert(rows@[k as int].line@ =~= (if selected { seq!['>'] } else { seq![' '] }) + seq![' ']
                + short_path_text(entry.title@, sat_sub(inner.width as int, badge_width(entry.badge@, inner) + 2) as nat));
            assert(forall|j: int| 0 <= j < before.len() ==> rows@[j] == before[j]);
            row += 1;
        }
        let path = if self.selected < n {
            tail(self.entries[self.matches[self.selected]].path.as_str(), inner.width as usize)
        } else {
            proof {
                reveal_strlit("");
            }
            assert(""@ =~= Seq::<char>::empty());
            tail("", inner.width as usize)
        };
        let help = short_path(
            "\u{2191}\u{2193} choose \u{b7} PgUp/Dn page \u{b7} Enter open \u{b7} Esc back \u{b7} Ctrl+U clear",
            inner.width as usize,
        );
        FinderView {
            popup: Some(popup),
            page_size: ps,
            query_line,
            summary: summary_line,
            rows,
            path,
            help,
        }
    }
}
} // verus!
