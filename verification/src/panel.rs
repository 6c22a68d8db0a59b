//! The command panel: the explicit commands a user can give a task or a new
//! one, and the answers to pending requests. The panel only decides; the
//! host executes every command it hands back.
use vstd::prelude::*;
use crate::control::{
    agent_index, Action, ActionView, Agent, Command, CommandView, ControlStatus, KeyPress, PanelKey,
    Request, TaskAccess,
};
use crate::input::{edited, EditKey, Input};
use crate::keyed::{find_key, Keyed};
use crate::layout::Rect;
use crate::sign::{trim_space, trimmed};
use crate::finder::{begins_with, starts_with};
use crate::input::paste_text;
use crate::markers::{lemma_text_lt_irreflexive, lemma_text_lt_total, lemma_text_lt_transitive, text_less, text_lt};
use crate::text::{line_width, safe_display, chars_of, decimal, extend_str, push_decimal, string_of};

verus! {

/// A clickable area of the panel and what a click does.
#[derive(Clone, Debug, PartialEq, Eq)]
pub struct HitRegion {
    pub area: Rect,
    pub action: Action,
}

// ---------------------------------------------------------------------------
// Requests, tasks and keys as values
// ---------------------------------------------------------------------------

/// Whether a request belongs to the panel's target (every request does when
/// there is none).
pub open spec fn shown_for(r: Request, target: Option<String>) -> bool {
    match target {
        None => true,
        Some(t) => r.worker@ == t@,
    }
}

/// The requests the panel lists for a target, in the host's order.
pub open spec fn visible(rs: Seq<Request>, target: Option<String>) -> Seq<Request>
    decreases rs.len(),
{
    if rs.len() == 0 {
        seq![]
    } else if shown_for(rs.last(), target) {
        visible(rs.drop_last(), target).push(rs.last())
    } else {
        visible(rs.drop_last(), target)
    }
}

proof fn lemma_visible_step(rs: Seq<Request>, target: Option<String>, i: int)
    requires
        0 <= i < rs.len(),
    ensures
        visible(rs.take(i + 1), target) == if shown_for(rs[i], target) {
            visible(rs.take(i), target).push(rs[i])
        } else {
            visible(rs.take(i), target)
        },
{
    assert(rs.take(i + 1).drop_last() =~= rs.take(i));
}

proof fn lemma_visible_prefix(rs: Seq<Request>, target: Option<String>, i: int)
    requires
        0 <= i <= rs.len(),
    ensures
        visible(rs.take(i), target).len() <= visible(rs, target).len(),
        forall|k: int|
            0 <= k < visible(rs.take(i), target).len() ==> visible(rs, target)[k] == visible(
                rs.take(i),
                target,
            )[k],
    decreases rs.len() - i,
{
    if i == rs.len() {
        assert(rs.take(i) =~= rs);
    } else {
        lemma_visible_step(rs, target, i);
        lemma_visible_prefix(rs, target, i + 1);
    }
}

fn shows(r: &Request, target: &Option<String>) -> (b: bool)
    ensures
        b == shown_for(*r, *target),
{
    match target {
        None => true,
        Some(t) => r.worker == *t,
    }
}

/// The position in `requests` of the `n`-th listed request.
fn nth_visible(requests: &Vec<Request>, target: &Option<String>, n: usize) -> (r: Option<usize>)
    ensures
        match r {
            Some(i) => i < requests@.len() && n < visible(requests@, *target).len() && visible(
                requests@,
                *target,
            )[n as int] == requests@[i as int],
            None => n >= visible(requests@, *target).len(),
        },
{
    let ghost rs = requests@;
    let mut count: usize = 0;
    let mut i: usize = 0;
    assert(rs.take(0) =~= Seq::<Request>::empty());
    while i < requests.len()
        invariant
            rs == requests@,
            i <= rs.len(),
            count == visible(rs.take(i as int), *target).len(),
            count <= n,
        decreases requests.len() - i,
    {
        proof {
            lemma_visible_step(rs, *target, i as int);
        }
        if shows(&requests[i], target) {
            if count == n {
                proof {
                    lemma_visible_prefix(rs, *target, i + 1);
                }
                return Some(i);
            }
            count += 1;
        }
        i += 1;
    }
    assert(rs.take(i as int) =~= rs);
    None
}

/// How many requests are listed.
fn visible_count(requests: &Vec<Request>, target: &Option<String>) -> (r: usize)
    ensures
        r == visible(requests@, *target).len(),
{
    let ghost rs = requests@;
    let mut count: usize = 0;
    let mut i: usize = 0;
    assert(rs.take(0) =~= Seq::<Request>::empty());
    while i < requests.len()
        invariant
            rs == requests@,
            i <= rs.len(),
            count == visible(rs.take(i as int), *target).len(),
            count <= i,
        decreases requests.len() - i,
    {
        proof {
            lemma_visible_step(rs, *target, i as int);
        }
        if shows(&requests[i], target) {
            count += 1;
        }
        i += 1;
    }
    assert(rs.take(i as int) =~= rs);
    count
}

/// The first listed position of the request with id `id`.
pub open spec fn first_listed(v: Seq<Request>, id: Seq<char>) -> int {
    find_key(v.map_values(|r: Request| r.id@), id, 0)
}

fn visible_position(requests: &Vec<Request>, target: &Option<String>, id: &String) -> (r: Option<usize>)
    ensures
        match r {
            Some(k) => k < visible(requests@, *target).len() && k == first_listed(
                visible(requests@, *target),
                id@,
            ),
            None => first_listed(visible(requests@, *target), id@) == visible(
                requests@,
                *target,
            ).len(),
        },
{
    let ghost v = visible(requests@, *target);
    let ghost ids = v.map_values(|r: Request| r.id@);
    let total = visible_count(requests, target);
    let mut k: usize = 0;
    while k < total
        invariant
            total == v.len(),
            v == visible(requests@, *target),
            ids == v.map_values(|r: Request| r.id@),
            k <= total,
            find_key(ids, id@, 0) == find_key(ids, id@, k as int),
        decreases total - k,
    {
        let i = nth_visible(requests, target, k);
        match i {
            Some(i) => {
                if requests[i].id == *id {
                    return Some(k);
                }
            },
            None => {},
        }
        k += 1;
    }
    None
}

/// What the host allows for task `id`.
pub open spec fn access_of(tasks: Seq<(String, TaskAccess)>, id: Seq<char>) -> Option<TaskAccess> {
    let i = find_key(tasks.map_values(|t: (String, TaskAccess)| t.0@), id, 0);
    if i < tasks.len() {
        Some(tasks[i].1)
    } else {
        None
    }
}

fn access_position(tasks: &Vec<(String, TaskAccess)>, id: &String) -> (r: Option<usize>)
    ensures
        match r {
            Some(i) => i < tasks@.len() && access_of(tasks@, id@) == Some(tasks@[i as int].1),
            None => access_of(tasks@, id@) is None,
        },
{
    let ghost keys = tasks@.map_values(|t: (String, TaskAccess)| t.0@);
    let mut i: usize = 0;
    while i < tasks.len()
        invariant
            keys == tasks@.map_values(|t: (String, TaskAccess)| t.0@),
            i <= tasks@.len(),
            find_key(keys, id@, 0) == find_key(keys, id@, i as int),
        decreases tasks.len() - i,
    {
        if tasks[i].0 == *id {
            return Some(i);
        }
        i += 1;
    }
    None
}

/// The editing meaning of a key for a text field.
pub open spec fn edit_of(key: KeyPress) -> EditKey {
    match key.code {
        PanelKey::Char(c) => EditKey::Char(c, key.control || key.alt),
        PanelKey::Enter => EditKey::Enter,
        PanelKey::Left => EditKey::Left,
        PanelKey::Right => EditKey::Right,
        PanelKey::Home => EditKey::Home,
        PanelKey::End => EditKey::End,
        PanelKey::Backspace => EditKey::Backspace,
        PanelKey::Delete => EditKey::Delete,
        _ => EditKey::Other,
    }
}

fn edit_key(key: KeyPress) -> (r: EditKey)
    ensures
        r == edit_of(key),
{
    match key.code {
        PanelKey::Char(c) => EditKey::Char(c, key.control || key.alt),
        PanelKey::Enter => EditKey::Enter,
        PanelKey::Left => EditKey::Left,
        PanelKey::Right => EditKey::Right,
        PanelKey::Home => EditKey::Home,
        PanelKey::End => EditKey::End,
        PanelKey::Backspace => EditKey::Backspace,
        PanelKey::Delete => EditKey::Delete,
        _ => EditKey::Other,
    }
}

/// The key under which the answer to one question of one request is kept.
/// The keys that edit a field.
pub open spec fn editing_key(key: KeyPress) -> bool {
    ||| key.code is Char
    ||| key.code == PanelKey::Backspace
    ||| key.code == PanelKey::Delete
    ||| key.code == PanelKey::Left
    ||| key.code == PanelKey::Right
    ||| key.code == PanelKey::Home
    ||| key.code == PanelKey::End
}

pub open spec fn answer_key_text(request: Seq<char>, question: Seq<char>) -> Seq<char> {
    request + seq![':'] + question
}

fn answer_key(request: &String, question: &String) -> (r: String)
    ensures
        r@ == answer_key_text(request@, question@),
{
    let mut out = chars_of(request.as_str());
    out.push(':');
    crate::text::extend_str(&mut out, question.as_str());
    string_of(&out)
}

/// The key a draft instruction is kept under: the task's id, or for a new
/// task its provider and trimmed project.
pub open spec fn draft_key_text(target: Option<String>, provider: Agent, project: Seq<char>) -> Seq<char> {
    match target {
        Some(id) => id@,
        None => "new:"@ + decimal(agent_index(provider)) + seq![':'] + decimal(trim_space(project).len())
            + seq![':'] + trim_space(project),
    }
}

/// Whether a text is empty once trimmed.
pub open spec fn blank(s: Seq<char>) -> bool {
    trim_space(s).len() == 0
}

fn is_blank(text: &str) -> (r: bool)
    ensures
        r == blank(text@),
{
    let t = trimmed(text);
    chars_of(t.as_str()).len() == 0
}


// ---------------------------------------------------------------------------
// Answers as JSON
// ---------------------------------------------------------------------------

/// A lowercase hexadecimal digit.
pub open spec fn hex_digit(d: int) -> char {
    "0123456789abcdef"@[d]
}

/// How serde_json writes one character inside a string: the quote and the
/// backslash escaped, the control characters below 0x20 as their short
/// escape or as `\u00XX`, every other character as it is.
pub open spec fn json_escape(c: char) -> Seq<char> {
    let code = c as u32;
    if c == '"' {
        "\\\""@
    } else if c == '\\' {
        "\\\\"@
    } else if code == 8 {
        "\\b"@
    } else if c == '\t' {
        "\\t"@
    } else if c == '\n' {
        "\\n"@
    } else if code == 12 {
        "\\f"@
    } else if c == '\r' {
        "\\r"@
    } else if code < 0x20 {
        "\\u00"@ + seq![hex_digit((code / 16) as int), hex_digit((code % 16) as int)]
    } else {
        seq![c]
    }
}

pub open spec fn json_chars(s: Seq<char>) -> Seq<char>
    decreases s.len(),
{
    if s.len() == 0 {
        Seq::<char>::empty()
    } else {
        json_chars(s.drop_last()) + json_escape(s.last())
    }
}

/// The JSON string literal serde_json writes for a text: the escaped
/// characters between double quotes.
pub open spec fn json_quoted(text: Seq<char>) -> Seq<char> {
    seq!['"'] + json_chars(text) + seq!['"']
}

/// `serde_json::to_string` on a text: the text as a JSON string literal,
/// with the escapes of serde_json's `format_escaped_str` (its `ESCAPE`
/// table and lowercase `\u00XX` for other control characters). Writing a
/// string into memory does not fail in serde_json's code, so the empty text
/// in place of an error is not returned.
#[verifier::external_body]
fn json_string(text: &str) -> (r: String)
    ensures
        r@ == json_quoted(text@),
{
    serde_json::to_string(text).unwrap_or_default()
}

/// The JSON member for one answered question: `"id":{"answers":["answer"]}`.
pub open spec fn answer_member(question: Seq<char>, answer: Seq<char>) -> Seq<char> {
    json_quoted(question) + ":{\"answers\":["@ + json_quoted(answer) + "]}"@
}

/// The whole reply for answered questions: `{"answers":{...members...}}`.
pub open spec fn answers_object(members: Seq<char>) -> Seq<char> {
    "{\"answers\":{"@ + members + "}}"@
}

/// Characters of a text with line breaks and tabs turned into spaces.
pub open spec fn one_line(s: Seq<char>) -> Seq<char> {
    s.map_values(|c: char| if c == '\n' || c == '\r' || c == '\t' { ' ' } else { c })
}

fn flatten_line(text: &str) -> (r: String)
    ensures
        r@ == one_line(text@),
{
    let chars = chars_of(text);
    let mut out: Vec<char> = Vec::new();
    let mut i: usize = 0;
    while i < chars.len()
        invariant
            i <= chars@.len(),
            out@ == one_line(chars@.take(i as int)),
        decreases chars.len() - i,
    {
        let c = chars[i];
        out.push(if c == '\n' || c == '\r' || c == '\t' { ' ' } else { c });
        i += 1;
        assert(out@ =~= one_line(chars@.take(i as int)));
    }
    assert(chars@.take(i as int) =~= chars@);
    string_of(&out)
}

/// The notice shown when the selected request is no longer pending.
pub open spec fn expired_notice() -> Seq<char> {
    "The selected request expired. Use ↑/↓ to inspect another request before answering."@
}

pub open spec fn back_button() -> (Seq<char>, ActionView) {
    ("Back"@, ActionView::Close)
}

/// The connection buttons; each login button carries the provider's name
/// as the host reports it.
pub open spec fn connection_buttons(status: ControlStatus) -> Seq<(Seq<char>, ActionView)> {
    seq![
        ("Local sources"@, ActionView::Control(CommandView::Sources)),
        (status.codex_name@ + " login"@, ActionView::Control(CommandView::Login { provider: Agent::Codex })),
        (status.claude_name@ + " login"@, ActionView::Control(CommandView::Login { provider: Agent::Claude })),
        back_button(),
    ]
}

fn login_label(name: &String) -> (r: String)
    ensures
        r@ == name@ + " login"@,
{
    let mut out = chars_of(name.as_str());
    extend_str(&mut out, " login");
    string_of(&out)
}

pub open spec fn command_views(r: Option<Command>) -> Option<CommandView> {
    match r {
        Some(c) => Some(c@),
        None => None,
    }
}

pub open spec fn button_views(b: Seq<(String, Action)>) -> Seq<(Seq<char>, ActionView)> {
    b.map_values(|x: (String, Action)| (x.0@, x.1@))
}

/// The buttons for the choices of a request: `"1 Allow once"` and so on.
pub open spec fn choice_buttons(r: Request) -> Seq<(Seq<char>, ActionView)> {
    Seq::new(
        r.choices@.len(),
        |i: int|
            (
                decimal((i + 1) as nat) + seq![' '] + r.choices@[i].label@,
                ActionView::Control(
                    CommandView::Reply { request: r.id@, response: r.choices@[i].response@ },
                ),
            ),
    )
}

/// Whether a key is one of the prefixes of answer keys of these requests.
pub open spec fn answer_of_request(k: Seq<char>, rs: Seq<Request>) -> bool {
    exists|i: int| 0 <= i < rs.len() && starts_with(k, rs[i].id@ + seq![':'])
}

// ---------------------------------------------------------------------------
// Known projects
// ---------------------------------------------------------------------------

/// The order of the project picker: by name, then by path.
pub open spec fn pair_lt(a: (Seq<char>, Seq<char>), b: (Seq<char>, Seq<char>)) -> bool {
    text_lt(a.0, b.0) || (a.0 == b.0 && text_lt(a.1, b.1))
}

proof fn lemma_pair_order(a: (Seq<char>, Seq<char>), b: (Seq<char>, Seq<char>), c: (Seq<char>, Seq<char>))
    ensures
        !pair_lt(a, a),
        pair_lt(a, b) && pair_lt(b, c) ==> pair_lt(a, c),
        a == b || pair_lt(a, b) || pair_lt(b, a),
        pair_lt(a, b) ==> !pair_lt(b, a),
{
    lemma_text_lt_irreflexive(a.0);
    lemma_text_lt_irreflexive(a.1);
    lemma_text_lt_total(a.0, b.0);
    lemma_text_lt_total(a.1, b.1);
    if text_lt(a.0, b.0) && text_lt(b.0, a.0) {
        lemma_text_lt_transitive(a.0, b.0, a.0);
    }
    if text_lt(a.1, b.1) && text_lt(b.1, a.1) {
        lemma_text_lt_transitive(a.1, b.1, a.1);
    }
    if pair_lt(a, b) && pair_lt(b, c) {
        if text_lt(a.0, b.0) && text_lt(b.0, c.0) {
            lemma_text_lt_transitive(a.0, b.0, c.0);
        }
        if text_lt(a.1, b.1) && text_lt(b.1, c.1) {
            lemma_text_lt_transitive(a.1, b.1, c.1);
        }
    }
}

/// The picker's list for the projects the host reported: one entry per
/// path, under the least name reported for it, ordered by name and path.
pub open spec fn picker_list(given: Seq<(Seq<char>, Seq<char>)>, r: Seq<(Seq<char>, Seq<char>)>) -> bool {
    &&& forall|i: int, j: int| 0 <= i < j < r.len() ==> pair_lt(r[i], r[j])
    &&& forall|i: int, j: int| 0 <= i < j < r.len() ==> r[i].1 != r[j].1
    &&& forall|i: int| 0 <= i < r.len() ==> given.contains(#[trigger] r[i])
    &&& forall|g: int| 0 <= g < given.len() ==> #[trigger] listed_under_least_name(given, r, g)
}

/// `r` lists the path of `given[g]` under a name not after `given[g]`'s.
pub open spec fn listed_under_least_name(
    given: Seq<(Seq<char>, Seq<char>)>,
    r: Seq<(Seq<char>, Seq<char>)>,
    g: int,
) -> bool {
    exists|i: int| 0 <= i < r.len() && r[i].1 == given[g].1 && !text_lt(given[g].0, r[i].0)
}

fn pair_less(a: &(String, String), b: &(String, String)) -> (r: bool)
    ensures
        r == pair_lt((a.0@, a.1@), (b.0@, b.1@)),
{
    text_less(&a.0, &b.0) || (a.0 == b.0 && text_less(&a.1, &b.1))
}

/// Some kept entry has the path of `given[g]` under a name not after its own.
pub open spec fn covered(given: Seq<(String, String)>, kept: Seq<(String, String)>, g: int) -> bool {
    exists|i: int| 0 <= i < kept.len() && kept[i].1@ == given[g].1@ && !text_lt(given[g].0@, kept[i].0@)
}

/// One entry per path, with the least name reported for it.
fn least_names(given: &Vec<(String, String)>) -> (kept: Vec<(String, String)>)
    ensures
        forall|i: int, j: int| 0 <= i < j < kept@.len() ==> kept@[i].1@ != kept@[j].1@,
        forall|i: int| 0 <= i < kept@.len() ==> text_pairs(given@).contains(#[trigger] text_pairs(kept@)[i]),
        forall|g: int|
            0 <= g < given@.len() ==> #[trigger] covered(given@, kept@, g),
{
    let ghost gv = text_pairs(given@);
    let mut kept: Vec<(String, String)> = Vec::new();
    let mut t: usize = 0;
    while t < given.len()
        invariant
            gv == text_pairs(given@),
            t <= given@.len(),
            forall|i: int, j: int| 0 <= i < j < kept@.len() ==> kept@[i].1@ != kept@[j].1@,
            forall|i: int| 0 <= i < kept@.len() ==> gv.contains(#[trigger] text_pairs(kept@)[i]),
            forall|g: int|
                0 <= g < t ==> #[trigger] covered(given@, kept@, g),
        decreases given.len() - t,
    {
        let ghost before = kept@;
        let mut j: usize = 0;
        while j < kept.len() && kept[j].1 != given[t].1
            invariant
                t < given@.len(),
                j <= kept@.len(),
                forall|q: int| 0 <= q < j ==> kept@[q].1@ != given@[t as int].1@,
            decreases kept.len() - j,
        {
            j += 1;
        }
        assert(gv[t as int] == (given@[t as int].0@, given@[t as int].1@));
        if j < kept.len() {
            if text_less(&given[t].0, &kept[j].0) {
                let entry = (given[t].0.clone(), given[t].1.clone());
                kept.set(j, entry);
                proof {
                    assert forall|g: int| 0 <= g < t + 1 implies #[trigger] covered(given@, kept@, g) by {
                        if g < t {
                            assert(covered(given@, before, g));
                            let i = choose|i: int|
                                0 <= i < before.len() && before[i].1@ == given@[g].1@ && !text_lt(
                                    given@[g].0@,
                                    before[i].0@,
                                );
                            if i == j {
                                if text_lt(given@[g].0@, kept@[i].0@) {
                                    lemma_text_lt_transitive(given@[g].0@, kept@[i].0@, before[i].0@);
                                }
                            } else {
                                assert(kept@[i] == before[i]);
                            }
                        } else {
                            lemma_text_lt_irreflexive(given@[g].0@);
                            assert(kept@[j as int].1@ == given@[g].1@);
                        }
                    }
                    assert forall|i: int| 0 <= i < kept@.len() implies gv.contains(#[trigger] text_pairs(kept@)[i]) by {
                        if i == j {
                            assert(gv[t as int] == text_pairs(kept@)[i]);
                        } else {
                            assert(text_pairs(kept@)[i] == text_pairs(before)[i]);
                        }
                    }
                }
            } else {
                proof {
                    assert forall|g: int| 0 <= g < t + 1 implies #[trigger] covered(given@, kept@, g) by {
                        if g == t {
                            assert(kept@[j as int].1@ == given@[g].1@);
                        }
                    }
                }
            }
        } else {
            let entry = (given[t].0.clone(), given[t].1.clone());
            kept.push(entry);
            proof {
                assert forall|g: int| 0 <= g < t + 1 implies #[trigger] covered(given@, kept@, g) by {
                    if g < t {
                        assert(covered(given@, before, g));
                        let i = choose|i: int|
                            0 <= i < before.len() && before[i].1@ == given@[g].1@ && !text_lt(
                                given@[g].0@,
                                before[i].0@,
                            );
                        assert(kept@[i] == before[i]);
                    } else {
                        lemma_text_lt_irreflexive(given@[g].0@);
                        assert(kept@[before.len() as int].1@ == given@[g].1@);
                    }
                }
                assert forall|i: int| 0 <= i < kept@.len() implies gv.contains(#[trigger] text_pairs(kept@)[i]) by {
                    if i == before.len() {
                        assert(gv[t as int] == text_pairs(kept@)[i]);
                    } else {
                        assert(text_pairs(kept@)[i] == text_pairs(before)[i]);
                    }
                }
            }
        }
        t += 1;
    }
    assert(t == given@.len());
    assert(forall|g: int|
        0 <= g < t ==> #[trigger] covered(given@, kept@, g));
    assert(forall|i: int| 0 <= i < kept@.len() ==> gv.contains(#[trigger] text_pairs(kept@)[i]));
    assert forall|g: int| 0 <= g < given@.len() implies #[trigger] covered(given@, kept@, g) by {
        assert(g < t);
        assert(covered(given@, kept@, g));
    }
    kept
}

/// The entries in the picker's order.
fn sorted_projects(kept: &Vec<(String, String)>) -> (r: Vec<(String, String)>)
    requires
        forall|i: int, j: int| 0 <= i < j < kept@.len() ==> kept@[i].1@ != kept@[j].1@,
    ensures
        forall|i: int, j: int| 0 <= i < j < r@.len() ==> pair_lt(text_pairs(r@)[i], text_pairs(r@)[j]),
        forall|x: (Seq<char>, Seq<char>)| text_pairs(r@).contains(x) <==> text_pairs(kept@).contains(x),
{
    let ghost kv = text_pairs(kept@);
    let mut sorted: Vec<(String, String)> = Vec::new();
    let mut u: usize = 0;
    while u < kept.len()
        invariant
            kv == text_pairs(kept@),
            forall|i: int, j: int| 0 <= i < j < kept@.len() ==> kept@[i].1@ != kept@[j].1@,
            u <= kept@.len(),
            forall|i: int, j: int|
                0 <= i < j < sorted@.len() ==> pair_lt(text_pairs(sorted@)[i], text_pairs(sorted@)[j]),
            forall|x: (Seq<char>, Seq<char>)| text_pairs(sorted@).contains(x) <==> kv.take(u as int).contains(x),
        decreases kept.len() - u,
    {
        let e = (kept[u].0.clone(), kept[u].1.clone());
        let ghost ev = (e.0@, e.1@);
        let ghost sv = text_pairs(sorted@);
        assert(ev == kv[u as int]);
        assert(!sv.contains(ev)) by {
            if sv.contains(ev) {
                assert(kv.take(u as int).contains(ev));
                let before = kv.take(u as int);
                let a = choose|a: int| 0 <= a < before.len() && before[a] == ev;
                assert(kept@[a].1@ == kept@[u as int].1@);
            }
        }
        let mut p: usize = 0;
        while p < sorted.len() && !pair_less(&e, &sorted[p])
            invariant
                sv == text_pairs(sorted@),
                ev == (e.0@, e.1@),
                !sv.contains(ev),
                p <= sorted@.len(),
                forall|q: int| 0 <= q < p ==> pair_lt(sv[q], ev),
            decreases sorted.len() - p,
        {
            proof {
                lemma_pair_order(ev, sv[p as int], ev);
                assert(sv[p as int] != ev);
            }
            p += 1;
        }
        proof {
            assert forall|q: int| p <= q < sv.len() implies pair_lt(ev, sv[q]) by {
                if q > p {
                    lemma_pair_order(ev, sv[p as int], sv[q]);
                }
            }
        }
        sorted.insert(p, e);
        let ghost nv = text_pairs(sorted@);
        assert(nv =~= sv.insert(p as int, ev));
        assert forall|i: int, j: int| 0 <= i < j < sorted@.len() implies pair_lt(
            text_pairs(sorted@)[i],
            text_pairs(sorted@)[j],
        ) by {
            if i < p && j > p {
                lemma_pair_order(sv[i], ev, sv[j - 1]);
            }
        }
        assert(kv.take(u + 1) =~= kv.take(u as int).push(ev));
        let ghost upto = kv.take(u + 1);
        assert forall|x: (Seq<char>, Seq<char>)|
            text_pairs(sorted@).contains(x) <==> upto.contains(x) by {
            if nv.contains(x) {
                let a = choose|a: int| 0 <= a < nv.len() && nv[a] == x;
                if a < p {
                    assert(sv[a] == x);
                } else if a > p {
                    assert(sv[a - 1] == x);
                }
                if x != ev {
                    assert(sv.contains(x));
                    assert(kv.take(u as int).contains(x));
                    let before = kv.take(u as int);
                    let b = choose|b: int| 0 <= b < before.len() && before[b] == x;
                    assert(upto[b] == x);
                } else {
                    assert(upto[u as int] == x);
                }
            }
            if upto.contains(x) {
                let b = choose|b: int| 0 <= b < upto.len() && upto[b] == x;
                if b < u {
                    assert(kv.take(u as int)[b] == x);
                    assert(sv.contains(x));
                    let a = choose|a: int| 0 <= a < sv.len() && sv[a] == x;
                    if a < p {
                        assert(nv[a] == x);
                    } else {
                        assert(nv[a + 1] == x);
                    }
                } else {
                    assert(nv[p as int] == x);
                }
            }
        }
        u += 1;
    }
    assert(kv.take(u as int) =~= kv);
    sorted
}

// ---------------------------------------------------------------------------
// The panel
// ---------------------------------------------------------------------------

pub struct ControlPanel {
    pub open: bool,
    pub status: ControlStatus,
    pub target: Option<String>,
    pub target_label: String,
    pub provider: Agent,
    project: Input,
    message: Input,
    drafts: Keyed<String>,
    pending_draft: Option<(String, String)>,
    field: usize,
    request_index: usize,
    expired_selection: bool,
    question_index: usize,
    answers: Keyed<Input>,
    requests_open: bool,
    connections_open: bool,
    sending: bool,
    usable_geometry: bool,
    scroll: u16,
    hits: Vec<HitRegion>,
    buttons: Vec<(String, Action)>,
    button_focus: Option<usize>,
    projects: Vec<(String, String)>,
    projects_open: bool,
    project_index: usize,
    presented: bool,
}

/// A button's key action is a function key, never one that activates buttons.
pub open spec fn quiet_action(a: Action) -> bool {
    match a {
        Action::Key(k) => k is F,
        _ => true,
    }
}

pub open spec fn text_pairs(s: Seq<(String, String)>) -> Seq<(Seq<char>, Seq<char>)> {
    s.map_values(|p: (String, String)| (p.0@, p.1@))
}

impl ControlPanel {
    pub closed spec fn wf(&self) -> bool {
        &&& self.project.wf()
        &&& self.message.wf()
        &&& self.drafts.wf()
        &&& self.answers.wf()
        &&& forall|k: Seq<char>|
            #[trigger] self.answers.lookup(k) is Some ==> self.answers.lookup(k).unwrap().wf()
        &&& self.field < 3
        &&& forall|i: int| 0 <= i < self.buttons@.len() ==> quiet_action(#[trigger] self.buttons@[i].1)
    }

    pub closed spec fn is_open(&self) -> bool {
        self.open
    }

    pub closed spec fn target_of(&self) -> Option<String> {
        self.target
    }

    pub closed spec fn label_of(&self) -> String {
        self.target_label
    }

    pub closed spec fn provider_of(&self) -> Agent {
        self.provider
    }

    pub closed spec fn status_of(&self) -> ControlStatus {
        self.status
    }

    pub closed spec fn message_text(&self) -> Seq<char> {
        self.message.content()
    }

    pub closed spec fn message_cursor(&self) -> nat {
        self.message.cursor_at()
    }

    pub closed spec fn project_text(&self) -> Seq<char> {
        self.project.content()
    }

    /// The draft instruction kept under `k`.
    pub closed spec fn draft(&self, k: Seq<char>) -> Option<Seq<char>> {
        match self.drafts.lookup(k) {
            Some(t) => Some(t@),
            None => None,
        }
    }

    /// The answer being written under `k` (see `answer_key_text`).
    pub closed spec fn answer(&self, k: Seq<char>) -> Option<Seq<char>> {
        match self.answers.lookup(k) {
            Some(i) => Some(i.content()),
            None => None,
        }
    }

    /// The instruction sent and awaiting confirmation, with its draft key.
    pub closed spec fn pending(&self) -> Option<(Seq<char>, Seq<char>)> {
        match self.pending_draft {
            Some(p) => Some((p.0@, p.1@)),
            None => None,
        }
    }

    /// The focused form field: provider, project or instruction.
    pub closed spec fn field_at(&self) -> nat {
        self.field as nat
    }

    pub closed spec fn request_at(&self) -> nat {
        self.request_index as nat
    }

    pub closed spec fn question_at(&self) -> nat {
        self.question_index as nat
    }

    pub closed spec fn selection_expired(&self) -> bool {
        self.expired_selection
    }

    pub closed spec fn requests_shown(&self) -> bool {
        self.requests_open
    }

    pub closed spec fn connections_shown(&self) -> bool {
        self.connections_open
    }

    pub closed spec fn projects_shown(&self) -> bool {
        self.projects_open
    }

    pub closed spec fn is_sending(&self) -> bool {
        self.sending
    }

    pub closed spec fn geometry_usable(&self) -> bool {
        self.usable_geometry
    }

    pub closed spec fn was_presented(&self) -> bool {
        self.presented
    }

    pub closed spec fn scroll_at(&self) -> nat {
        self.scroll as nat
    }

    pub closed spec fn hit_list(&self) -> Seq<HitRegion> {
        self.hits@
    }

    pub closed spec fn button_list(&self) -> Seq<(Seq<char>, ActionView)> {
        self.buttons@.map_values(|b: (String, Action)| (b.0@, b.1@))
    }

    pub closed spec fn focus(&self) -> Option<nat> {
        match self.button_focus {
            Some(i) => Some(i as nat),
            None => None,
        }
    }

    pub closed spec fn project_list(&self) -> Seq<(Seq<char>, Seq<char>)> {
        text_pairs(self.projects@)
    }

    pub closed spec fn project_at(&self) -> nat {
        self.project_index as nat
    }

    /// The requests listed for the current target.
    pub open spec fn listed(&self) -> Seq<Request> {
        visible(self.status_of().requests@, self.target_of())
    }

    /// The selected request, when the selection points at one.
    pub open spec fn selected(&self) -> Option<Request> {
        if self.request_at() < self.listed().len() {
            Some(self.listed()[self.request_at() as int])
        } else {
            None
        }
    }

    /// What the host allows for the target task.
    pub open spec fn target_access(&self) -> Option<TaskAccess> {
        match self.target_of() {
            Some(id) => access_of(self.status_of().tasks@, id@),
            None => None,
        }
    }

    /// The key the current instruction is kept under.
    pub open spec fn current_key(&self) -> Seq<char> {
        draft_key_text(self.target_of(), self.provider_of(), self.project_text())
    }

    /// The drafts after keeping the current instruction: an empty one
    /// removes the draft.
    pub open spec fn remembered(&self, k: Seq<char>) -> Option<Seq<char>> {
        if k == self.current_key() {
            if self.message_text().len() == 0 {
                None
            } else {
                Some(self.message_text())
            }
        } else {
            self.draft(k)
        }
    }

    pub fn new() -> (r: Self)
        ensures
            r.wf(),
            !r.is_open(),
            r.target_of() is None,
            r.label_of()@ == Seq::<char>::empty(),
            r.provider_of() == Agent::Codex,
            r.message_text() == Seq::<char>::empty(),
            r.project_text() == Seq::<char>::empty(),
            forall|k: Seq<char>| #[trigger] r.draft(k) is None,
            forall|k: Seq<char>| #[trigger] r.answer(k) is None,
            r.pending() is None,
            r.field_at() == 2,
            r.request_at() == 0,
            r.question_at() == 0,
            !r.selection_expired(),
            !r.requests_shown(),
            !r.connections_shown(),
            !r.projects_shown(),
            !r.is_sending(),
            !r.geometry_usable(),
            !r.was_presented(),
            r.scroll_at() == 0,
            r.hit_list().len() == 0,
            r.button_list().len() == 0,
            r.focus() is None,
            r.project_list().len() == 0,
            r.project_at() == 0,
            r.status_of().requests@.len() == 0,
            r.status_of().tasks@.len() == 0,
            !r.status_of().can_start_codex,
            !r.status_of().can_start_claude,
            r.status_of().notice@ == Seq::<char>::empty(),
    {
        let r = ControlPanel {
            open: false,
            status: ControlStatus {
                can_start_codex: false,
                can_start_claude: false,
                tasks: Vec::new(),
                requests: Vec::new(),
                codex: String::new(),
                claude: String::new(),
                notice: String::new(),
                codex_name: String::new(),
                claude_name: String::new(),
            },
            target: None,
            target_label: String::new(),
            provider: Agent::Codex,
            project: Input::new(),
            message: Input::new(),
            drafts: Keyed::new(),
            pending_draft: None,
            field: 2,
            request_index: 0,
            expired_selection: false,
            question_index: 0,
            answers: Keyed::new(),
            requests_open: false,
            connections_open: false,
            sending: false,
            usable_geometry: false,
            scroll: 0,
            hits: Vec::new(),
            buttons: Vec::new(),
            button_focus: None,
            projects: Vec::new(),
            projects_open: false,
            project_index: 0,
            presented: false,
        };
        assert(r.button_list() =~= Seq::<(Seq<char>, ActionView)>::empty());
        assert(r.project_list() =~= Seq::<(Seq<char>, Seq<char>)>::empty());
        r
    }

    pub closed spec fn usable_as(&self, usable: bool) -> Self {
        ControlPanel { usable_geometry: usable, ..*self }
    }

    /// Record whether the panel's area has room for its controls, as a
    /// drawing does; keys are ignored while it has not.
    pub fn set_usable_geometry(&mut self, usable: bool)
        ensures
            final(self).geometry_usable() == usable,
            *final(self) == old(self).usable_as(usable),
            old(self).wf() ==> final(self).wf(),
    {
        self.usable_geometry = usable;
    }

    pub fn busy(&self) -> (r: bool)
        ensures
            r == self.is_sending(),
    {
        self.sending
    }

    pub fn hit_regions(&self) -> (r: &Vec<HitRegion>)
        ensures
            r@ == self.hit_list(),
    {
        &self.hits
    }

    pub fn message(&self) -> (r: &String)
        ensures
            r@ == self.message_text(),
    {
        &self.message.text()
    }

    pub fn project(&self) -> (r: &String)
        ensures
            r@ == self.project_text(),
    {
        &self.project.text()
    }

    /// The panel's heading: the request review, the new-task form, or the
    /// controls of a task.
    pub fn heading(&self) -> (r: &'static str)
        ensures
            r@ == if self.requests_shown() {
                "REVIEW REQUEST"@
            } else if self.target_of() is None {
                "NEW TASK"@
            } else {
                "TASK CONTROLS"@
            },
    {
        if self.requests_open {
            "REVIEW REQUEST"
        } else if self.target.is_none() {
            "NEW TASK"
        } else {
            "TASK CONTROLS"
        }
    }

    pub fn requests_open(&self) -> (r: bool)
        ensures
            r == self.requests_shown(),
    {
        self.requests_open
    }

    pub fn project_index(&self) -> (r: usize)
        ensures
            r == self.project_at(),
    {
        self.project_index
    }

    pub fn field(&self) -> (r: usize)
        ensures
            r == self.field_at(),
    {
        self.field
    }

    pub fn button_focus(&self) -> (r: Option<usize>)
        ensures
            match r {
                Some(i) => self.focus() == Some(i as nat),
                None => self.focus() is None,
            },
    {
        self.button_focus
    }

    pub fn buttons(&self) -> (r: &Vec<(String, Action)>)
        ensures
            r@.map_values(|b: (String, Action)| (b.0@, b.1@)) == self.button_list(),
    {
        &self.buttons
    }

    pub fn projects(&self) -> (r: &Vec<(String, String)>)
        ensures
            text_pairs(r@) == self.project_list(),
    {
        &self.projects
    }

    fn draft_key(&self) -> (r: String)
        requires
            self.wf(),
        ensures
            r@ == self.current_key(),
    {
        match &self.target {
            Some(id) => id.clone(),
            None => {
                let t = trimmed(self.project.text().as_str());
                let n = chars_of(t.as_str()).len();
                let mut out = chars_of("new:");
                push_decimal(&mut out, match self.provider {
                    Agent::Codex => 0,
                    Agent::Claude => 1,
                });
                out.push(':');
                push_decimal(&mut out, n as u64);
                out.push(':');
                crate::text::extend_str(&mut out, t.as_str());
                let r = string_of(&out);
                assert(r@ =~= self.current_key());
                r
            },
        }
    }

    /// Keep the current instruction under the current key.
    fn remember_draft(&mut self)
        requires
            old(self).wf(),
        ensures
            final(self).wf(),
            *final(self) == (ControlPanel { drafts: final(self).drafts, ..*old(self) }),
            forall|k: Seq<char>| #[trigger] final(self).draft(k) == old(self).remembered(k),
    {
        let key = self.draft_key();
        if chars_of(self.message.text().as_str()).len() == 0 {
            self.drafts.remove(key.as_str());
        } else {
            let text = self.message.text().clone();
            self.drafts.insert(key, text);
        }
        assert forall|k: Seq<char>| #[trigger] self.draft(k) == old(self).remembered(k) by {}
    }

    /// Load the draft kept under the current key into the instruction field.
    fn restore_draft(&mut self)
        requires
            old(self).wf(),
        ensures
            final(self).wf(),
            *final(self) == (ControlPanel { message: final(self).message, ..*old(self) }),
            final(self).message_text() == match old(self).draft(old(self).current_key()) {
                Some(t) => t,
                None => Seq::<char>::empty(),
            },
            final(self).message_cursor() == final(self).message_text().len(),
    {
        let key = self.draft_key();
        let text = match self.drafts.get(key.as_str()) {
            Some(t) => t.clone(),
            None => String::new(),
        };
        self.message.set(text);
    }

    /// Open the request review, for one worker or all of them.
    pub fn show_requests(&mut self, worker: Option<String>)
        requires
            old(self).wf(),
        ensures
            final(self).wf(),
            forall|k: Seq<char>| #[trigger] final(self).draft(k) == old(self).remembered(k),
            final(self).target_of() == worker,
            final(self).is_open(),
            final(self).requests_shown(),
            !final(self).connections_shown(),
            !final(self).projects_shown(),
            final(self).request_at() == 0,
            !final(self).selection_expired(),
            final(self).scroll_at() == 0,
            final(self).question_at() == 0,
            final(self).focus() is None,
            final(self).button_list().len() == 0,
            final(self).hit_list().len() == 0,
            final(self).message_text() == old(self).message_text(),
            final(self).project_text() == old(self).project_text(),
            final(self).is_sending() == old(self).is_sending(),
            final(self).status_of() == old(self).status_of(),
            final(self).provider_of() == old(self).provider_of(),
            final(self).field_at() == old(self).field_at(),
            final(self).geometry_usable() == old(self).geometry_usable(),
            final(self).was_presented() == old(self).was_presented(),
            final(self).pending() == old(self).pending(),
            final(self).project_list() == old(self).project_list(),
            forall|k: Seq<char>| #[trigger] final(self).answer(k) == old(self).answer(k),
    {
        self.remember_draft();
        let ghost mid = *self;
        self.target = worker;
        self.open = true;
        self.requests_open = true;
        self.connections_open = false;
        self.projects_open = false;
        self.request_index = 0;
        self.expired_selection = false;
        self.scroll = 0;
        self.question_index = 0;
        self.button_focus = None;
        self.buttons.clear();
        self.hits.clear();
        assert(self.button_list() =~= Seq::<(Seq<char>, ActionView)>::empty());
        assert forall|k: Seq<char>| #[trigger] self.draft(k) == old(self).remembered(k) by {
            assert(self.draft(k) == mid.draft(k));
        }
    }

    /// Open the controls of one task, with that task's draft instruction.
    pub fn show_task(&mut self, id: String, label: String, provider: Agent)
        requires
            old(self).wf(),
        ensures
            final(self).wf(),
            forall|k: Seq<char>| #[trigger] final(self).draft(k) == old(self).remembered(k),
            final(self).target_of() == Some(id),
            final(self).label_of() == label,
            final(self).provider_of() == provider,
            final(self).message_text() == match old(self).remembered(id@) {
                Some(t) => t,
                None => Seq::<char>::empty(),
            },
            final(self).message_cursor() == final(self).message_text().len(),
            final(self).is_open(),
            final(self).field_at() == 2,
            !final(self).requests_shown(),
            !final(self).selection_expired(),
            !final(self).connections_shown(),
            !final(self).projects_shown(),
            final(self).scroll_at() == 0,
            final(self).focus() is None,
            final(self).button_list().len() == 0,
            final(self).hit_list().len() == 0,
            final(self).project_text() == old(self).project_text(),
            final(self).is_sending() == old(self).is_sending(),
            final(self).status_of() == old(self).status_of(),
            final(self).geometry_usable() == old(self).geometry_usable(),
            final(self).was_presented() == old(self).was_presented(),
            final(self).pending() == old(self).pending(),
            final(self).project_list() == old(self).project_list(),
            forall|k: Seq<char>| #[trigger] final(self).answer(k) == old(self).answer(k),
    {
        self.remember_draft();
        let ghost mid = *self;
        proof {
            assert(mid.draft(id@) == old(self).remembered(id@));
        }
        let text = match self.drafts.get(id.as_str()) {
            Some(t) => t.clone(),
            None => String::new(),
        };
        self.target = Some(id);
        self.target_label = label;
        self.provider = provider;
        self.message.set(text);
        self.open = true;
        self.field = 2;
        self.requests_open = false;
        self.expired_selection = false;
        self.connections_open = false;
        self.scroll = 0;
        self.projects_open = false;
        self.button_focus = None;
        self.buttons.clear();
        self.hits.clear();
        assert(self.button_list() =~= Seq::<(Seq<char>, ActionView)>::empty());
        assert forall|k: Seq<char>| #[trigger] self.draft(k) == old(self).remembered(k) by {
            assert(self.draft(k) == mid.draft(k));
        }
    }

    /// Open the form for a new task in `project`, with the draft kept for
    /// that provider and project.
    pub fn show_new(&mut self, project: String)
        requires
            old(self).wf(),
        ensures
            final(self).wf(),
            forall|k: Seq<char>| #[trigger] final(self).draft(k) == old(self).remembered(k),
            final(self).target_of() is None,
            final(self).label_of()@ == Seq::<char>::empty(),
            final(self).project_text() == project@,
            final(self).message_text() == match old(self).remembered(
                draft_key_text(None, old(self).provider_of(), project@),
            ) {
                Some(t) => t,
                None => Seq::<char>::empty(),
            },
            final(self).message_cursor() == final(self).message_text().len(),
            final(self).is_open(),
            final(self).field_at() == if project@.len() == 0 { 1nat } else { 2nat },
            !final(self).requests_shown(),
            !final(self).selection_expired(),
            !final(self).connections_shown(),
            !final(self).projects_shown(),
            final(self).scroll_at() == 0,
            final(self).focus() is None,
            final(self).button_list().len() == 0,
            final(self).hit_list().len() == 0,
            final(self).provider_of() == old(self).provider_of(),
            final(self).is_sending() == old(self).is_sending(),
            final(self).status_of() == old(self).status_of(),
            final(self).geometry_usable() == old(self).geometry_usable(),
            final(self).was_presented() == old(self).was_presented(),
            final(self).pending() == old(self).pending(),
            final(self).project_list() == old(self).project_list(),
            forall|k: Seq<char>| #[trigger] final(self).answer(k) == old(self).answer(k),
    {
        self.remember_draft();
        let ghost mid = *self;
        self.target = None;
        self.target_label = String::new();
        let empty = chars_of(project.as_str()).len() == 0;
        let ghost key = draft_key_text(None, old(self).provider, project@);
        self.project.set(project);
        proof {
            assert(self.current_key() == key);
            assert(self.draft(key) == mid.draft(key));
            assert(mid.draft(key) == old(self).remembered(key));
        }
        self.restore_draft();
        self.open = true;
        self.field = if empty { 1 } else { 2 };
        self.requests_open = false;
        self.expired_selection = false;
        self.connections_open = false;
        self.scroll = 0;
        self.projects_open = false;
        self.button_focus = None;
        self.buttons.clear();
        self.hits.clear();
        assert(self.button_list() =~= Seq::<(Seq<char>, ActionView)>::empty());
        assert forall|k: Seq<char>| #[trigger] self.draft(k) == old(self).remembered(k) by {
            assert(self.draft(k) == mid.draft(k));
        }
    }

    /// Open the connection settings.
    pub fn show_connections(&mut self)
        requires
            old(self).wf(),
        ensures
            final(self).wf(),
            forall|k: Seq<char>| #[trigger] final(self).draft(k) == old(self).remembered(k),
            final(self).is_open(),
            final(self).connections_shown(),
            !final(self).requests_shown(),
            !final(self).projects_shown(),
            final(self).focus() is None,
            final(self).button_list().len() == 0,
            final(self).hit_list().len() == 0,
            final(self).target_of() == old(self).target_of(),
            final(self).provider_of() == old(self).provider_of(),
            final(self).message_text() == old(self).message_text(),
            final(self).project_text() == old(self).project_text(),
            final(self).field_at() == old(self).field_at(),
            final(self).is_sending() == old(self).is_sending(),
            final(self).status_of() == old(self).status_of(),
            final(self).geometry_usable() == old(self).geometry_usable(),
            final(self).pending() == old(self).pending(),
            forall|k: Seq<char>| #[trigger] final(self).answer(k) == old(self).answer(k),
    {
        self.remember_draft();
        let ghost mid = *self;
        self.open = true;
        self.connections_open = true;
        self.requests_open = false;
        self.projects_open = false;
        self.button_focus = None;
        self.buttons.clear();
        self.hits.clear();
        assert(self.button_list() =~= Seq::<(Seq<char>, ActionView)>::empty());
        assert forall|k: Seq<char>| #[trigger] self.draft(k) == old(self).remembered(k) by {
            assert(self.draft(k) == mid.draft(k));
        }
    }

    /// The host's answer to the last command: the panel takes new commands
    /// again, shows `notice`, and when the command was an accepted
    /// instruction, forgets that instruction's draft, but only where it is
    /// still the text that was sent.
    pub fn complete(&mut self, notice: String, accepted: bool)
        requires
            old(self).wf(),
        ensures
            final(self).wf(),
            !final(self).is_sending(),
            final(self).status_of().notice == notice,
            final(self).pending() is None,
            match (old(self).pending(), accepted) {
                (Some((key, text)), true) => {
                    let cleared = old(self).current_key() == key && old(self).message_text() == text;
                    &&& final(self).message_text() == if cleared {
                        Seq::<char>::empty()
                    } else {
                        old(self).message_text()
                    }
                    &&& forall|k: Seq<char>|
                        #[trigger] final(self).draft(k) == if cleared && k == key {
                            None
                        } else if k == key && old(self).draft(k) == Some(text) {
                            None
                        } else {
                            old(self).draft(k)
                        }
                },
                _ => {
                    &&& final(self).message_text() == old(self).message_text()
                    &&& forall|k: Seq<char>| #[trigger] final(self).draft(k) == old(self).draft(k)
                },
            },
            final(self).target_of() == old(self).target_of(),
            final(self).provider_of() == old(self).provider_of(),
            final(self).project_text() == old(self).project_text(),
            final(self).is_open() == old(self).is_open(),
            final(self).status_of().requests == old(self).status_of().requests,
            final(self).status_of().tasks == old(self).status_of().tasks,
    {
        self.sending = false;
        self.status.notice = notice;
        let pending = self.pending_draft.take();
        match pending {
            Some((key, text)) => {
                if accepted {
                    let same = match self.drafts.get(key.as_str()) {
                        Some(draft) => *draft == text,
                        None => false,
                    };
                    if same {
                        self.drafts.remove(key.as_str());
                    }
                    let current = self.draft_key();
                    if current == key && *self.message.text() == text {
                        self.message.set(String::new());
                        self.remember_draft();
                    }
                }
            },
            None => {},
        }
    }
}

impl ControlPanel {
    /// The members for the first `n` questions of `r`, when each of them has
    /// an answer that is not blank.
    pub open spec fn answer_members(&self, r: Request, n: nat) -> Option<Seq<char>>
        decreases n,
    {
        if n == 0 || n > r.questions@.len() {
            if n == 0 {
                Some(Seq::<char>::empty())
            } else {
                None
            }
        } else {
            match self.answer_members(r, (n - 1) as nat) {
                None => None,
                Some(prev) => {
                    let q = r.questions@[n - 1];
                    match self.answer(answer_key_text(r.id@, q.id@)) {
                        None => None,
                        Some(a) => if blank(a) {
                            None
                        } else {
                            Some(
                                prev + (if n > 1 {
                                    seq![',']
                                } else {
                                    Seq::<char>::empty()
                                }) + answer_member(q.id@, trim_space(a)),
                            )
                        },
                    }
                },
            }
        }
    }

    /// The reply that answers every question of `r`, when each has a
    /// non-blank answer; none for a request without questions.
    pub open spec fn answers_response(&self, r: Request) -> Option<Seq<char>> {
        if r.questions@.len() == 0 {
            None
        } else {
            match self.answer_members(r, r.questions@.len()) {
                Some(members) => Some(answers_object(members)),
                None => None,
            }
        }
    }

    fn question_response(&self, request: &Request) -> (r: Option<String>)
        requires
            self.wf(),
        ensures
            match r {
                Some(t) => self.answers_response(*request) == Some(t@),
                None => self.answers_response(*request) is None,
            },
    {
        let n = request.questions.len();
        if n == 0 {
            return None;
        }
        let mut out: Vec<char> = Vec::new();
        let mut i: usize = 0;
        while i < n
            invariant
                n == request.questions@.len(),
                i <= n,
                self.answer_members(*request, i as nat) == Some(out@),
            decreases n - i,
        {
            let question = &request.questions[i];
            let key = answer_key(&request.id, &question.id);
            let answer = match self.answers.get(key.as_str()) {
                Some(input) => trimmed(input.text().as_str()),
                None => {
                    assert(self.answer_members(*request, (i + 1) as nat) is None);
                    proof {
                        lemma_members_stay_missing(self, *request, (i + 1) as nat, n as nat);
                    }
                    return None;
                },
            };
            if chars_of(answer.as_str()).len() == 0 {
                assert(self.answer_members(*request, (i + 1) as nat) is None);
                proof {
                    lemma_members_stay_missing(self, *request, (i + 1) as nat, n as nat);
                }
                return None;
            }
            if i > 0 {
                out.push(',');
            }
            extend_str(&mut out, json_string(question.id.as_str()).as_str());
            extend_str(&mut out, ":{\"answers\":[");
            extend_str(&mut out, json_string(answer.as_str()).as_str());
            extend_str(&mut out, "]}");
            i += 1;
            assert(self.answer_members(*request, i as nat) == Some(out@)) by {
                let q = request.questions@[i - 1];
                assert(out@ =~= self.answer_members(*request, (i - 1) as nat).unwrap() + (if i > 1 {
                    seq![',']
                } else {
                    Seq::<char>::empty()
                }) + answer_member(q.id@, trim_space(self.answer(answer_key_text(request.id@, q.id@)).unwrap())));
            }
        }
        let mut whole = chars_of("{\"answers\":{");
        extend_str(&mut whole, string_of(&out).as_str());
        extend_str(&mut whole, "}}");
        assert(whole@ =~= answers_object(out@));
        Some(string_of(&whole))
    }

    /// The buttons the panel offers in its current state, in order.
    pub open spec fn offered(&self) -> Seq<(Seq<char>, ActionView)> {
        if self.connections_shown() {
            connection_buttons(self.status_of())
        } else if self.requests_shown() && !self.selection_expired() {
            self.request_buttons()
        } else if self.target_of() is Some {
            self.task_buttons()
        } else {
            self.new_task_buttons()
        }
    }

    pub open spec fn request_buttons(&self) -> Seq<(Seq<char>, ActionView)> {
        match self.selected() {
            Some(r) => choice_buttons(r) + (match self.answers_response(r) {
                Some(t) => seq![
                    (
                        "Submit answers"@,
                        ActionView::Control(CommandView::Reply { request: r.id@, response: t }),
                    ),
                ],
                None => Seq::<(Seq<char>, ActionView)>::empty(),
            }) + seq![back_button()],
            None => seq![back_button()],
        }
    }

    pub open spec fn task_buttons(&self) -> Seq<(Seq<char>, ActionView)> {
        let w = self.target_of().unwrap()@;
        let m = self.message_text();
        let own = match self.target_access() {
            Some(a) => (if a.send && !blank(m) {
                seq![
                    (
                        "Send instruction"@,
                        ActionView::Control(CommandView::Send { worker: w, prompt: m }),
                    ),
                ]
            } else {
                Seq::<(Seq<char>, ActionView)>::empty()
            }) + (if a.native {
                seq![("Open conversation"@, ActionView::Control(CommandView::OpenNative { worker: w }))]
            } else {
                Seq::<(Seq<char>, ActionView)>::empty()
            }) + (if a.interrupt {
                seq![("Stop task"@, ActionView::Control(CommandView::Interrupt { worker: w }))]
            } else {
                Seq::<(Seq<char>, ActionView)>::empty()
            }) + (if a.reconnect {
                seq![("Reconnect"@, ActionView::Control(CommandView::Reconnect { worker: w }))]
            } else {
                Seq::<(Seq<char>, ActionView)>::empty()
            }),
            None => Seq::<(Seq<char>, ActionView)>::empty(),
        };
        own + (if exists|i: int|
            0 <= i < self.status_of().requests@.len() && self.status_of().requests@[i].worker@ == w {
            seq![("Review requests"@, ActionView::Key(PanelKey::F(4)))]
        } else {
            Seq::<(Seq<char>, ActionView)>::empty()
        }) + seq![back_button()]
    }

    pub open spec fn new_task_buttons(&self) -> Seq<(Seq<char>, ActionView)> {
        let available = if self.provider_of() == Agent::Codex {
            self.status_of().can_start_codex
        } else {
            self.status_of().can_start_claude
        };
        (if available && !blank(self.project_text()) && !blank(self.message_text()) {
            seq![
                (
                    "Start task"@,
                    ActionView::Control(
                        CommandView::Start {
                            provider: self.provider_of(),
                            project: trim_space(self.project_text()),
                            prompt: self.message_text(),
                        },
                    ),
                ),
            ]
        } else {
            Seq::<(Seq<char>, ActionView)>::empty()
        }) + (if self.project_list().len() > 0 {
            seq![("Choose project"@, ActionView::Key(PanelKey::F(7)))]
        } else {
            Seq::<(Seq<char>, ActionView)>::empty()
        }) + seq![back_button()]
    }

    fn make_request_buttons(&self) -> (list: Vec<(String, Action)>)
        requires
            self.wf(),
        ensures
            button_views(list@) == self.request_buttons(),
    {
        let mut list: Vec<(String, Action)> = Vec::new();
        let at = nth_visible(&self.status.requests, &self.target, self.request_index);
        match at {
            Some(ri) => {
                let request = &self.status.requests[ri];
                let ghost r = *request;
                assert(self.selected() == Some(r));
                let mut k: usize = 0;
                while k < request.choices.len()
                    invariant
                        r == *request,
                        k <= r.choices@.len(),
                        button_views(list@) == choice_buttons(r).take(k as int),
                    decreases request.choices.len() - k,
                {
                    let choice = &request.choices[k];
                    let mut label: Vec<char> = Vec::new();
                    push_decimal(&mut label, (k + 1) as u64);
                    label.push(' ');
                    extend_str(&mut label, choice.label.as_str());
                    let text = string_of(&label);
                    assert(text@ =~= decimal((k + 1) as nat) + seq![' '] + choice.label@);
                    let ghost prev = list@;
                    list.push((
                        text,
                        Action::Control(Command::Reply { request: request.id.clone(), response: choice.response.clone() }),
                    ));
                    assert(button_views(list@) =~= button_views(prev).push(choice_buttons(r)[k as int]));
                    k += 1;
                    assert(button_views(list@) =~= choice_buttons(r).take(k as int));
                }
                assert(choice_buttons(r).take(k as int) =~= choice_buttons(r));
                match self.question_response(request) {
                    Some(response) => {
                        list.push(("Submit answers".to_owned(), Action::Control(Command::Reply { request: request.id.clone(), response })));
                    },
                    None => {},
                }
                list.push(("Back".to_owned(), Action::Close));
                assert(button_views(list@) =~= self.request_buttons());
            },
            None => {
                list.push(("Back".to_owned(), Action::Close));
                assert(button_views(list@) =~= self.request_buttons());
            },
        }
        list
    }

    fn make_task_buttons(&self) -> (list: Vec<(String, Action)>)
        requires
            self.wf(),
            self.target is Some,
        ensures
            button_views(list@) == self.task_buttons(),
    {
        let mut list: Vec<(String, Action)> = Vec::new();
        let worker = match &self.target {
            Some(w) => w.clone(),
            None => String::new(),
        };
        let ghost w = worker@;
        match access_position(&self.status.tasks, &worker) {
            Some(ti) => {
                let access = &self.status.tasks[ti].1;
                if access.send && !is_blank(self.message.text().as_str()) {
                    list.push(("Send instruction".to_owned(), Action::Control(Command::Send { worker: worker.clone(), prompt: self.message.text().clone() })));
                }
                if access.native {
                    list.push(("Open conversation".to_owned(), Action::Control(Command::OpenNative { worker: worker.clone() })));
                }
                if access.interrupt {
                    list.push(("Stop task".to_owned(), Action::Control(Command::Interrupt { worker: worker.clone() })));
                }
                if access.reconnect {
                    list.push(("Reconnect".to_owned(), Action::Control(Command::Reconnect { worker: worker.clone() })));
                }
            },
            None => {},
        }
        let mut any = false;
        let mut j: usize = 0;
        while j < self.status.requests.len()
            invariant
                j <= self.status.requests@.len(),
                any == exists|t: int| 0 <= t < j && self.status.requests@[t].worker@ == w,
                worker@ == w,
            decreases self.status.requests.len() - j,
        {
            if self.status.requests[j].worker == worker {
                any = true;
            }
            j += 1;
        }
        if any {
            list.push(("Review requests".to_owned(), Action::Key(PanelKey::F(4))));
        }
        list.push(("Back".to_owned(), Action::Close));
        assert(button_views(list@) =~= self.task_buttons());
        list
    }

    fn make_new_task_buttons(&self) -> (list: Vec<(String, Action)>)
        requires
            self.wf(),
        ensures
            button_views(list@) == self.new_task_buttons(),
    {
        let mut list: Vec<(String, Action)> = Vec::new();
        let available = match self.provider {
            Agent::Codex => self.status.can_start_codex,
            Agent::Claude => self.status.can_start_claude,
        };
        if available && !is_blank(self.project.text().as_str()) && !is_blank(self.message.text().as_str()) {
            list.push(("Start task".to_owned(), Action::Control(Command::Start {
                provider: self.provider,
                project: trimmed(self.project.text().as_str()),
                prompt: self.message.text().clone(),
            })));
        }
        if self.projects.len() > 0 {
            list.push(("Choose project".to_owned(), Action::Key(PanelKey::F(7))));
        }
        list.push(("Back".to_owned(), Action::Close));
        assert(button_views(list@) =~= self.new_task_buttons());
        list
    }

    /// Replace the buttons with those offered now; a focus past the last
    /// button is dropped. While a command is being sent there are none.
    fn build_buttons(&mut self)
        requires
            old(self).wf(),
        ensures
            final(self).wf(),
            old(self).sending ==> final(self).buttons@.len() == 0 && final(self).button_focus
                == old(self).button_focus,
            !old(self).sending ==> button_views(final(self).buttons@) == old(self).offered()
                && final(self).button_focus == match old(self).button_focus {
                Some(f) => if f < final(self).buttons@.len() {
                    Some(f)
                } else {
                    None
                },
                None => None,
            },
            *final(self) == (ControlPanel {
                buttons: final(self).buttons,
                button_focus: final(self).button_focus,
                ..*old(self)
            }),
    {
        if self.sending {
            self.buttons.clear();
            return;
        }
        let list = if self.connections_open {
            let mut list: Vec<(String, Action)> = Vec::new();
            list.push(("Local sources".to_owned(), Action::Control(Command::Sources)));
            list.push((login_label(&self.status.codex_name), Action::Control(Command::Login { provider: Agent::Codex })));
            list.push((login_label(&self.status.claude_name), Action::Control(Command::Login { provider: Agent::Claude })));
            list.push(("Back".to_owned(), Action::Close));
            assert(button_views(list@) =~= connection_buttons(self.status));
            list
        } else if self.requests_open && !self.expired_selection {
            self.make_request_buttons()
        } else if self.target.is_some() {
            self.make_task_buttons()
        } else {
            self.make_new_task_buttons()
        };
        let ghost expected = self.offered();
        assert(button_views(list@) == expected);
        self.buttons = list;
        self.button_focus = match self.button_focus {
            Some(f) => if f < self.buttons.len() {
                Some(f)
            } else {
                None
            },
            None => None,
        };
        assert forall|t: int| 0 <= t < self.buttons@.len() implies quiet_action(#[trigger] self.buttons@[t].1) by {
            assert(button_views(self.buttons@)[t] == expected[t]);
        }
    }

    /// Only the status, the request selection and the kept answers differ
    /// from `before`.
    pub closed spec fn only_status_changed(&self, before: &Self) -> bool {
        *self == ControlPanel {
            status: self.status,
            request_index: self.request_index,
            expired_selection: self.expired_selection,
            answers: self.answers,
            ..*before
        }
    }

    /// Take a new report from the host. The notice shown stays. The selected
    /// request stays selected where it is still listed; where it is not, the
    /// selection is marked expired, so that no reply goes to a request the
    /// user did not choose. Answers to requests that are gone are dropped.
    pub fn set_status(&mut self, status: ControlStatus)
        requires
            old(self).wf(),
        ensures
            final(self).wf(),
            final(self).only_status_changed(&*old(self)),
            final(self).status_of() == (ControlStatus { notice: final(self).status_of().notice, ..status }),
            match old(self).selected() {
                Some(r) => {
                    let at = first_listed(final(self).listed(), r.id@);
                    if at < final(self).listed().len() {
                        &&& final(self).request_at() == at
                        &&& final(self).selection_expired() == old(self).selection_expired()
                        &&& final(self).status_of().notice == old(self).status_of().notice
                    } else {
                        &&& final(self).request_at() == old(self).request_at()
                        &&& final(self).selection_expired()
                        &&& final(self).status_of().notice@ == expired_notice()
                    }
                },
                None => {
                    &&& final(self).request_at() == old(self).request_at()
                    &&& final(self).selection_expired() == old(self).selection_expired()
                    &&& final(self).status_of().notice == old(self).status_of().notice
                },
            },
            forall|k: Seq<char>|
                #[trigger] final(self).answer(k) == if answer_of_request(k, status.requests@) {
                    old(self).answer(k)
                } else {
                    None
                },
    {
        let selected_id = match nth_visible(&self.status.requests, &self.target, self.request_index) {
            Some(i) => Some(self.status.requests[i].id.clone()),
            None => None,
        };
        let notice = self.status.notice.clone();
        self.status = status;
        self.status.notice = notice;
        match selected_id {
            Some(id) => match visible_position(&self.status.requests, &self.target, &id) {
                Some(k) => {
                    self.request_index = k;
                },
                None => {
                    self.expired_selection = true;
                    self.status.notice = "The selected request expired. Use ↑/↓ to inspect another request before answering.".to_owned();
                },
            },
            None => {},
        }
        self.drop_stale_answers();
    }

    /// Forget answers whose request is no longer reported.
    fn drop_stale_answers(&mut self)
        requires
            old(self).wf(),
        ensures
            final(self).wf(),
            *final(self) == (ControlPanel { answers: final(self).answers, ..*old(self) }),
            forall|k: Seq<char>|
                #[trigger] final(self).answer(k) == if answer_of_request(k, old(self).status.requests@) {
                    old(self).answer(k)
                } else {
                    None
                },
    {
        let ghost rs = self.status.requests@;
        let ghost keys = self.answers.key_list();
        let mut doomed: Vec<String> = Vec::new();
        let mut i: usize = 0;
        while i < self.answers.len()
            invariant
                rs == self.status.requests@,
                keys == self.answers.key_list(),
                i <= keys.len(),
                forall|t: int| 0 <= t < doomed@.len() ==> keys.contains(#[trigger] doomed@[t]@)
                    && !answer_of_request(doomed@[t]@, rs),
                forall|t: int|
                    0 <= t < i && !answer_of_request(#[trigger] keys[t], rs) ==> exists|u: int|
                        0 <= u < doomed@.len() && doomed@[u]@ == keys[t],
            decreases keys.len() - i,
        {
            let key = self.answers.key_at(i);
            let kc = chars_of(key.as_str());
            let mut keep = false;
            let mut j: usize = 0;
            while j < self.status.requests.len()
                invariant
                    rs == self.status.requests@,
                    j <= rs.len(),
                    kc@ == key@,
                    keep == exists|t: int| 0 <= t < j && starts_with(kc@, rs[t].id@ + seq![':']),
                decreases rs.len() - j,
            {
                let mut prefix = chars_of(self.status.requests[j].id.as_str());
                prefix.push(':');
                assert(prefix@ =~= rs[j as int].id@ + seq![':']);
                if begins_with(&kc, &prefix) {
                    keep = true;
                }
                j += 1;
            }
            assert(keep == answer_of_request(keys[i as int], rs));
            let ghost before = doomed@;
            if !keep {
                doomed.push(key.clone());
                assert(doomed@[before.len() as int]@ == keys[i as int]);
            }
            assert forall|t: int|
                0 <= t < i + 1 && !answer_of_request(#[trigger] keys[t], rs) implies exists|u: int|
                    0 <= u < doomed@.len() && doomed@[u]@ == keys[t] by {
                if t < i {
                    let u = choose|u: int| 0 <= u < before.len() && before[u]@ == keys[t];
                    assert(doomed@[u] == before[u]);
                } else {
                    assert(doomed@[before.len() as int]@ == keys[t]);
                }
            }
            i += 1;
        }
        let ghost start = *self;
        let mut d: usize = 0;
        while d < doomed.len()
            invariant
                rs == self.status.requests@,
                d <= doomed@.len(),
                self.wf(),
                *self == (ControlPanel { answers: self.answers, ..start }),
                forall|k: Seq<char>|
                    #[trigger] self.answer(k) == if exists|u: int| 0 <= u < d && doomed@[u]@ == k {
                        None
                    } else {
                        start.answer(k)
                    },
            decreases doomed.len() - d,
        {
            let ghost before = *self;
            self.answers.remove(doomed[d].as_str());
            d += 1;
            assert forall|k: Seq<char>|
                #[trigger] self.answer(k) == if exists|u: int| 0 <= u < d && doomed@[u]@ == k {
                    None
                } else {
                    start.answer(k)
                } by {
                if k == doomed@[d - 1]@ {
                } else {
                    assert(self.answer(k) == before.answer(k));
                    if exists|u: int| 0 <= u < d && doomed@[u]@ == k {
                        let u = choose|u: int| 0 <= u < d && doomed@[u]@ == k;
                        assert(u < d - 1);
                    }
                }
            }
        }
        proof {
            start.answers.lemma_keys();
        }
        assert forall|k: Seq<char>|
            #[trigger] self.answer(k) == if answer_of_request(k, old(self).status.requests@) {
                old(self).answer(k)
            } else {
                None
            } by {
            if answer_of_request(k, rs) {
                if exists|u: int| 0 <= u < doomed@.len() && doomed@[u]@ == k {
                    let u = choose|u: int| 0 <= u < doomed@.len() && doomed@[u]@ == k;
                    assert(!answer_of_request(doomed@[u]@, rs));
                }
            } else if start.answers.lookup(k) is Some {
                assert(keys.contains(k));
                let t = choose|t: int| 0 <= t < keys.len() && keys[t] == k;
                assert(!answer_of_request(keys[t], rs));
            }
        }
    }

    pub closed spec fn answer_cursor(&self, k: Seq<char>) -> nat {
        match self.answers.lookup(k) {
            Some(i) => i.cursor_at(),
            None => 0,
        }
    }

    /// The key of the answer being written: the selected request's
    /// question under the question cursor.
    pub open spec fn answer_slot(&self) -> Option<Seq<char>> {
        match self.selected() {
            Some(r) => if self.question_at() < r.questions@.len() {
                Some(answer_key_text(r.id@, r.questions@[self.question_at() as int].id@))
            } else {
                None
            },
            None => None,
        }
    }

    /// Only the known projects and the picker's cursor differ from `before`.
    pub closed spec fn only_projects_changed(&self, before: &Self) -> bool {
        *self == ControlPanel { projects: self.projects, project_index: self.project_index, ..*before }
    }

    pub closed spec fn only_answers_changed(&self, before: &Self) -> bool {
        *self == ControlPanel { answers: self.answers, ..*before }
    }

    /// Only the project, the instruction and the drafts differ from `before`.
    pub closed spec fn only_form_changed(&self, before: &Self) -> bool {
        *self == ControlPanel {
            project: self.project,
            message: self.message,
            drafts: self.drafts,
            ..*before
        }
    }

    /// Insert text where the user is typing: into the answer of the current
    /// question while reviewing requests, otherwise into the project (on
    /// one line) or the instruction. Nothing is pasted while a button has
    /// the focus, while choosing a project, or while a command is sent.
    pub fn paste(&mut self, text: &str)
        requires
            old(self).wf(),
        ensures
            final(self).wf(),
            old(self).focus() is Some || old(self).projects_shown() ==> *final(self) == *old(self),
            old(self).focus() is None && !old(self).projects_shown() && old(self).requests_shown()
                && !old(self).is_sending() ==> match old(self).answer_slot() {
                Some(key) => {
                    let c = match old(self).answer(key) {
                        Some(a) => a,
                        None => Seq::<char>::empty(),
                    };
                    let cur = old(self).answer_cursor(key);
                    &&& final(self).only_answers_changed(&*old(self))
                    &&& final(self).answer(key) == Some(
                        c.take(cur as int) + paste_text(text@, c.len()) + c.skip(cur as int),
                    )
                    &&& final(self).answer_cursor(key) == cur + paste_text(text@, c.len()).len()
                    &&& forall|k: Seq<char>|
                        k != key ==> #[trigger] final(self).answer(k) == old(self).answer(k)
                },
                None => *final(self) == *old(self),
            },
            old(self).focus() is None && !old(self).projects_shown() && !old(self).requests_shown()
                && !old(self).connections_shown() && !old(self).is_sending() ==> {
                let c = old(self).message_text();
                let cur = old(self).message_cursor();
                let p = old(self).project_text();
                let pc = old(self).project_cursor();
                if old(self).field_at() == 1 {
                    &&& final(self).only_form_changed(&*old(self))
                    &&& forall|k: Seq<char>| #[trigger] final(self).draft(k) == old(self).remembered(k)
                    &&& final(self).project_text() == p.take(pc as int) + paste_text(one_line(text@), p.len())
                        + p.skip(pc as int)
                    &&& final(self).message_text() == match old(self).remembered(final(self).current_key()) {
                        Some(t) => t,
                        None => Seq::<char>::empty(),
                    }
                } else if old(self).field_at() == 2 {
                    &&& final(self).only_form_changed(&*old(self))
                    &&& forall|k: Seq<char>| #[trigger] final(self).draft(k) == old(self).draft(k)
                    &&& final(self).project_text() == p
                    &&& final(self).message_text() == c.take(cur as int) + paste_text(text@, c.len())
                        + c.skip(cur as int)
                    &&& final(self).message_cursor() == cur + paste_text(text@, c.len()).len()
                } else {
                    *final(self) == *old(self)
                }
            },
            old(self).focus() is None && !old(self).projects_shown() && (old(self).is_sending() || (
            !old(self).requests_shown() && old(self).connections_shown())) ==> *final(self) == *old(self),
    {
        if self.button_focus.is_some() || self.projects_open {
            return;
        }
        if self.requests_open && !self.sending {
            match nth_visible(&self.status.requests, &self.target, self.request_index) {
                Some(ri) => {
                    if self.question_index < self.status.requests[ri].questions.len() {
                        let key = answer_key(
                            &self.status.requests[ri].id,
                            &self.status.requests[ri].questions[self.question_index].id,
                        );
                        let ghost before = *self;
                        let mut input = match self.answers.take(key.as_str()) {
                            Some(i) => i,
                            None => Input::new(),
                        };
                        input.paste(text);
                        self.answers.insert(key, input);
                        assert forall|k: Seq<char>| #[trigger]
                            self.answers.lookup(k) is Some implies self.answers.lookup(k).unwrap().wf() by {
                            if k != key@ {
                                assert(self.answers.lookup(k) == before.answers.lookup(k));
                            }
                        }
                        assert forall|k: Seq<char>| k != key@ implies #[trigger] self.answer(k) == old(self).answer(k) by {
                            assert(self.answers.lookup(k) == before.answers.lookup(k));
                        }
                    }
                },
                None => {},
            }
            return;
        }
        if !self.sending && !self.requests_open && !self.connections_open {
            if self.field == 1 {
                self.remember_draft();
                let ghost mid = *self;
                let line = flatten_line(text);
                self.project.paste(line.as_str());
                let ghost mid2 = *self;
                proof {
                    assert(mid2.draft(mid2.current_key()) == mid.draft(mid2.current_key()));
                }
                self.restore_draft();
                assert(self.current_key() == mid2.current_key());
                assert forall|k: Seq<char>| #[trigger] self.draft(k) == old(self).remembered(k) by {
                    assert(self.draft(k) == mid.draft(k));
                }
            } else if self.field == 2 {
                self.message.paste(text);
            }
        }
    }

    pub closed spec fn project_cursor(&self) -> nat {
        self.project.cursor_at()
    }

    /// Take a known project as the new task's project; an unknown path, or a
    /// panel aimed at an existing task, is left as it is.
    pub fn select_project(&mut self, path: String)
        requires
            old(self).wf(),
        ensures
            final(self).wf(),
            ({
                let known = exists|i: int|
                    0 <= i < old(self).project_list().len() && old(self).project_list()[i].1 == path@;
                if old(self).target_of() is None && known {
                    &&& forall|k: Seq<char>| #[trigger] final(self).draft(k) == old(self).remembered(k)
                    &&& final(self).project_text() == path@
                    &&& final(self).message_text() == match old(self).remembered(
                        draft_key_text(None, old(self).provider_of(), path@),
                    ) {
                        Some(t) => t,
                        None => Seq::<char>::empty(),
                    }
                    &&& !final(self).projects_shown()
                    &&& final(self).field_at() == 2
                    &&& final(self).focus() is None
                    &&& final(self).target_of() is None
                    &&& final(self).is_open() == old(self).is_open()
                    &&& final(self).is_sending() == old(self).is_sending()
                    &&& final(self).status_of() == old(self).status_of()
                    &&& final(self).project_list() == old(self).project_list()
                } else {
                    *final(self) == *old(self)
                }
            }),
    {
        if self.target.is_some() {
            return;
        }
        let mut known = false;
        let mut i: usize = 0;
        while i < self.projects.len()
            invariant
                i <= self.projects@.len(),
                known == exists|t: int| 0 <= t < i && self.project_list()[t].1 == path@,
            decreases self.projects.len() - i,
        {
            assert(self.project_list()[i as int].1 == self.projects@[i as int].1@);
            if self.projects[i].1 == path {
                known = true;
            }
            i += 1;
        }
        if !known {
            return;
        }
        self.remember_draft();
        let ghost mid = *self;
        let ghost key = draft_key_text(None, old(self).provider, path@);
        self.project.set(path);
        proof {
            assert(self.current_key() == key);
            assert(self.draft(key) == mid.draft(key));
        }
        self.restore_draft();
        self.projects_open = false;
        self.field = 2;
        self.button_focus = None;
        assert forall|k: Seq<char>| #[trigger] self.draft(k) == old(self).remembered(k) by {
            assert(self.draft(k) == mid.draft(k));
        }
    }

    /// Take the projects the host knows, as `(name, path)`: one entry per
    /// path under the least name reported for it, ordered by name and then
    /// path; the picker's cursor stays within the list.
    pub fn set_projects(&mut self, projects: Vec<(String, String)>)
        requires
            old(self).wf(),
        ensures
            final(self).wf(),
            picker_list(text_pairs(projects@), final(self).project_list()),
            final(self).project_at() == if old(self).project_at() < final(self).project_list().len() {
                old(self).project_at()
            } else if final(self).project_list().len() == 0 {
                0
            } else {
                (final(self).project_list().len() - 1) as nat
            },
            final(self).only_projects_changed(&*old(self)),
    {
        let kept = least_names(&projects);
        let sorted = sorted_projects(&kept);
        let ghost gv = text_pairs(projects@);
        let ghost kv = text_pairs(kept@);
        let ghost rv = text_pairs(sorted@);
        proof {
            assert forall|i: int, j: int| 0 <= i < j < rv.len() implies rv[i].1 != rv[j].1 by {
                assert(kv.contains(rv[i]));
                assert(kv.contains(rv[j]));
                let a = choose|a: int| 0 <= a < kv.len() && kv[a] == rv[i];
                let b = choose|b: int| 0 <= b < kv.len() && kv[b] == rv[j];
                if rv[i].1 == rv[j].1 {
                    assert(kept@[a].1@ == kept@[b].1@);
                    if a < b || b < a {
                    } else {
                        lemma_pair_order(rv[i], rv[j], rv[i]);
                    }
                }
            }
            assert forall|i: int| 0 <= i < rv.len() implies gv.contains(#[trigger] rv[i]) by {
                assert(kv.contains(rv[i]));
                let a = choose|a: int| 0 <= a < kv.len() && kv[a] == rv[i];
                assert(gv.contains(text_pairs(kept@)[a]));
            }
            assert forall|g: int| 0 <= g < gv.len() implies #[trigger] listed_under_least_name(gv, rv, g) by {
                assert(covered(projects@, kept@, g));
                let a = choose|a: int|
                    0 <= a < kept@.len() && kept@[a].1@ == projects@[g].1@ && !text_lt(
                        projects@[g].0@,
                        kept@[a].0@,
                    );
                assert(rv.contains(kv[a]));
                let i = choose|i: int| 0 <= i < rv.len() && rv[i] == kv[a];
                assert(rv[i].1 == gv[g].1);
            }
            assert(forall|i: int, j: int| 0 <= i < j < rv.len() ==> pair_lt(rv[i], rv[j]));
            assert(forall|i: int, j: int| 0 <= i < j < rv.len() ==> rv[i].1 != rv[j].1);
            assert(forall|i: int| 0 <= i < rv.len() ==> gv.contains(#[trigger] rv[i]));
            assert(picker_list(gv, rv));
        }
        self.projects = sorted;
        assert(self.project_list() == rv);
        if self.project_index >= self.projects.len() {
            self.project_index = if self.projects.len() == 0 { 0 } else { self.projects.len() - 1 };
        }
    }

    /// Whether the provider can start tasks now.
    pub open spec fn can_start(&self, provider: Agent) -> bool {
        if provider == Agent::Codex {
            self.status_of().can_start_codex
        } else {
            self.status_of().can_start_claude
        }
    }

    /// Whether a key goes to the open request review: the panel has room,
    /// sends nothing, shows neither the picker nor the settings, no button
    /// has the focus, and the key is not one the panel handles first.
    pub open spec fn reaches_review(&self, key: KeyPress) -> bool {
        &&& self.geometry_usable()
        &&& !self.is_sending()
        &&& !self.projects_shown()
        &&& self.requests_shown()
        &&& !self.connections_shown()
        &&& self.focus() is None
        &&& key.code != PanelKey::Esc
        &&& key.code != PanelKey::Tab
        &&& key.code != PanelKey::BackTab
        &&& key.code != PanelKey::F(4)
    }

    /// Whether a key goes to the task controls or the new-task form, as
    /// for the review but with the review closed too.
    pub open spec fn reaches_form(&self, key: KeyPress) -> bool {
        &&& self.geometry_usable()
        &&& !self.is_sending()
        &&& !self.projects_shown()
        &&& !self.requests_shown()
        &&& !self.connections_shown()
        &&& self.focus() is None
        &&& key.code != PanelKey::Esc
        &&& key.code != PanelKey::Tab
        &&& key.code != PanelKey::BackTab
        &&& key.code != PanelKey::F(4)
        &&& key.code != PanelKey::F(7)
    }

    /// The form after typing `key` into the focused field: the instruction
    /// (field 2), or on the new-task form the project (field 1), with the
    /// drafts kept under the old key and the instruction taken from the new
    /// one. Other fields are left alone.
    pub open spec fn typed(&self, after: &Self, key: KeyPress) -> bool {
        if self.field_at() == 2 {
            &&& (after.message_text(), after.message_cursor()) == edited(
                self.message_text(),
                self.message_cursor(),
                edit_of(key),
            )
            &&& after.project_text() == self.project_text()
            &&& forall|k: Seq<char>| #[trigger] after.draft(k) == self.draft(k)
        } else if self.field_at() == 1 && self.target_of() is None {
            &&& (after.project_text(), after.project_cursor()) == edited(
                self.project_text(),
                self.project_cursor(),
                edit_of(key),
            )
            &&& forall|k: Seq<char>| #[trigger] after.draft(k) == self.remembered(k)
            &&& after.message_text() == match self.remembered(after.current_key()) {
                Some(t) => t,
                None => Seq::<char>::empty(),
            }
        } else {
            &&& after.message_text() == self.message_text()
            &&& after.project_text() == self.project_text()
            &&& forall|k: Seq<char>| #[trigger] after.draft(k) == self.draft(k)
        }
    }

    /// A sent instruction or new task is recorded as pending under the key
    /// of the form it came from, with the text sent, and the panel waits.
    pub open spec fn records_send(&self, before: &Self, r: Option<Command>) -> bool {
        r matches Some(c) && (c is Send || c is Start) ==> {
            &&& self.is_sending()
            &&& self.pending() == Some((before.current_key(), before.message_text()))
            &&& forall|k: Seq<char>| #[trigger] self.draft(k) == before.remembered(k)
        }
    }

    /// Whether a drawn region replies to `request` with `response`.
    pub open spec fn reply_shown(&self, request: Seq<char>, response: Seq<char>) -> bool {
        exists|k: int|
            0 <= k < self.hit_list().len() && self.hit_list()[k].action@ == ActionView::Control(
                CommandView::Reply { request, response },
            )
    }

    /// The name the host shows for a provider.
    pub open spec fn provider_name_of(&self, provider: Agent) -> Seq<char> {
        match provider {
            Agent::Codex => self.status_of().codex_name@,
            Agent::Claude => self.status_of().claude_name@,
        }
    }

    /// What submitting gives: the instruction for a target task that accepts
    /// instructions, or a new task where the provider can start one and a
    /// project is chosen; nothing for a blank instruction.
    pub open spec fn submit_result(&self) -> Option<CommandView> {
        let m = self.message_text();
        if blank(m) {
            None
        } else {
            match self.target_of() {
                Some(id) => match access_of(self.status_of().tasks@, id@) {
                    Some(a) => if a.send {
                        Some(CommandView::Send { worker: id@, prompt: m })
                    } else {
                        None
                    },
                    None => None,
                },
                None => if self.can_start(self.provider_of()) && !blank(self.project_text()) {
                    Some(
                        CommandView::Start {
                            provider: self.provider_of(),
                            project: trim_space(self.project_text()),
                            prompt: m,
                        },
                    )
                } else {
                    None
                },
            }
        }
    }

    /// The notice submitting leaves when it gives nothing.
    pub open spec fn refusal_notice(&self) -> Seq<char> {
        if blank(self.message_text()) {
            "Write an instruction first."@
        } else if self.target_of() is Some {
            "Observation only: continue where the work runs."@
        } else if !self.can_start(self.provider_of()) {
            self.provider_name_of(self.provider_of()) + " creation unavailable: "@ + (if self.provider_of()
                == Agent::Codex {
                self.status_of().codex@
            } else {
                self.status_of().claude@
            })
        } else {
            "Choose a project folder first."@
        }
    }

    /// What a key gives while the request review is open.
    pub open spec fn requests_result(&self, key: KeyPress) -> Option<CommandView> {
        if self.selection_expired() {
            None
        } else {
            match self.selected() {
                Some(q) => if q.questions@.len() > 0 {
                    if key.code == PanelKey::F(5) {
                        match self.answers_response(q) {
                            Some(t) => Some(CommandView::Reply { request: q.id@, response: t }),
                            None => None,
                        }
                    } else {
                        None
                    }
                } else {
                    match key.code {
                        PanelKey::Char(c) => {
                            let n = (c as int) - ('1' as int);
                            if '1' <= c && c <= '9' && n < q.choices@.len() && (!self.was_presented()
                                || self.reply_shown(q.id@, q.choices@[n].response@)) {
                                Some(CommandView::Reply { request: q.id@, response: q.choices@[n].response@ })
                            } else {
                                None
                            }
                        },
                        _ => None,
                    }
                },
                None => None,
            }
        }
    }

    /// What a key gives on the task controls or the new-task form.
    pub open spec fn task_result(&self, key: KeyPress) -> Option<CommandView> {
        let (send, interrupt, native, reconnect) = match self.target_access() {
            Some(a) => (a.send, a.interrupt, a.native, a.reconnect),
            None => (false, false, false, false),
        };
        let w = match self.target_of() {
            Some(id) => id@,
            None => Seq::<char>::empty(),
        };
        if key.code == PanelKey::F(6) && reconnect {
            Some(CommandView::Reconnect { worker: w })
        } else if key.code == PanelKey::F(2) {
            if interrupt {
                Some(CommandView::Interrupt { worker: w })
            } else {
                None
            }
        } else if key.code == PanelKey::F(3) || (key.code == PanelKey::Enter && native) {
            if native {
                Some(CommandView::OpenNative { worker: w })
            } else {
                None
            }
        } else if key.code == PanelKey::Tab && self.target_of() is None {
            None
        } else if self.field_at() == 0 && (key.code == PanelKey::Left || key.code == PanelKey::Right
            || key.code == PanelKey::Char(' ')) {
            None
        } else if key.code == PanelKey::F(5) || (key.code == PanelKey::Enter && key.control) {
            self.submit_result()
        } else {
            None
        }
    }

    /// What F5 gives on a usable panel that is not sending.
    pub open spec fn press_result(&self) -> Option<CommandView> {
        if self.projects_shown() || self.connections_shown() {
            None
        } else if self.requests_shown() {
            self.requests_result(KeyPress { code: PanelKey::F(5), control: false, alt: false })
        } else {
            self.task_result(KeyPress { code: PanelKey::F(5), control: false, alt: false })
        }
    }

    /// What checking a captured command again gives: the command itself
    /// where the state still allows it; for an instruction or a new task,
    /// what F5 gives where the command is still the one the form shows.
    pub open spec fn activate_result(&self, c: CommandView) -> Option<CommandView> {
        if self.is_sending() {
            None
        } else {
            match c {
                CommandView::Send { worker, prompt } => if self.target_of() is Some && self.target_of().unwrap()@
                    == worker && self.message_text() == prompt && self.geometry_usable() {
                    self.press_result()
                } else {
                    None
                },
                CommandView::Start { provider, project, prompt } => if self.target_of() is None
                    && provider == self.provider_of() && trim_space(self.project_text()) == project
                    && self.message_text() == prompt && self.geometry_usable() {
                    self.press_result()
                } else {
                    None
                },
                _ => if self.may_issue(c) {
                    Some(c)
                } else {
                    None
                },
            }
        }
    }

    /// When the panel may hand a command to the host, judged on the state it
    /// was in: a reply only to the selected, still pending request, with
    /// one of its choices or the answers to all its questions; an
    /// instruction only for the target task that accepts instructions, and
    /// not blank; a new task only with a provider that can start one, a
    /// project and an instruction; a task action only where the host allows
    /// it; connection commands only from the connection settings.
    pub open spec fn may_issue(&self, c: CommandView) -> bool {
        match c {
            CommandView::Reply { request, response } => {
                &&& self.requests_shown()
                &&& self.geometry_usable()
                &&& !self.selection_expired()
                &&& match self.selected() {
                    Some(q) => request == q.id@ && ((exists|i: int|
                        0 <= i < q.choices@.len() && q.choices@[i].response@ == response)
                        || self.answers_response(q) == Some(response)),
                    None => false,
                }
            },
            CommandView::Send { worker, prompt } => {
                &&& self.geometry_usable()
                &&& self.target_of() is Some
                &&& self.target_of().unwrap()@ == worker
                &&& prompt == self.message_text()
                &&& !blank(prompt)
                &&& match access_of(self.status_of().tasks@, worker) {
                    Some(a) => a.send,
                    None => false,
                }
            },
            CommandView::Start { provider, project, prompt } => {
                &&& self.geometry_usable()
                &&& self.target_of() is None
                &&& provider == self.provider_of()
                &&& self.can_start(provider)
                &&& project == trim_space(self.project_text())
                &&& !blank(self.project_text())
                &&& prompt == self.message_text()
                &&& !blank(prompt)
            },
            CommandView::Interrupt { worker } => match access_of(self.status_of().tasks@, worker) {
                Some(a) => a.interrupt,
                None => false,
            },
            CommandView::OpenNative { worker } => match access_of(self.status_of().tasks@, worker) {
                Some(a) => a.native,
                None => false,
            },
            CommandView::Reconnect { worker } => match access_of(self.status_of().tasks@, worker) {
                Some(a) => a.reconnect,
                None => false,
            },
            CommandView::Login { provider } => self.connections_shown() && self.geometry_usable(),
            CommandView::Sources => self.connections_shown() && self.geometry_usable(),
        }
    }

    /// The laws every command-producing step keeps: nothing while a command
    /// is being sent; only commands the state allowed; after any command but
    /// `Sources` the panel waits for the host; `Sources` closes the panel.
    pub open spec fn issued(&self, before: &Self, r: Option<Command>) -> bool {
        &&& before.is_sending() ==> r is None
        &&& match r {
            Some(c) => {
                &&& before.may_issue(c@)
                &&& (c is Sources ==> !self.is_open() && self.is_sending() == before.is_sending())
                &&& (c !is Sources ==> self.is_sending())
            },
            None => true,
        }
    }

    /// Hand a command captured from a drawn button to the host, after
    /// checking it against the current state again: the request must still
    /// be the selected one and the response one it offers, the task must
    /// still allow the action. An instruction or a new task goes through the
    /// same checks as pressing F5.
    pub fn activate(&mut self, command: Command) -> (r: Option<Command>)
        requires
            old(self).wf(),
        ensures
            final(self).wf(),
            final(self).issued(&*old(self), r),
            old(self).is_sending() ==> *final(self) == *old(self),
            match r {
                Some(c) => match command@ {
                    CommandView::Send { .. } => true,
                    CommandView::Start { .. } => true,
                    _ => c@ == command@,
                },
                None => true,
            },
            command_views(r) == old(self).activate_result(command@),
            final(self).records_send(&*old(self), r),
            command@ !is Send && command@ !is Start && r is None ==> *final(self) == *old(self),
    {
        if self.sending {
            return None;
        }
        match command {
            Command::Reply { request, response } => {
                if !self.usable_geometry || !self.requests_open || self.expired_selection {
                    return None;
                }
                let ri = match nth_visible(&self.status.requests, &self.target, self.request_index) {
                    Some(ri) => ri,
                    None => {
                        return None;
                    },
                };
                let current = &self.status.requests[ri];
                if current.id != request {
                    return None;
                }
                let ghost q = *current;
                let mut known = false;
                let mut k: usize = 0;
                while k < current.choices.len()
                    invariant
                        q == *current,
                        k <= q.choices@.len(),
                        known == exists|i: int| 0 <= i < k && q.choices@[i].response@ == response@,
                    decreases current.choices.len() - k,
                {
                    if current.choices[k].response == response {
                        known = true;
                    }
                    k += 1;
                }
                let by_answers = match self.question_response(current) {
                    Some(t) => t == response,
                    None => false,
                };
                if !known && !by_answers {
                    return None;
                }
                self.sending = true;
                Some(Command::Reply { request, response })
            },
            Command::Interrupt { worker } => match access_position(&self.status.tasks, &worker) {
                Some(i) => {
                    if !self.status.tasks[i].1.interrupt {
                        return None;
                    }
                    self.sending = true;
                    Some(Command::Interrupt { worker })
                },
                None => None,
            },
            Command::OpenNative { worker } => match access_position(&self.status.tasks, &worker) {
                Some(i) => {
                    if !self.status.tasks[i].1.native {
                        return None;
                    }
                    self.sending = true;
                    Some(Command::OpenNative { worker })
                },
                None => None,
            },
            Command::Reconnect { worker } => match access_position(&self.status.tasks, &worker) {
                Some(i) => {
                    if !self.status.tasks[i].1.reconnect {
                        return None;
                    }
                    self.sending = true;
                    Some(Command::Reconnect { worker })
                },
                None => None,
            },
            Command::Send { worker, prompt } => {
                let aimed = match &self.target {
                    Some(t) => *t == worker,
                    None => false,
                };
                if !aimed || *self.message.text() != prompt || !self.usable_geometry {
                    return None;
                }
                self.press_submit()
            },
            Command::Start { provider, project, prompt } => {
                if self.target.is_some() || self.provider != provider || trimmed(
                    self.project.text().as_str(),
                ) != project || *self.message.text() != prompt || !self.usable_geometry {
                    return None;
                }
                self.press_submit()
            },
            Command::Login { provider } => {
                if !self.connections_open || !self.usable_geometry {
                    return None;
                }
                self.sending = true;
                Some(Command::Login { provider })
            },
            Command::Sources => {
                if !self.connections_open || !self.usable_geometry {
                    return None;
                }
                self.open = false;
                Some(Command::Sources)
            },
        }
    }

    /// F5 on a usable panel that is not sending.
    fn press_submit(&mut self) -> (r: Option<Command>)
        requires
            old(self).wf(),
            old(self).usable_geometry,
            !old(self).sending,
        ensures
            final(self).wf(),
            final(self).issued(&*old(self), r),
            r matches Some(c) ==> c !is Sources,
            command_views(r) == old(self).press_result(),
            final(self).records_send(&*old(self), r),
    {
        if self.projects_open || self.connections_open {
            return None;
        }
        if self.requests_open {
            return self.requests_key(KeyPress::plain(PanelKey::F(5)));
        }
        self.task_key(KeyPress::plain(PanelKey::F(5)))
    }

    /// The name the host shows for a provider.
    fn provider_name(&self, provider: Agent) -> (r: String)
        ensures
            r@ == self.provider_name_of(provider),
    {
        match provider {
            Agent::Codex => self.status.codex_name.clone(),
            Agent::Claude => self.status.claude_name.clone(),
        }
    }

    /// Send the instruction, or start the new task.
    fn submit(&mut self) -> (r: Option<Command>)
        requires
            old(self).wf(),
            old(self).usable_geometry,
            !old(self).sending,
        ensures
            final(self).wf(),
            final(self).issued(&*old(self), r),
            r matches Some(c) ==> c !is Sources,
            command_views(r) == old(self).submit_result(),
            r is None ==> *final(self) == (ControlPanel {
                status: ControlStatus { notice: final(self).status.notice, ..old(self).status },
                ..*old(self)
            }) && final(self).status.notice@ == old(self).refusal_notice(),
            r is Some ==> final(self).sending && final(self).pending() == Some(
                (old(self).current_key(), old(self).message_text()),
            ) && (forall|k: Seq<char>| #[trigger] final(self).draft(k) == old(self).remembered(k))
                && final(self).target == old(self).target && final(self).provider == old(self).provider
                && final(self).message_text() == old(self).message_text()
                && final(self).project_text() == old(self).project_text(),
    {
        if is_blank(self.message.text().as_str()) {
            self.status.notice = "Write an instruction first.".to_owned();
            return None;
        }
        let action = match &self.target {
            Some(id) => {
                let allowed = match access_position(&self.status.tasks, id) {
                    Some(i) => self.status.tasks[i].1.send,
                    None => false,
                };
                if !allowed {
                    self.status.notice = "Observation only: continue where the work runs.".to_owned();
                    return None;
                }
                Command::Send { worker: id.clone(), prompt: self.message.text().clone() }
            },
            None => {
                let available = match self.provider {
                    Agent::Codex => self.status.can_start_codex,
                    Agent::Claude => self.status.can_start_claude,
                };
                if !available {
                    let mut out = chars_of(self.provider_name(self.provider).as_str());
                    extend_str(&mut out, " creation unavailable: ");
                    match self.provider {
                        Agent::Codex => extend_str(&mut out, self.status.codex.as_str()),
                        Agent::Claude => extend_str(&mut out, self.status.claude.as_str()),
                    }
                    self.status.notice = string_of(&out);
                    return None;
                }
                if is_blank(self.project.text().as_str()) {
                    self.status.notice = "Choose a project folder first.".to_owned();
                    return None;
                }
                Command::Start {
                    provider: self.provider,
                    project: trimmed(self.project.text().as_str()),
                    prompt: self.message.text().clone(),
                }
            },
        };
        let ghost start = *self;
        self.sending = true;
        let mut note = chars_of("Sending to ");
        if self.target.is_some() {
            extend_str(&mut note, self.target_label.as_str());
        } else {
            extend_str(&mut note, self.provider_name(self.provider).as_str());
            extend_str(&mut note, " / ");
            extend_str(&mut note, self.project.text().as_str());
        }
        extend_str(&mut note, " \u{b7} waiting for confirmation");
        self.status.notice = string_of(&note);
        let key = self.draft_key();
        self.pending_draft = Some((key, self.message.text().clone()));
        let ghost before = *self;
        assert(before.current_key() == old(self).current_key());
        self.remember_draft();
        assert forall|k: Seq<char>| #[trigger] self.draft(k) == old(self).remembered(k) by {
            assert(before.remembered(k) == old(self).remembered(k));
        }
        assert(start.may_issue(action@) == old(self).may_issue(action@));
        Some(action)
    }

    /// A key while the request review is open.
    fn requests_key(&mut self, key: KeyPress) -> (r: Option<Command>)
        requires
            old(self).wf(),
            old(self).usable_geometry,
            !old(self).sending,
            old(self).requests_open,
            !old(self).connections_open,
        ensures
            final(self).wf(),
            final(self).issued(&*old(self), r),
            r matches Some(c) ==> c !is Sources,
            (key.code is Char && key.code != PanelKey::Char(' ') && !(key.code->Char_0 >= '1'
                && key.code->Char_0 <= '9')) ==> r is None,
            command_views(r) == old(self).requests_result(key),
            r matches Some(c) ==> c is Reply,
    {
        if self.expired_selection {
            if key.code == PanelKey::Up || key.code == PanelKey::Down {
                self.expired_selection = false;
                self.question_index = 0;
            }
            return None;
        }
        let count = visible_count(&self.status.requests, &self.target);
        let at = nth_visible(&self.status.requests, &self.target, self.request_index);
        match at {
            Some(ri) => {
                let qn = self.status.requests[ri].questions.len();
                if qn > 0 {
                    let response = if key.code == PanelKey::F(5) {
                        self.question_response(&self.status.requests[ri])
                    } else {
                        None
                    };
                    let ghost unchanged = *self;
                    if self.question_index > qn - 1 {
                        self.question_index = qn - 1;
                    }
                    if key.code == PanelKey::Tab {
                        if self.question_index + 1 == qn && self.buttons.len() > 0 {
                            self.button_focus = Some(0);
                            return None;
                        }
                        self.question_index = (self.question_index + 1) % qn;
                        return None;
                    }
                    if key.code == PanelKey::F(5) {
                        match response {
                            Some(response) => {
                                let ghost q = self.status.requests@[ri as int];
                                assert(old(self).selected() == Some(q));
                                assert(unchanged == *old(self));
                                self.sending = true;
                                return Some(Command::Reply { request: self.status.requests[ri].id.clone(), response });
                            },
                            None => {
                                self.status.notice = "Answer each question before submitting.".to_owned();
                                return None;
                            },
                        }
                    }
                    if !(key.code == PanelKey::Up || key.code == PanelKey::Down || key.code == PanelKey::PageUp
                        || key.code == PanelKey::PageDown) {
                        let question = &self.status.requests[ri].questions[self.question_index];
                        let slot = answer_key(&self.status.requests[ri].id, &question.id);
                        let ghost before = *self;
                        let mut input = match self.answers.take(slot.as_str()) {
                            Some(i) => i,
                            None => Input::new(),
                        };
                        let mut picked = false;
                        match key.code {
                            PanelKey::F(n) => {
                                if n >= 6 && n <= 12 {
                                    picked = true;
                                    let o = (n - 6) as usize;
                                    if o < question.options.len() {
                                        input.set(question.options[o].clone());
                                    }
                                }
                            },
                            _ => {},
                        }
                        if !picked {
                            input.key(edit_key(key));
                        }
                        self.answers.insert(slot, input);
                        assert forall|k: Seq<char>| #[trigger]
                            self.answers.lookup(k) is Some implies self.answers.lookup(k).unwrap().wf() by {
                            if k != slot@ {
                                assert(self.answers.lookup(k) == before.answers.lookup(k));
                            }
                        }
                        return None;
                    }
                }
            },
            None => {},
        }
        match key.code {
            PanelKey::Down => {
                let last = if count == 0 { 0 } else { count - 1 };
                self.request_index = if self.request_index < last { self.request_index + 1 } else { last };
            },
            PanelKey::Up => {
                if self.request_index > 0 {
                    self.request_index = self.request_index - 1;
                }
            },
            PanelKey::PageDown => {
                self.scroll = if self.scroll <= u16::MAX - 5 { self.scroll + 5 } else { u16::MAX };
            },
            PanelKey::PageUp => {
                self.scroll = if self.scroll >= 5 { self.scroll - 5 } else { 0 };
            },
            PanelKey::Char(c) => {
                if c >= '1' && c <= '9' {
                    match at {
                        Some(ri) => {
                            let n = (c as u32 - '1' as u32) as usize;
                            let request = &self.status.requests[ri];
                            if n < request.choices.len() {
                                let choice = &request.choices[n];
                                if self.presented && !self.reply_drawn(&request.id, &choice.response) {
                                    return None;
                                }
                                let ghost q = *request;
                                assert(old(self).selected() == Some(q));
                                assert(q.choices@[n as int].response@ == choice.response@);
                                let reply = Command::Reply { request: request.id.clone(), response: choice.response.clone() };
                                self.sending = true;
                                return Some(reply);
                            }
                        },
                        None => {},
                    }
                }
            },
            _ => {},
        }
        None
    }

    /// Whether a drawn region replies to this request with this response.
    fn reply_drawn(&self, request: &String, response: &String) -> (r: bool)
        ensures
            r == self.reply_shown(request@, response@),
    {
        let mut k: usize = 0;
        while k < self.hits.len()
            invariant
                forall|j: int|
                    0 <= j < k ==> self.hits@[j].action@ != ActionView::Control(
                        CommandView::Reply { request: request@, response: response@ },
                    ),
            decreases self.hits.len() - k,
        {
            match &self.hits[k].action {
                Action::Control(Command::Reply { request: id, response: given }) => {
                    if *id == *request && *given == *response {
                        return true;
                    }
                },
                _ => {},
            }
            k += 1;
        }
        false
    }

    /// A key for the task controls or the new-task form.
    fn task_key(&mut self, key: KeyPress) -> (r: Option<Command>)
        requires
            old(self).wf(),
            old(self).usable_geometry,
            !old(self).sending,
        ensures
            final(self).wf(),
            final(self).issued(&*old(self), r),
            r matches Some(c) ==> c !is Sources,
            (key.code is Char) ==> r is None,
            command_views(r) == old(self).task_result(key),
            final(self).records_send(&*old(self), r),
            editing_key(key) && !(old(self).field_at() == 0 && (key.code == PanelKey::Left
                || key.code == PanelKey::Right || key.code == PanelKey::Char(' '))) && !(
            old(self).field_at() != 1 && old(self).field_at() != 2) ==> r is None
                && old(self).typed(&*final(self), key),
    {
        let access = match &self.target {
            Some(id) => match access_position(&self.status.tasks, id) {
                Some(i) => Some(i),
                None => None,
            },
            None => None,
        };
        let (send, interrupt, native, reconnect) = match access {
            Some(i) => (
                self.status.tasks[i].1.send,
                self.status.tasks[i].1.interrupt,
                self.status.tasks[i].1.native,
                self.status.tasks[i].1.reconnect,
            ),
            None => (false, false, false, false),
        };
        let worker = match &self.target {
            Some(id) => id.clone(),
            None => String::new(),
        };
        if key.code == PanelKey::F(6) && reconnect {
            self.sending = true;
            return Some(Command::Reconnect { worker });
        }
        if key.code == PanelKey::F(2) {
            if interrupt {
                self.sending = true;
                return Some(Command::Interrupt { worker });
            }
            return None;
        }
        if key.code == PanelKey::F(3) || (key.code == PanelKey::Enter && native) {
            if native {
                self.sending = true;
                return Some(Command::OpenNative { worker });
            }
            return None;
        }
        if key.code == PanelKey::Tab && self.target.is_none() {
            self.field = (self.field + 1) % 3;
            return None;
        }
        if self.field == 0 && (key.code == PanelKey::Left || key.code == PanelKey::Right || key.code
            == PanelKey::Char(' ')) {
            self.remember_draft();
            self.provider = match self.provider {
                Agent::Codex => Agent::Claude,
                Agent::Claude => Agent::Codex,
            };
            self.restore_draft();
            return None;
        }
        if key.code == PanelKey::F(5) || (key.code == PanelKey::Enter && key.control) {
            return self.submit();
        }
        if self.field == 1 && self.target.is_none() {
            if key.code != PanelKey::Enter {
                self.remember_draft();
                let ghost mid = *self;
                self.project.key(edit_key(key));
                let ghost mid2 = *self;
                proof {
                    assert(mid2.draft(mid2.current_key()) == mid.draft(mid2.current_key()));
                }
                self.restore_draft();
                assert(self.current_key() == mid2.current_key());
                assert forall|k: Seq<char>| #[trigger] self.draft(k) == old(self).remembered(k) by {
                    assert(self.draft(k) == mid.draft(k));
                }
                assert(self.project_cursor() == mid2.project_cursor());
            }
        } else if self.field == 2 {
            self.message.key(edit_key(key));
        }
        None
    }

    /// Apply one key press. Esc closes the panel and keeps the draft. While
    /// the panel's area is too small, or a command is waiting for the host,
    /// other keys do nothing. Typed characters edit fields and never give
    /// a command, except the digits that pick a choice while reviewing a
    /// request or an item of the connection settings.
    pub fn handle_key(&mut self, key: KeyPress) -> (r: Option<Command>)
        requires
            old(self).wf(),
        ensures
            final(self).wf(),
            final(self).issued(&*old(self), r),
            key.code == PanelKey::Esc ==> r is None && !final(self).is_open() && forall|k: Seq<char>|
                #[trigger] final(self).draft(k) == old(self).remembered(k),
            key.code != PanelKey::Esc && (!old(self).geometry_usable() || old(self).is_sending())
                ==> r is None && *final(self) == *old(self),
            (key.code is Char && key.code != PanelKey::Char(' ') && !(key.code->Char_0 >= '1'
                && key.code->Char_0 <= '9')) ==> r is None,
            final(self).records_send(&*old(self), r),
            key.code == PanelKey::Esc ==> final(self).pending() == old(self).pending()
                && final(self).target_of() == old(self).target_of()
                && final(self).message_text() == old(self).message_text()
                && final(self).is_sending() == old(self).is_sending(),
            old(self).reaches_review(key) ==> command_views(r) == old(self).requests_result(key),
            old(self).reaches_form(key) ==> command_views(r) == old(self).task_result(key),
            old(self).reaches_form(key) && editing_key(key) && (old(self).field_at() == 2 || (
            old(self).field_at() == 1 && old(self).target_of() is None)) ==> r is None && old(
                self,
            ).typed(&*final(self), key),
        decreases (if key.code == PanelKey::Enter || key.code == PanelKey::Char(' ') {
            1int
        } else {
            0int
        }),
    {
        if key.code == PanelKey::Esc {
            self.remember_draft();
            let ghost mid = *self;
            self.open = false;
            assert forall|k: Seq<char>| #[trigger] self.draft(k) == old(self).remembered(k) by {
                assert(self.draft(k) == mid.draft(k));
            }
            return None;
        }
        if !self.usable_geometry || self.sending {
            return None;
        }
        if self.projects_open {
            match key.code {
                PanelKey::Up => {
                    if self.project_index > 0 {
                        self.project_index = self.project_index - 1;
                    }
                },
                PanelKey::Down => {
                    let last = if self.projects.len() == 0 { 0 } else { self.projects.len() - 1 };
                    self.project_index = if self.project_index < last { self.project_index + 1 } else { last };
                },
                PanelKey::Enter => {
                    if self.project_index < self.projects.len() {
                        let path = self.projects[self.project_index].1.clone();
                        self.select_project(path);
                    }
                },
                PanelKey::F(7) => {
                    self.projects_open = false;
                },
                _ => {},
            }
            return None;
        }
        if key.code == PanelKey::F(7) && self.target.is_none() && !self.connections_open
            && !self.requests_open {
            self.projects_open = true;
            self.button_focus = None;
            return None;
        }
        if key.code == PanelKey::Enter || key.code == PanelKey::Char(' ') {
            match self.button_focus {
                Some(f) => {
                    if f < self.buttons.len() {
                        assert(quiet_action(self.buttons@[f as int].1));
                        match &self.buttons[f].1 {
                            Action::Control(c) => {
                                let c = copy_command(c);
                                return self.activate(c);
                            },
                            Action::Key(k) => {
                                let k = *k;
                                return self.handle_key(KeyPress::plain(k));
                            },
                            Action::Close => {
                                self.open = false;
                                return None;
                            },
                            Action::ControlProject(_) => {
                                return None;
                            },
                        }
                    }
                },
                None => {},
            }
        }
        let typed = match key.code {
            PanelKey::Char(_) => true,
            _ => false,
        };
        if self.button_focus.is_some() && (typed || key.code == PanelKey::Backspace
            || key.code == PanelKey::Delete) {
            return None;
        }
        if key.code == PanelKey::BackTab && self.target.is_none() && !self.requests_open
            && !self.connections_open && self.button_focus.is_none() {
            self.field = (self.field + 2) % 3;
            return None;
        }
        if (key.code == PanelKey::Tab || key.code == PanelKey::BackTab) && self.buttons.len() > 0 {
            let plain_request = if self.requests_open {
                match nth_visible(&self.status.requests, &self.target, self.request_index) {
                    Some(ri) => self.status.requests[ri].questions.len() == 0,
                    None => false,
                }
            } else {
                false
            };
            if self.button_focus.is_some() || self.connections_open || plain_request || (!self.requests_open
                && !self.connections_open && (self.target.is_some() || self.field == 2)) {
                let len = self.buttons.len();
                let next: usize = if key.code == PanelKey::BackTab {
                    match self.button_focus {
                        Some(f) => if f >= 1 {
                            f - 1
                        } else {
                            len - 1
                        },
                        None => len - 1,
                    }
                } else {
                    match self.button_focus {
                        Some(f) => if f < len {
                            f + 1
                        } else {
                            len
                        },
                        None => 0,
                    }
                };
                if next < len {
                    self.button_focus = Some(next);
                } else {
                    self.field = if self.target.is_none() { 0 } else { 2 };
                    self.question_index = 0;
                    self.button_focus = None;
                }
                return None;
            }
        }
        if self.connections_open {
            if key.code == PanelKey::PageDown {
                self.scroll = if self.scroll <= u16::MAX - 5 { self.scroll + 5 } else { u16::MAX };
                return None;
            }
            if key.code == PanelKey::PageUp {
                self.scroll = if self.scroll >= 5 { self.scroll - 5 } else { 0 };
                return None;
            }
            if key.code == PanelKey::Char('1') {
                return self.activate(Command::Login { provider: Agent::Codex });
            }
            if key.code == PanelKey::Char('2') {
                return self.activate(Command::Login { provider: Agent::Claude });
            }
            if key.code == PanelKey::Char('3') {
                return self.activate(Command::Sources);
            }
            return None;
        }
        if key.code == PanelKey::F(4) {
            self.requests_open = !self.requests_open;
            self.request_index = 0;
            self.scroll = 0;
            return None;
        }
        if self.requests_open {
            return self.requests_key(key);
        }
        self.task_key(key)
    }

    /// Keep the scroll of the text the host drew within `max` lines.
    pub fn clamp_scroll(&mut self, max: u16)
        requires
            old(self).wf(),
        ensures
            final(self).wf(),
            final(self).scroll_at() == if old(self).scroll_at() <= max { old(self).scroll_at() } else { max as nat },
    {
        if self.scroll > max {
            self.scroll = max;
        }
    }

    pub fn scroll(&self) -> (r: u16)
        ensures
            r == self.scroll_at(),
    {
        self.scroll
    }

    /// Lay the buttons out in rows within `area`, as wide as their
    /// `[ label ]` text; buttons that do not fit are dropped, each placed
    /// one gets a clickable region.
    fn place_buttons(&mut self, area: Rect)
        requires
            old(self).wf(),
            area.x + area.width <= u16::MAX,
            area.y + area.height <= u16::MAX,
        ensures
            final(self).wf(),
            *final(self) == (ControlPanel {
                hits: final(self).hits,
                buttons: final(self).buttons,
                button_focus: final(self).button_focus,
                ..*old(self)
            }),
            final(self).buttons@.len() <= old(self).buttons@.len(),
            final(self).hits@.len() == old(self).hits@.len() + final(self).buttons@.len(),
            forall|i: int|
                0 <= i < final(self).buttons@.len() ==> #[trigger] final(self).buttons@[i] == old(self).buttons@[i]
                    && final(self).hits@[old(self).hits@.len() + i].action@ == old(self).buttons@[i].1@,
    {
        let right = area.x + area.width;
        let bottom = area.y + area.height;
        let mut x = area.x;
        let mut y = area.y;
        let mut visible: usize = 0;
        let ghost start_hits = self.hits@;
        while visible < self.buttons.len()
            invariant
                self.wf(),
                *self == (ControlPanel { hits: self.hits, ..*old(self) }),
                visible <= self.buttons@.len(),
                self.hits@.len() == start_hits.len() + visible,
                start_hits == old(self).hits@,
                forall|i: int|
                    0 <= i < visible ==> #[trigger] self.hits@[start_hits.len() + i].action@
                        == self.buttons@[i].1@,
                forall|i: int| 0 <= i < start_hits.len() ==> self.hits@[i] == start_hits[i],
                right == area.x + area.width,
                bottom == area.y + area.height,
            decreases self.buttons.len() - visible,
        {
            let mut text = chars_of("[ ");
            extend_str(&mut text, safe_display(self.buttons[visible].0.as_str()).as_str());
            extend_str(&mut text, " ]");
            let w = line_width(string_of(&text).as_str());
            let width: u16 = if w > area.width as usize { area.width } else { w as u16 };
            if x as u32 + width as u32 > right as u32 {
                x = area.x;
                y = if y < u16::MAX { y + 1 } else { y };
            }
            if y >= bottom {
                break;
            }
            let action = copy_action(&self.buttons[visible].1);
            self.hits.push(HitRegion { area: Rect::new(x, y, width, 1), action });
            visible += 1;
            x = if x as u32 + width as u32 + 1 <= u16::MAX as u32 { x + width + 1 } else { u16::MAX };
        }
        let ghost before = self.buttons@;
        self.buttons.truncate(visible);
        self.button_focus = match self.button_focus {
            Some(f) => if f < visible {
                Some(f)
            } else {
                None
            },
            None => None,
        };
        assert forall|t: int| 0 <= t < self.buttons@.len() implies quiet_action(#[trigger] self.buttons@[t].1) by {
            assert(self.buttons@[t] == before[t]);
        }
    }

    /// What drawing the panel into `area` settles besides the picture: the
    /// panel counts as presented, its buttons are rebuilt and laid out with
    /// their clickable regions, the project rows of the picker become
    /// clickable, and whether the area has room for the controls decides if
    /// keys are taken.
    pub fn present(&mut self, area: Rect)
        requires
            old(self).wf(),
            area.x + area.width <= u16::MAX,
            area.y + area.height <= u16::MAX,
        ensures
            final(self).wf(),
            final(self).was_presented(),
            final(self).geometry_usable() == (area.width >= 28 && area.height >= if old(self).requests_shown()
                || old(self).connections_shown() || old(self).projects_shown() {
                12u16
            } else {
                16u16
            }),
            final(self).target_of() == old(self).target_of(),
            final(self).status_of() == old(self).status_of(),
            final(self).is_sending() == old(self).is_sending(),
            final(self).message_text() == old(self).message_text(),
            final(self).project_text() == old(self).project_text(),
    {
        self.presented = true;
        self.hits.clear();
        self.build_buttons();
        let minimum: u16 = if self.requests_open || self.connections_open || self.projects_open {
            12
        } else {
            16
        };
        self.usable_geometry = area.width >= 28 && area.height >= minimum;
        if !self.usable_geometry {
            return;
        }
        let inner = Rect::new(area.x + 1, area.y + 1, area.width - 2, area.height - 2);
        if self.projects_open {
            let capacity: usize = if inner.height > 4 { (inner.height - 4) as usize } else { 1 };
            let pi = self.project_index;
            let rem = pi % capacity;
            assert(rem <= pi) by (nonlinear_arith)
                requires
                    capacity > 0,
                    rem == pi % capacity,
            ;
            let first = pi - rem;
            let mut index = first;
            let ghost before = *self;
            while index < self.projects.len() && index - first < capacity
                invariant
                    self.wf(),
                    *self == (ControlPanel { hits: self.hits, ..before }),
                    first <= index,
                    capacity == inner.height - 4,
                    inner.height >= 10,
                    inner.y + inner.height <= u16::MAX,
                decreases self.projects.len() - index,
            {
                let row = Rect::new(inner.x, inner.y + 3 + (index - first) as u16, inner.width, 1);
                let path = self.projects[index].1.clone();
                self.hits.push(HitRegion { area: row, action: Action::ControlProject(path) });
                index += 1;
            }
            return;
        }
        if self.connections_open {
            self.place_buttons(Rect::new(inner.x, inner.y + inner.height - 4, inner.width, 3));
            return;
        }
        if self.requests_open {
            let count = visible_count(&self.status.requests, &self.target);
            let last = if count == 0 { 0 } else { count - 1 };
            if self.request_index > last {
                self.request_index = last;
            }
        }
        self.place_buttons(Rect::new(inner.x, inner.y + inner.height - 4, inner.width, 3));
    }
}

/// An action with the same values.
fn copy_action(a: &Action) -> (r: Action)
    ensures
        r@ == a@,
{
    match a {
        Action::Control(c) => Action::Control(copy_command(c)),
        Action::Key(k) => Action::Key(*k),
        Action::Close => Action::Close,
        Action::ControlProject(p) => Action::ControlProject(p.clone()),
    }
}

/// A command with the same values.
fn copy_command(c: &Command) -> (r: Command)
    ensures
        r@ == c@,
{
    match c {
        Command::Sources => Command::Sources,
        Command::Start { provider, project, prompt } => Command::Start {
            provider: *provider,
            project: project.clone(),
            prompt: prompt.clone(),
        },
        Command::Send { worker, prompt } => Command::Send { worker: worker.clone(), prompt: prompt.clone() },
        Command::OpenNative { worker } => Command::OpenNative { worker: worker.clone() },
        Command::Interrupt { worker } => Command::Interrupt { worker: worker.clone() },
        Command::Reconnect { worker } => Command::Reconnect { worker: worker.clone() },
        Command::Reply { request, response } => Command::Reply {
            request: request.clone(),
            response: response.clone(),
        },
        Command::Login { provider } => Command::Login { provider: *provider },
    }
}

proof fn lemma_members_stay_missing(p: &ControlPanel, r: Request, from: nat, to: nat)
    requires
        from <= to,
        p.answer_members(r, from) is None,
    ensures
        p.answer_members(r, to) is None,
    decreases to - from,
{
    if from < to {
        lemma_members_stay_missing(p, r, from, (to - 1) as nat);
    }
}

impl Default for ControlPanel {
    fn default() -> (r: Self)
        ensures
            r.wf(),
            !r.is_open(),
            r.target_of() is None,
            !r.is_sending(),
            !r.geometry_usable(),
    {
        ControlPanel::new()
    }
}

} // verus!
