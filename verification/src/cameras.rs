//! One tile of the camera wall: its frame, title, status line, recording
//! light and clock area, computed from the office's worker statuses.
use vstd::prelude::*;
use crate::color::Color;
use crate::counts::{status_color, status_color_spec, status_count, WorkerStatus};
use crate::layout::{has_area, inset, inset_spec, rect_spec, sat_sub, Rect};
use crate::text::{chars_of, decimal, extend_str, push_decimal, short_path, short_path_text, string_of};

verus! {

/// What a camera tile shows of an office.
pub struct OfficeSummary {
    pub name: String,
    pub statuses: Vec<WorkerStatus>,
    /// The office's floor number on the wall.
    pub floor: usize,
}

/// The parts of a camera tile, for a terminal frame to draw.
pub struct TilePlan {
    pub border: Color,
    pub title: String,
    /// The area inside the frame, where the office's feed goes.
    pub inner: Rect,
    /// The status line: text, colour and area; none when the frame leaves
    /// no room inside.
    pub status: Option<(String, Color, Rect)>,
    /// The blinking recording light and its area, on wide tiles.
    pub rec: Option<(String, Rect)>,
    /// The row for the clock, on tiles at least eight cells wide.
    pub time_area: Option<Rect>,
}

pub open spec fn warning_color() -> Color {
    Color::Rgb(247, 204, 125)
}

pub open spec fn hot_color() -> Color {
    Color::Rgb(255, 145, 145)
}

pub open spec fn accent_color() -> Color {
    Color::Rgb(128, 185, 255)
}

pub open spec fn muted_color() -> Color {
    Color::Rgb(185, 191, 200)
}

/// The frame's colour: amber while someone waits, red when someone failed,
/// the accent when selected, muted otherwise.
pub open spec fn border_color(s: Seq<WorkerStatus>, selected: bool) -> Color {
    if status_count(s, WorkerStatus::Blocked) > 0 {
        warning_color()
    } else if status_count(s, WorkerStatus::Failed) > 0 {
        hot_color()
    } else if selected {
        accent_color()
    } else {
        muted_color()
    }
}

/// The status the tile summarises its office by.
pub open spec fn summary_status(s: Seq<WorkerStatus>) -> WorkerStatus {
    if status_count(s, WorkerStatus::Blocked) > 0 {
        WorkerStatus::Blocked
    } else if status_count(s, WorkerStatus::Failed) > 0 {
        WorkerStatus::Failed
    } else if status_count(s, WorkerStatus::Running) > 0 {
        WorkerStatus::Running
    } else {
        WorkerStatus::Idle
    }
}

/// "! 2 WAITING · 3 working", "× 1 FAILED · 3 working" or "3 working · 1 idle".
pub open spec fn status_line(s: Seq<WorkerStatus>) -> Seq<char> {
    let blocked = status_count(s, WorkerStatus::Blocked);
    let failed = status_count(s, WorkerStatus::Failed);
    let running = status_count(s, WorkerStatus::Running);
    let idle = status_count(s, WorkerStatus::Idle);
    if blocked > 0 {
        "! "@ + decimal(blocked) + " WAITING \u{b7} "@ + decimal(running) + " working"@
    } else if failed > 0 {
        "\u{d7} "@ + decimal(failed) + " FAILED \u{b7} "@ + decimal(running) + " working"@
    } else {
        decimal(running) + " working \u{b7} "@ + decimal(idle) + " idle"@
    }
}

/// "> F3 " for the selected floor 3, "F3 " otherwise.
pub open spec fn floor_prefix(floor: nat, selected: bool) -> Seq<char> {
    (if selected { "> "@ } else { Seq::<char>::empty() }) + seq!['F'] + decimal(floor) + seq![' ']
}

/// The frame's title: the floor and the office's name, shortened to the
/// width the frame leaves.
pub open spec fn tile_title(name: Seq<char>, floor: nat, selected: bool, width: u16) -> Seq<char> {
    let prefix = floor_prefix(floor, selected);
    seq![' '] + prefix + short_path_text(name, sat_sub(sat_sub(width as int, 4), prefix.len() as int) as nat)
        + seq![' ']
}

/// Whether the recording light is lit: in even half-second periods.
pub open spec fn rec_lit(now: int) -> bool {
    (now / 500) % 2 == 0
}

pub open spec fn rec_text(now: int) -> Seq<char> {
    if rec_lit(now) {
        "\u{25cf} REC "@
    } else {
        "\u{25cb} REC "@
    }
}

pub open spec fn wide_tile(inner: Rect) -> bool {
    inner.width >= 42 && inner.height >= 2
}

/// The tile for `office` in `area`.
pub open spec fn tile_plan_spec(
    name: Seq<char>,
    s: Seq<WorkerStatus>,
    floor: nat,
    area: Rect,
    selected: bool,
    now: int,
    plan: TilePlan,
) -> bool {
    let inner = inset_spec(area, 1);
    &&& plan.border == border_color(s, selected)
    &&& plan.title@ == tile_title(name, floor, selected, area.width)
    &&& plan.inner == inner
    &&& if inner.width > 0 && inner.height > 0 {
        &&& plan.status matches Some((t, c, r)) && t@ == status_line(s) && c == status_color_spec(
            summary_status(s),
        ) && r == rect_spec(
            inner.x,
            inner.y,
            if wide_tile(inner) { (inner.width - 8) as u16 } else { inner.width },
            if inner.height < 1 { inner.height } else { 1 },
        )
        &&& if wide_tile(inner) {
            plan.rec matches Some((t, r)) && t@ == rec_text(now) && r == rect_spec(
                (inner.x + inner.width - 7) as u16,
                inner.y,
                7,
                1,
            )
        } else {
            plan.rec is None
        }
        &&& if inner.width >= 8 && inner.height >= 2 {
            plan.time_area == Some(rect_spec(inner.x, (inner.y + inner.height - 1) as u16, inner.width, 1))
        } else {
            plan.time_area is None
        }
    } else {
        &&& plan.status is None
        &&& plan.rec is None
        &&& plan.time_area is None
    }
}

fn count_status(statuses: &Vec<WorkerStatus>, status: WorkerStatus) -> (n: usize)
    ensures
        n == status_count(statuses@, status),
{
    let mut n: usize = 0;
    let mut i: usize = 0;
    while i < statuses.len()
        invariant
            i <= statuses@.len(),
            n == status_count(statuses@.take(i as int), status),
            n <= i,
        decreases statuses.len() - i,
    {
        assert(statuses@.take(i + 1).drop_last() =~= statuses@.take(i as int));
        if statuses[i] == status {
            n += 1;
        }
        i += 1;
    }
    assert(statuses@.take(i as int) =~= statuses@);
    n
}

fn status_text(blocked: usize, failed: usize, running: usize, idle: usize) -> (r: Vec<char>)
    ensures
        r@ == if blocked > 0 {
            "! "@ + decimal(blocked as nat) + " WAITING \u{b7} "@ + decimal(running as nat) + " working"@
        } else if failed > 0 {
            "\u{d7} "@ + decimal(failed as nat) + " FAILED \u{b7} "@ + decimal(running as nat) + " working"@
        } else {
            decimal(running as nat) + " working \u{b7} "@ + decimal(idle as nat) + " idle"@
        },
{
    let mut out: Vec<char> = Vec::new();
    if blocked > 0 {
        extend_str(&mut out, "! ");
        push_decimal(&mut out, blocked as u64);
        extend_str(&mut out, " WAITING \u{b7} ");
        push_decimal(&mut out, running as u64);
        extend_str(&mut out, " working");
    } else if failed > 0 {
        extend_str(&mut out, "\u{d7} ");
        push_decimal(&mut out, failed as u64);
        extend_str(&mut out, " FAILED \u{b7} ");
        push_decimal(&mut out, running as u64);
        extend_str(&mut out, " working");
    } else {
        push_decimal(&mut out, running as u64);
        extend_str(&mut out, " working \u{b7} ");
        push_decimal(&mut out, idle as u64);
        extend_str(&mut out, " idle");
    }
    out
}

/// Whether floor(now / 500) is even, without a signed division: shifting
/// `now` by a multiple of 1000 keeps that parity and makes it positive.
fn rec_on(now: i64) -> (r: bool)
    ensures
        r == rec_lit(now as int),
{
    let shift: i128 = 500 * 0x80_0000_0000_0000;
    let shifted = (now as i128 + shift) as u128;
    let q = shifted / 500;
    proof {
        let n = now as int;
        assert((n + 500 * 0x80_0000_0000_0000) / 500 == n / 500 + 0x80_0000_0000_0000) by (nonlinear_arith);
        assert((n / 500 + 0x80_0000_0000_0000) % 2 == (n / 500) % 2) by (nonlinear_arith);
    }
    q % 2 == 0
}

/// The plan of one camera tile in `area`.
pub fn camera_tile(office: &OfficeSummary, area: Rect, selected: bool, now: i64) -> (r: TilePlan)
    ensures
        tile_plan_spec(office.name@, office.statuses@, office.floor as nat, area, selected, now as int, r),
{
    let blocked = count_status(&office.statuses, WorkerStatus::Blocked);
    let failed = count_status(&office.statuses, WorkerStatus::Failed);
    let running = count_status(&office.statuses, WorkerStatus::Running);
    let idle = count_status(&office.statuses, WorkerStatus::Idle);
    let border = if blocked > 0 {
        Color::Rgb(247, 204, 125)
    } else if failed > 0 {
        Color::Rgb(255, 145, 145)
    } else if selected {
        Color::Rgb(128, 185, 255)
    } else {
        Color::Rgb(185, 191, 200)
    };
    let mut prefix: Vec<char> = Vec::new();
    if selected {
        extend_str(&mut prefix, "> ");
    }
    prefix.push('F');
    push_decimal(&mut prefix, office.floor as u64);
    prefix.push(' ');
    assert(prefix@ =~= floor_prefix(office.floor as nat, selected));
    let title_width: usize = if area.width >= 4 { (area.width - 4) as usize } else { 0 };
    let room: usize = if title_width >= prefix.len() { title_width - prefix.len() } else { 0 };
    let shown = short_path(office.name.as_str(), room);
    let mut title: Vec<char> = Vec::new();
    title.push(' ');
    let mut k: usize = 0;
    while k < prefix.len()
        invariant
            k <= prefix@.len(),
            title@ == seq![' '] + prefix@.take(k as int),
        decreases prefix.len() - k,
    {
        title.push(prefix[k]);
        k += 1;
        assert(title@ =~= seq![' '] + prefix@.take(k as int));
    }
    assert(prefix@.take(k as int) =~= prefix@);
    extend_str(&mut title, shown.as_str());
    title.push(' ');
    assert(title@ =~= tile_title(office.name@, office.floor as nat, selected, area.width));
    let inner = inset(area, 1);
    if !has_area(inner) {
        return TilePlan { border, title: string_of(&title), inner, status: None, rec: None, time_area: None };
    }
    let summary = if blocked > 0 {
        WorkerStatus::Blocked
    } else if failed > 0 {
        WorkerStatus::Failed
    } else if running > 0 {
        WorkerStatus::Running
    } else {
        WorkerStatus::Idle
    };
    let text = status_text(blocked, failed, running, idle);
    let wide = inner.width >= 42 && inner.height >= 2;
    let status_width = if wide { inner.width - 8 } else { inner.width };
    let status_height = if inner.height < 1 { inner.height } else { 1 };
    let status_area = Rect::new(inner.x, inner.y, status_width, status_height);
    let rec = if wide {
        let lit = rec_on(now);
        let label = if lit { "\u{25cf} REC " } else { "\u{25cb} REC " };
        Some((label.to_owned(), Rect::new(inner.x + inner.width - 7, inner.y, 7, 1)))
    } else {
        None
    };
    let time_area = if inner.width >= 8 && inner.height >= 2 {
        Some(Rect::new(inner.x, inner.y + inner.height - 1, inner.width, 1))
    } else {
        None
    };
    TilePlan {
        border,
        title: string_of(&title),
        inner,
        status: Some((string_of(&text), status_color(summary), status_area)),
        rec,
        time_area,
    }
}

} // verus!
