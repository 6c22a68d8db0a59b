//! The selectable views: camera projections, phone and notebook channels,
//! task tabs and colour depths, with the cycles that move between them.
use vstd::prelude::*;

verus! {

// ---------------------------------------------------------------------------
// Office projections
// ---------------------------------------------------------------------------

#[derive(Debug, Clone, Copy, PartialEq, Eq, Structural)]
pub enum Projection {
    Auto,
    Iso,
    TopDown,
    Side,
    List,
}

pub open spec fn projection_next(p: Projection) -> Projection {
    match p {
        Projection::Auto => Projection::Iso,
        Projection::Iso => Projection::TopDown,
        Projection::TopDown => Projection::Side,
        Projection::Side => Projection::List,
        Projection::List => Projection::Auto,
    }
}

pub open spec fn projection_previous(p: Projection) -> Projection {
    match p {
        Projection::Auto => Projection::List,
        Projection::Iso => Projection::Auto,
        Projection::TopDown => Projection::Iso,
        Projection::Side => Projection::TopDown,
        Projection::List => Projection::Side,
    }
}

pub open spec fn projection_label(p: Projection) -> Seq<char> {
    match p {
        Projection::Auto => "auto"@,
        Projection::Iso => "isometric"@,
        Projection::TopDown => "top-down"@,
        Projection::Side => "side"@,
        Projection::List => "list"@,
    }
}

impl Projection {
    pub fn next(self) -> (r: Self)
        ensures
            r == projection_next(self),
    {
        match self {
            Self::Auto => Self::Iso,
            Self::Iso => Self::TopDown,
            Self::TopDown => Self::Side,
            Self::Side => Self::List,
            Self::List => Self::Auto,
        }
    }

    pub fn previous(self) -> (r: Self)
        ensures
            r == projection_previous(self),
    {
        match self {
            Self::Auto => Self::List,
            Self::Iso => Self::Auto,
            Self::TopDown => Self::Iso,
            Self::Side => Self::TopDown,
            Self::List => Self::Side,
        }
    }

    pub fn label(self) -> (r: &'static str)
        ensures
            r@ == projection_label(self),
    {
        match self {
            Self::Auto => "auto",
            Self::Iso => "isometric",
            Self::TopDown => "top-down",
            Self::Side => "side",
            Self::List => "list",
        }
    }
}

/// Stepping forward then back (or back then forward) returns to the same view.
pub proof fn law_projection_cycle_is_reversible(p: Projection)
    ensures
        projection_previous(projection_next(p)) == p,
        projection_next(projection_previous(p)) == p,
{
}

/// Five steps forward visit every view once and come back.
pub proof fn law_projection_cycle_visits_every_view(p: Projection, q: Projection)
    ensures
        q == p || q == projection_next(p) || q == projection_next(projection_next(p)) || q
            == projection_next(projection_next(projection_next(p))) || q == projection_next(
            projection_next(projection_next(projection_next(p))),
        ),
        projection_next(projection_next(projection_next(projection_next(projection_next(p)))))
            == p,
{
}

/// Room needs at least this many columns and rows of body.
pub const ISO_MIN_WIDTH: u16 = 128;
pub const ISO_MIN_HEIGHT: u16 = 36;
pub const TOP_DOWN_MIN_WIDTH: u16 = 80;
pub const TOP_DOWN_MIN_HEIGHT: u16 = 16;
pub const SIDE_MIN_WIDTH: u16 = 60;
pub const SIDE_MIN_HEIGHT: u16 = 13;

pub open spec fn effective_projection_spec(projection: Projection, width: int, height: int) -> Projection {
    match projection {
        Projection::Auto => if width >= ISO_MIN_WIDTH && height >= ISO_MIN_HEIGHT {
            Projection::Iso
        } else if width >= TOP_DOWN_MIN_WIDTH && height >= TOP_DOWN_MIN_HEIGHT {
            Projection::TopDown
        } else if width >= SIDE_MIN_WIDTH && height >= SIDE_MIN_HEIGHT {
            Projection::Side
        } else {
            Projection::List
        },
        other => other,
    }
}

/// The view actually drawn: an explicit choice is kept; automatic picks the
/// richest view the body has room for.
pub fn effective_projection(projection: Projection, width: u16, height: u16) -> (r: Projection)
    ensures
        r == effective_projection_spec(projection, width as int, height as int),
{
    match projection {
        Projection::Auto => if width >= ISO_MIN_WIDTH && height >= ISO_MIN_HEIGHT {
            Projection::Iso
        } else if width >= TOP_DOWN_MIN_WIDTH && height >= TOP_DOWN_MIN_HEIGHT {
            Projection::TopDown
        } else if width >= SIDE_MIN_WIDTH && height >= SIDE_MIN_HEIGHT {
            Projection::Side
        } else {
            Projection::List
        },
        other => other,
    }
}

/// Automatic selection always resolves to a concrete view, resolving again
/// changes nothing, and more room never yields a plainer view.
pub proof fn law_auto_projection_resolves_and_is_monotone(
    projection: Projection,
    width: int,
    height: int,
    wider: int,
    taller: int,
)
    requires
        width <= wider,
        height <= taller,
    ensures
        effective_projection_spec(projection, width, height) != Projection::Auto,
        effective_projection_spec(effective_projection_spec(projection, width, height), width, height)
            == effective_projection_spec(projection, width, height),
        detail_rank(effective_projection_spec(Projection::Auto, width, height)) <= detail_rank(
            effective_projection_spec(Projection::Auto, wider, taller),
        ),
{
}

/// How much of the room a concrete view draws, plainest first.
pub open spec fn detail_rank(p: Projection) -> int {
    match p {
        Projection::List => 0,
        Projection::Side => 1,
        Projection::TopDown => 2,
        Projection::Iso => 3,
        Projection::Auto => 4,
    }
}

// ---------------------------------------------------------------------------
// Phone channels
// ---------------------------------------------------------------------------

#[derive(Debug, Clone, Copy, PartialEq, Eq, Structural)]
pub enum PhoneChannel {
    Standup,
    Blocked,
    Shipping,
    Watercooler,
}

pub open spec fn phone_next(c: PhoneChannel) -> PhoneChannel {
    match c {
        PhoneChannel::Standup => PhoneChannel::Blocked,
        PhoneChannel::Blocked => PhoneChannel::Shipping,
        PhoneChannel::Shipping => PhoneChannel::Watercooler,
        PhoneChannel::Watercooler => PhoneChannel::Standup,
    }
}

pub open spec fn phone_previous(c: PhoneChannel) -> PhoneChannel {
    match c {
        PhoneChannel::Standup => PhoneChannel::Watercooler,
        PhoneChannel::Blocked => PhoneChannel::Standup,
        PhoneChannel::Shipping => PhoneChannel::Blocked,
        PhoneChannel::Watercooler => PhoneChannel::Shipping,
    }
}

pub open spec fn phone_label(c: PhoneChannel) -> Seq<char> {
    match c {
        PhoneChannel::Standup => "Now"@,
        PhoneChannel::Blocked => "Attention"@,
        PhoneChannel::Shipping => "Edits"@,
        PhoneChannel::Watercooler => "Messages"@,
    }
}

impl PhoneChannel {
    pub fn label(self) -> (r: &'static str)
        ensures
            r@ == phone_label(self),
    {
        match self {
            Self::Standup => "Now",
            Self::Blocked => "Attention",
            Self::Shipping => "Edits",
            Self::Watercooler => "Messages",
        }
    }

    pub fn next(self) -> (r: Self)
        ensures
            r == phone_next(self),
    {
        match self {
            Self::Standup => Self::Blocked,
            Self::Blocked => Self::Shipping,
            Self::Shipping => Self::Watercooler,
            Self::Watercooler => Self::Standup,
        }
    }

    pub fn previous(self) -> (r: Self)
        ensures
            r == phone_previous(self),
    {
        match self {
            Self::Standup => Self::Watercooler,
            Self::Blocked => Self::Standup,
            Self::Shipping => Self::Blocked,
            Self::Watercooler => Self::Shipping,
        }
    }
}

/// The phone's channels cycle in both directions: each step can be undone,
/// and four steps return to the start.
pub proof fn law_phone_channels_cycle(c: PhoneChannel)
    ensures
        phone_previous(phone_next(c)) == c,
        phone_next(phone_previous(c)) == c,
        phone_next(phone_next(phone_next(phone_next(c)))) == c,
{
}

// ---------------------------------------------------------------------------
// Notebook channels
// ---------------------------------------------------------------------------

#[derive(Debug, Clone, Copy, PartialEq, Eq, Structural)]
pub enum Channel {
    Attention,
    Deliveries,
    Changes,
    Team,
}

pub open spec fn channel_index(c: Channel) -> nat {
    match c {
        Channel::Attention => 0,
        Channel::Deliveries => 1,
        Channel::Changes => 2,
        Channel::Team => 3,
    }
}

pub open spec fn channel_at(index: nat) -> Channel {
    let i = index % 4;
    if i == 0 {
        Channel::Attention
    } else if i == 1 {
        Channel::Deliveries
    } else if i == 2 {
        Channel::Changes
    } else {
        Channel::Team
    }
}

pub open spec fn channel_label(c: Channel) -> Seq<char> {
    match c {
        Channel::Attention => "Attention"@,
        Channel::Deliveries => "Deliveries"@,
        Channel::Changes => "Since your visit"@,
        Channel::Team => "Team"@,
    }
}

impl Channel {
    pub fn default_channel() -> (r: Self)
        ensures
            r == Channel::Attention,
    {
        Channel::Attention
    }

    pub fn label(self) -> (r: &'static str)
        ensures
            r@ == channel_label(self),
    {
        match self {
            Self::Attention => "Attention",
            Self::Deliveries => "Deliveries",
            Self::Changes => "Since your visit",
            Self::Team => "Team",
        }
    }

    pub fn index(self) -> (r: usize)
        ensures
            r == channel_index(self),
    {
        match self {
            Self::Attention => 0,
            Self::Deliveries => 1,
            Self::Changes => 2,
            Self::Team => 3,
        }
    }

    pub fn at(index: usize) -> (r: Self)
        ensures
            r == channel_at(index as nat),
    {
        let i = index % 4;
        if i == 0 {
            Self::Attention
        } else if i == 1 {
            Self::Deliveries
        } else if i == 2 {
            Self::Changes
        } else {
            Self::Team
        }
    }
}

/// A channel's index leads back to it, and any index leads to the channel
/// at that index modulo four, so stepping by `index + 1` wraps around.
pub proof fn law_channel_index_round_trip(c: Channel, index: nat)
    ensures
        channel_at(channel_index(c)) == c,
        channel_index(channel_at(index)) == index % 4,
        channel_at(index + 4) == channel_at(index),
{
}

// ---------------------------------------------------------------------------
// Task tabs and colour depths
// ---------------------------------------------------------------------------

#[derive(Debug, Clone, Copy, PartialEq, Eq, Structural)]
pub enum WorkTab {
    Now,
    Activity,
    Team,
    Details,
}

pub open spec fn work_tab_label(t: WorkTab) -> Seq<char> {
    match t {
        WorkTab::Now => "Now"@,
        WorkTab::Activity => "Activity"@,
        WorkTab::Team => "Team"@,
        WorkTab::Details => "Details"@,
    }
}

impl WorkTab {
    pub fn default_tab() -> (r: Self)
        ensures
            r == WorkTab::Now,
    {
        WorkTab::Now
    }

    /// Every tab, in display order.
    pub fn all() -> (r: [Self; 4])
        ensures
            r@ == seq![WorkTab::Now, WorkTab::Activity, WorkTab::Team, WorkTab::Details],
    {
        [Self::Now, Self::Activity, Self::Team, Self::Details]
    }

    pub fn label(self) -> (r: &'static str)
        ensures
            r@ == work_tab_label(self),
    {
        match self {
            Self::Now => "Now",
            Self::Activity => "Activity",
            Self::Team => "Team",
            Self::Details => "Details",
        }
    }
}

/// How many colours the terminal renders.
#[derive(Debug, Clone, Copy, PartialEq, Eq, Structural)]
pub enum ColorDepth {
    TrueColor,
    Palette256,
    Monochrome,
}

pub open spec fn color_depth_text(depth: ColorDepth) -> Seq<char> {
    match depth {
        ColorDepth::TrueColor => "truecolor"@,
        ColorDepth::Palette256 => "256"@,
        ColorDepth::Monochrome => "none"@,
    }
}

pub fn color_depth_label(depth: ColorDepth) -> (r: &'static str)
    ensures
        r@ == color_depth_text(depth),
{
    match depth {
        ColorDepth::TrueColor => "truecolor",
        ColorDepth::Palette256 => "256",
        ColorDepth::Monochrome => "none",
    }
}

} // verus!
