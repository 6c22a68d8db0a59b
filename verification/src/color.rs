//! Colours: blending, the day/night sky, office palettes and the light theme.
use vstd::prelude::*;

verus! {

/// A terminal colour: the terminal's default, one of its sixteen named
/// colours, a 256-colour palette entry, or an RGB value.
#[derive(Debug, Clone, Copy, PartialEq, Eq, Structural)]
pub enum Color {
    Reset,
    Named(u8),
    Indexed(u8),
    Rgb(u8, u8, u8),
}

// ---------------------------------------------------------------------------
// Blending
// ---------------------------------------------------------------------------

/// `from` moved `amount`/255 of the way to `to`, rounded to nearest.
pub open spec fn blend_channel_spec(from: u8, to: u8, amount: u16) -> u8 {
    ((from * (255 - amount) + to * amount + 127) / 255) as u8
}

pub fn blend_channel(from: u8, to: u8, amount: u16) -> (r: u8)
    requires
        amount <= 255,
    ensures
        r == blend_channel_spec(from, to, amount),
        amount == 0 ==> r == from,
        amount == 255 ==> r == to,
        (from <= to ==> from <= r <= to) && (to <= from ==> to <= r <= from),
{
    let keep = (255 - amount) as u32;
    let take = amount as u32;
    assert(from as u32 * keep <= 255 * 255) by (nonlinear_arith)
        requires
            keep <= 255,
            from <= 255,
    ;
    assert(to as u32 * take <= 255 * 255) by (nonlinear_arith)
        requires
            take <= 255,
            to <= 255,
    ;
    let weighted = from as u32 * keep + to as u32 * take;
    let r = ((weighted + 127) / 255) as u8;
    proof {
        let f = from as int;
        let t = to as int;
        let a = amount as int;
        let w = f * (255 - a) + t * a;
        if f <= t {
            assert(f * 255 <= w <= t * 255) by (nonlinear_arith)
                requires
                    w == f * (255 - a) + t * a,
                    0 <= a <= 255,
                    f <= t,
            ;
        } else {
            assert(t * 255 <= w <= f * 255) by (nonlinear_arith)
                requires
                    w == f * (255 - a) + t * a,
                    0 <= a <= 255,
                    t <= f,
            ;
        }
        assert(a == 0 ==> w == f * 255) by (nonlinear_arith)
            requires
                w == f * (255 - a) + t * a,
        ;
        assert(a == 255 ==> w == t * 255) by (nonlinear_arith)
            requires
                w == f * (255 - a) + t * a,
        ;
    }
    r
}

pub open spec fn clamp_amount(amount: u16) -> u16 {
    if amount > 255 {
        255
    } else {
        amount
    }
}

pub open spec fn blend_color_spec(from: Color, to: Color, amount: u16) -> Color {
    let a = clamp_amount(amount);
    match (from, to) {
        (Color::Rgb(fr, fg, fb), Color::Rgb(tr, tg, tb)) => Color::Rgb(
            blend_channel_spec(fr, tr, a),
            blend_channel_spec(fg, tg, a),
            blend_channel_spec(fb, tb, a),
        ),
        _ => if a < 128 {
            from
        } else {
            to
        },
    }
}

/// Blend two colours channel by channel; a non-RGB colour switches at half way.
pub fn blend_color(from: Color, to: Color, amount: u16) -> (r: Color)
    ensures
        r == blend_color_spec(from, to, amount),
{
    let amount = if amount > 255 {
        255
    } else {
        amount
    };
    match (from, to) {
        (Color::Rgb(fr, fg, fb), Color::Rgb(tr, tg, tb)) => Color::Rgb(
            blend_channel(fr, tr, amount),
            blend_channel(fg, tg, amount),
            blend_channel(fb, tb, amount),
        ),
        _ => if amount < 128 {
            from
        } else {
            to
        },
    }
}

/// Blending by nothing keeps the first colour; blending fully gives the second.
pub proof fn law_blend_endpoints(from: Color, to: Color)
    ensures
        blend_color_spec(from, to, 0) == from,
        blend_color_spec(from, to, 255) == to,
{
    match (from, to) {
        (Color::Rgb(fr, fg, fb), Color::Rgb(tr, tg, tb)) => {
            assert(blend_channel_spec(fr, tr, 0) == fr);
            assert(blend_channel_spec(fg, tg, 0) == fg);
            assert(blend_channel_spec(fb, tb, 0) == fb);
            assert(blend_channel_spec(fr, tr, 255) == tr);
            assert(blend_channel_spec(fg, tg, 255) == tg);
            assert(blend_channel_spec(fb, tb, 255) == tb);
        },
        _ => {},
    }
}

// ---------------------------------------------------------------------------
// Time of day
// ---------------------------------------------------------------------------

pub const SKY_CYCLE_MS: u64 = 90_000;

/// Milliseconds into a repeating period; negative times count as zero.
pub open spec fn phase_spec(now: i64, period: u64) -> u64 {
    if period == 0 {
        0
    } else if now < 0 {
        0
    } else {
        ((now as int) % (period as int)) as u64
    }
}

pub fn phase_ms(now: i64, period: u64) -> (r: u64)
    ensures
        r == phase_spec(now, period),
        period > 0 ==> r < period,
{
    if period == 0 {
        return 0;
    }
    if now < 0 {
        return 0;
    }
    let t: u64 = now as u64;
    assert(t as int == now as int);
    t % period
}

/// Daylight rises from 0 at midnight to 255 half way through the sky cycle,
/// then falls back.
pub open spec fn daylight_spec(now: i64) -> u16 {
    let half = (SKY_CYCLE_MS / 2) as int;
    let phase = phase_spec(now, SKY_CYCLE_MS) as int;
    let distance = if phase <= half {
        phase
    } else {
        SKY_CYCLE_MS - phase
    };
    (distance * 255 / half) as u16
}

pub fn daylight_amount(now: i64) -> (r: u16)
    ensures
        r == daylight_spec(now),
        r <= 255,
{
    let half = SKY_CYCLE_MS / 2;
    let phase = phase_ms(now, SKY_CYCLE_MS);
    let distance = if phase <= half {
        phase
    } else {
        SKY_CYCLE_MS - phase
    };
    assert(distance * 255 / (half as int) <= 255) by (nonlinear_arith)
        requires
            distance <= half,
            half == 45_000,
    ;
    (distance * 255 / half) as u16
}

pub open spec fn night_sky_top() -> Color {
    Color::Rgb(13, 11, 20)
}

pub open spec fn night_sky_bottom() -> Color {
    Color::Rgb(58, 51, 88)
}

pub open spec fn day_sky_top() -> Color {
    Color::Rgb(88, 214, 232)
}

pub open spec fn day_sky_bottom() -> Color {
    Color::Rgb(90, 169, 201)
}

pub open spec fn sky_row_amount(row: usize, height: usize) -> u16 {
    if height <= 1 {
        0
    } else {
        let r = if row < height - 1 {
            row
        } else {
            (height - 1) as usize
        };
        ((r as u32) * 255 / (((height - 1) as usize as u32) as int)) as u16
    }
}

/// The sky colour of one row: a vertical gradient whose ends follow the daylight.
pub open spec fn sky_color_spec(now: i64, row: usize, height: usize) -> Color {
    let daylight = daylight_spec(now);
    let top = blend_color_spec(night_sky_top(), day_sky_top(), daylight);
    let bottom = blend_color_spec(night_sky_bottom(), day_sky_bottom(), daylight);
    blend_color_spec(top, bottom, sky_row_amount(row, height))
}

pub fn sky_color(now: i64, row: usize, height: usize) -> (r: Color)
    requires
        height <= 1 || (if row < height - 1 {
            row
        } else {
            (height - 1) as usize
        }) as u32 * 255 <= u32::MAX,
        height <= 1 || (height - 1) as usize as u32 > 0,
    ensures
        r == sky_color_spec(now, row, height),
{
    let daylight = daylight_amount(now);
    let top = blend_color(Color::Rgb(13, 11, 20), Color::Rgb(88, 214, 232), daylight);
    let bottom = blend_color(Color::Rgb(58, 51, 88), Color::Rgb(90, 169, 201), daylight);
    let row_amount: u16 = if height <= 1 {
        0
    } else {
        let r = if row < height - 1 {
            row
        } else {
            height - 1
        };
        ((r as u32) * 255 / ((height - 1) as u32)) as u16
    };
    blend_color(top, bottom, row_amount)
}

// ---------------------------------------------------------------------------
// Office palettes
// ---------------------------------------------------------------------------

/// The four materials of an office palette: trim, wall, floor and accent.
pub open spec fn palette_spec(theme: usize, light: bool) -> Seq<Color> {
    let accents = seq![(113u8, 137u8, 133u8), (110u8, 130u8, 153u8), (124u8, 141u8, 112u8), (138u8, 125u8, 145u8)];
    let (r, g, b) = accents[(theme % 4) as int];
    if light {
        seq![
            Color::Rgb(196, 201, 201),
            Color::Rgb(243, 243, 239),
            seq![Color::Rgb(226, 214, 193), Color::Rgb(217, 215, 207), Color::Rgb(221, 218, 198), Color::Rgb(223, 213, 209)][(theme % 4) as int],
            Color::Rgb(r, g, b),
        ]
    } else {
        seq![
            Color::Rgb(43, 48, 53),
            Color::Rgb(65, 69, 73),
            seq![Color::Rgb(104, 96, 82), Color::Rgb(91, 97, 104), Color::Rgb(95, 102, 86), Color::Rgb(101, 93, 100)][(theme % 4) as int],
            Color::Rgb(r, g, b),
        ]
    }
}

pub fn palette(theme: usize, light: bool) -> (r: [Color; 4])
    ensures
        r@ == palette_spec(theme, light),
{
    let t = theme % 4;
    let (r, g, b): (u8, u8, u8) = if t == 0 {
        (113, 137, 133)
    } else if t == 1 {
        (110, 130, 153)
    } else if t == 2 {
        (124, 141, 112)
    } else {
        (138, 125, 145)
    };
    let floor = if light {
        if t == 0 {
            Color::Rgb(226, 214, 193)
        } else if t == 1 {
            Color::Rgb(217, 215, 207)
        } else if t == 2 {
            Color::Rgb(221, 218, 198)
        } else {
            Color::Rgb(223, 213, 209)
        }
    } else {
        if t == 0 {
            Color::Rgb(104, 96, 82)
        } else if t == 1 {
            Color::Rgb(91, 97, 104)
        } else if t == 2 {
            Color::Rgb(95, 102, 86)
        } else {
            Color::Rgb(101, 93, 100)
        }
    };
    let out = if light {
        [Color::Rgb(196, 201, 201), Color::Rgb(243, 243, 239), floor, Color::Rgb(r, g, b)]
    } else {
        [Color::Rgb(43, 48, 53), Color::Rgb(65, 69, 73), floor, Color::Rgb(r, g, b)]
    };
    assert(out@ =~= palette_spec(theme, light));
    out
}

/// The room materials a palette repaints: each pair maps an authored colour
/// to its palette replacement.
pub open spec fn room_materials_spec(theme: usize, light: bool) -> Seq<(Color, Color)> {
    let p = palette_spec(theme, light);
    let wall = p[1];
    let floor = p[2];
    let dark = blend_color_spec(floor, Color::Rgb(26, 22, 38), 65);
    let mid = match floor {
        Color::Rgb(r, g, b) => if r + g + b < 360 {
            blend_color_spec(floor, Color::Rgb(170, 190, 218), 90)
        } else {
            blend_color_spec(floor, dark, 120)
        },
        _ => blend_color_spec(floor, dark, 120),
    };
    seq![
        (Color::Rgb(220, 201, 164), floor),
        (Color::Rgb(156, 135, 99), dark),
        (Color::Rgb(192, 170, 130), mid),
        (Color::Rgb(64, 68, 72), wall),
        (Color::Rgb(188, 145, 93), floor),
        (Color::Rgb(224, 181, 115), mid),
        (Color::Rgb(91, 82, 112), wall),
        (Color::Rgb(117, 103, 139), blend_color_spec(wall, floor, 32)),
    ]
}

/// Dark floors get light seams: darkening both samples would collapse them
/// into one ANSI-256 colour.
pub fn room_materials(theme: usize, light: bool) -> (r: Vec<(Color, Color)>)
    ensures
        r@ == room_materials_spec(theme, light),
{
    let p = palette(theme, light);
    let wall = p[1];
    let floor = p[2];
    let dark = blend_color(floor, Color::Rgb(26, 22, 38), 65);
    let mid = match floor {
        Color::Rgb(r, g, b) => if (r as u16) + (g as u16) + (b as u16) < 360 {
            blend_color(floor, Color::Rgb(170, 190, 218), 90)
        } else {
            blend_color(floor, dark, 120)
        },
        _ => blend_color(floor, dark, 120),
    };
    let trim = blend_color(wall, floor, 32);
    let out = vec![
        (Color::Rgb(220, 201, 164), floor),
        (Color::Rgb(156, 135, 99), dark),
        (Color::Rgb(192, 170, 130), mid),
        (Color::Rgb(64, 68, 72), wall),
        (Color::Rgb(188, 145, 93), floor),
        (Color::Rgb(224, 181, 115), mid),
        (Color::Rgb(91, 82, 112), wall),
        (Color::Rgb(117, 103, 139), trim),
    ];
    assert(out@ =~= room_materials_spec(theme, light));
    out
}

// ---------------------------------------------------------------------------
// The light theme
// ---------------------------------------------------------------------------

/// The light-theme counterpart of a dark-theme colour; colours without a
/// counterpart (worker clothing, alerts drawn in art) are kept.
pub open spec fn light_color_spec(c: Color) -> Color {
    match c {
        Color::Rgb(24, 26, 29) => Color::Rgb(247, 247, 245),
        Color::Rgb(34, 37, 41) => Color::Rgb(237, 239, 240),
        Color::Rgb(60, 46, 28) => Color::Rgb(237, 219, 176),
        Color::Rgb(48, 53, 59) => Color::Rgb(215, 222, 231),
        Color::Rgb(245, 246, 248) => Color::Rgb(28, 31, 36),
        Color::Rgb(128, 185, 255) => Color::Rgb(0, 85, 180),
        Color::Rgb(190, 200, 216) => Color::Rgb(55, 75, 101),
        Color::Rgb(185, 191, 200) => Color::Rgb(79, 84, 92),
        Color::Rgb(64, 68, 72) => Color::Rgb(243, 243, 239),
        Color::Rgb(43, 37, 66) => Color::Rgb(213, 217, 216),
        Color::Rgb(220, 201, 164) | Color::Rgb(192, 170, 130) | Color::Rgb(156, 135, 99) => Color::Rgb(
            226,
            214,
            193,
        ),
        Color::Rgb(138, 90, 56) => Color::Rgb(190, 164, 128),
        Color::Rgb(107, 68, 41) | Color::Rgb(84, 51, 31) => Color::Rgb(142, 119, 91),
        Color::Rgb(255, 145, 145) => Color::Rgb(165, 35, 46),
        Color::Rgb(247, 204, 125) => Color::Rgb(112, 72, 9),
        Color::Rgb(147, 214, 172) => Color::Rgb(26, 99, 58),
        other => other,
    }
}

pub fn light_color(color: Color) -> (r: Color)
    ensures
        r == light_color_spec(color),
{
    match color {
        Color::Rgb(24, 26, 29) => Color::Rgb(247, 247, 245),
        Color::Rgb(34, 37, 41) => Color::Rgb(237, 239, 240),
        Color::Rgb(60, 46, 28) => Color::Rgb(237, 219, 176),
        Color::Rgb(48, 53, 59) => Color::Rgb(215, 222, 231),
        Color::Rgb(245, 246, 248) => Color::Rgb(28, 31, 36),
        Color::Rgb(128, 185, 255) => Color::Rgb(0, 85, 180),
        Color::Rgb(190, 200, 216) => Color::Rgb(55, 75, 101),
        Color::Rgb(185, 191, 200) => Color::Rgb(79, 84, 92),
        Color::Rgb(64, 68, 72) => Color::Rgb(243, 243, 239),
        Color::Rgb(43, 37, 66) => Color::Rgb(213, 217, 216),
        Color::Rgb(220, 201, 164) | Color::Rgb(192, 170, 130) | Color::Rgb(156, 135, 99) => Color::Rgb(
            226,
            214,
            193,
        ),
        Color::Rgb(138, 90, 56) => Color::Rgb(190, 164, 128),
        Color::Rgb(107, 68, 41) | Color::Rgb(84, 51, 31) => Color::Rgb(142, 119, 91),
        Color::Rgb(255, 145, 145) => Color::Rgb(165, 35, 46),
        Color::Rgb(247, 204, 125) => Color::Rgb(112, 72, 9),
        Color::Rgb(147, 214, 172) => Color::Rgb(26, 99, 58),
        other => other,
    }
}

} // verus!
