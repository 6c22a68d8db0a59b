//! Terminal-safe text: control and emoji substitution, decimal labels,
//! cell-width elision and lossless wrapping.
use vstd::prelude::*;

verus! {

// ---------------------------------------------------------------------------
// Character classes
// ---------------------------------------------------------------------------

/// The substitute drawn in place of characters a terminal cannot show safely.
pub open spec fn substitute() -> char {
    '\u{b7}'
}

/// Unicode general category Cc: the C0 and C1 control codes.
pub open spec fn is_control_code(code: u32) -> bool {
    code <= 0x1f || (0x7f <= code && code <= 0x9f)
}

/// Characters that are replaced before any record text reaches the terminal:
/// controls, pictographs, dingbats and the emoji presentation selector.
pub open spec fn needs_substitute(c: char) -> bool {
    let code = c as u32;
    ||| is_control_code(code)
    ||| (0x1f000 <= code && code <= 0x1faff)
    ||| (0x2600 <= code && code <= 0x27bf)
    ||| code == 0xfe0f
}

pub open spec fn safe_char(c: char) -> char {
    if needs_substitute(c) {
        substitute()
    } else {
        c
    }
}

/// The terminal-safe rendering of a text, one character for one character.
pub open spec fn safe_text(s: Seq<char>) -> Seq<char> {
    s.map_values(|c: char| safe_char(c))
}

/// Like `safe_text`, but explicit line breaks survive.
pub open spec fn safe_lines_text(s: Seq<char>) -> Seq<char> {
    s.map_values(|c: char| if c == '\n' { '\n' } else { safe_char(c) })
}

/// `char::is_control`: the character belongs to category Cc.
pub fn is_control(c: char) -> (r: bool)
    ensures
        r == is_control_code(c as u32),
{
    let code = c as u32;
    code <= 0x1f || (0x7f <= code && code <= 0x9f)
}

pub fn is_substituted(c: char) -> (r: bool)
    ensures
        r == needs_substitute(c),
{
    let code = c as u32;
    is_control(c) || (0x1f000 <= code && code <= 0x1faff) || (0x2600 <= code && code <= 0x27bf)
        || code == 0xfe0f
}

// ---------------------------------------------------------------------------
// String plumbing
// ---------------------------------------------------------------------------

/// Appends one character; `String::push`.
#[verifier::external_body]
pub(crate) fn push_char(s: &mut String, c: char)
    ensures
        final(s)@ == old(s)@.push(c),
{
    s.push(c)
}

/// The characters of a text, in order.
pub fn chars_of(text: &str) -> (v: Vec<char>)
    ensures
        v@ == text@,
{
    let mut v: Vec<char> = Vec::new();
    for c in it: text.chars()
        invariant
            it.seq() == text@,
            v@ == it.seq().take(it.index() as int),
    {
        v.push(c);
    }
    v
}

/// A string holding exactly the given characters.
pub fn string_of(chars: &Vec<char>) -> (s: String)
    ensures
        s@ == chars@,
{
    let mut s = String::new();
    let mut i: usize = 0;
    while i < chars.len()
        invariant
            i <= chars.len(),
            s@ == chars@.take(i as int),
        decreases chars.len() - i,
    {
        push_char(&mut s, chars[i]);
        i += 1;
        assert(s@ =~= chars@.take(i as int));
    }
    assert(chars@.take(chars.len() as int) =~= chars@);
    s
}

/// Appends characters to a character buffer.
pub(crate) fn extend_chars(out: &mut Vec<char>, more: &Vec<char>)
    ensures
        final(out)@ == old(out)@ + more@,
{
    let mut i: usize = 0;
    while i < more.len()
        invariant
            i <= more.len(),
            out@ == old(out)@ + more@.take(i as int),
        decreases more.len() - i,
    {
        out.push(more[i]);
        i += 1;
        assert(out@ =~= old(out)@ + more@.take(i as int));
    }
    assert(more@.take(more.len() as int) =~= more@);
}

/// Appends the characters of a text to a character buffer.
pub(crate) fn extend_str(out: &mut Vec<char>, text: &str)
    ensures
        final(out)@ == old(out)@ + text@,
{
    let more = chars_of(text);
    extend_chars(out, &more);
}

// ---------------------------------------------------------------------------
// Substitution
// ---------------------------------------------------------------------------

/// Replace terminal control sequences, pictographs and emoji selectors with `·`.
pub fn safe_display(text: &str) -> (r: String)
    ensures
        r@ == safe_text(text@),
{
    let mut out = String::new();
    for c in it: text.chars()
        invariant
            it.seq() == text@,
            out@ == safe_text(text@.take(it.index() as int)),
    {
        let d = if is_substituted(c) {
            '\u{b7}'
        } else {
            c
        };
        push_char(&mut out, d);
        assert(text@.take(it.index() + 1) =~= text@.take(it.index() as int).push(c));
        assert(safe_text(text@.take(it.index() + 1)) =~= safe_text(text@.take(it.index() as int)).push(d));
    }
    assert(text@.take(text@.len() as int) =~= text@);
    out
}

/// Preserve explicit lines while removing terminal control sequences from records.
pub fn safe_multiline(text: &str) -> (r: String)
    ensures
        r@ == safe_lines_text(text@),
{
    let mut out = String::new();
    for c in it: text.chars()
        invariant
            it.seq() == text@,
            out@ == safe_lines_text(text@.take(it.index() as int)),
    {
        let d = if c == '\n' {
            '\n'
        } else if is_substituted(c) {
            '\u{b7}'
        } else {
            c
        };
        push_char(&mut out, d);
        assert(text@.take(it.index() + 1) =~= text@.take(it.index() as int).push(c));
        assert(safe_lines_text(text@.take(it.index() + 1)) =~= safe_lines_text(
            text@.take(it.index() as int),
        ).push(d));
    }
    assert(text@.take(text@.len() as int) =~= text@);
    out
}

/// Substitution is idempotent, never produces a substituted character, and
/// keeps one output character per input character.
pub proof fn law_safe_text_is_clean(s: Seq<char>)
    ensures
        safe_text(s).len() == s.len(),
        forall|i: int| 0 <= i < s.len() ==> !needs_substitute(#[trigger] safe_text(s)[i]),
        safe_text(safe_text(s)) == safe_text(s),
{
    assert(!needs_substitute(substitute()));
    assert(safe_text(safe_text(s)) =~= safe_text(s));
}


// ---------------------------------------------------------------------------
// Decimal labels
// ---------------------------------------------------------------------------

pub open spec fn digit_char(d: nat) -> char
    recommends
        d < 10,
{
    (('0' as u32) + d) as char
}

/// The decimal digits of a natural number, most significant first.
pub open spec fn decimal(n: nat) -> Seq<char>
    decreases n,
{
    if n < 10 {
        seq![digit_char(n)]
    } else {
        decimal(n / 10).push(digit_char(n % 10))
    }
}

fn digit(d: u64) -> (c: char)
    requires
        d < 10,
    ensures
        c == digit_char(d as nat),
{
    let c = if d == 0 { '0' } else if d == 1 { '1' } else if d == 2 { '2' } else if d == 3 {
        '3'
    } else if d == 4 { '4' } else if d == 5 { '5' } else if d == 6 { '6' } else if d == 7 {
        '7'
    } else if d == 8 { '8' } else { '9' };
    c
}

/// Appends the decimal digits of `n`.
pub(crate) fn push_decimal(out: &mut Vec<char>, n: u64)
    ensures
        final(out)@ == old(out)@ + decimal(n as nat),
    decreases n,
{
    if n >= 10 {
        push_decimal(out, n / 10);
    }
    let d = digit(n % 10);
    out.push(d);
    if n >= 10 {
        assert(final(out)@ =~= old(out)@ + decimal(n as nat));
    } else {
        assert(final(out)@ =~= old(out)@ + decimal(n as nat));
    }
}

/// Appends the decimal digits of `n`, for numbers beyond 64 bits.
pub(crate) fn push_decimal_wide(out: &mut Vec<char>, n: u128)
    ensures
        final(out)@ == old(out)@ + decimal(n as nat),
    decreases n,
{
    if n >= 10 {
        push_decimal_wide(out, n / 10);
    }
    let d = digit((n % 10) as u64);
    out.push(d);
    assert(final(out)@ =~= old(out)@ + decimal(n as nat));
}

/// The magnitude unit and suffix used for a token count.
pub open spec fn token_unit(tokens: nat) -> (nat, Seq<char>) {
    if tokens >= 1_000_000_000_000 {
        (1_000_000_000_000, seq!['T'])
    } else if tokens >= 1_000_000_000 {
        (1_000_000_000, seq!['B'])
    } else if tokens >= 1_000_000 {
        (1_000_000, seq!['M'])
    } else if tokens >= 1_000 {
        (1_000, seq!['K'])
    } else {
        (1, seq![])
    }
}

/// A token count in human units: whole units, a truncated tenth when it is
/// not zero, and the unit's suffix ("136.9M", "4K", "950").
pub open spec fn human_tokens_text(tokens: nat) -> Seq<char> {
    let (unit, suffix) = token_unit(tokens);
    if unit == 1 {
        decimal(tokens)
    } else {
        let whole = tokens / unit;
        let tenths = (tokens % unit) * 10 / unit;
        if tenths == 0 {
            decimal(whole) + suffix
        } else {
            decimal(whole) + seq!['.'] + decimal(tenths) + suffix
        }
    }
}

pub fn human_tokens(tokens: u64) -> (r: String)
    ensures
        r@ == human_tokens_text(tokens as nat),
{
    let (unit, suffix): (u64, char) = if tokens >= 1_000_000_000_000 {
        (1_000_000_000_000, 'T')
    } else if tokens >= 1_000_000_000 {
        (1_000_000_000, 'B')
    } else if tokens >= 1_000_000 {
        (1_000_000, 'M')
    } else if tokens >= 1_000 {
        (1_000, 'K')
    } else {
        (1, ' ')
    };
    let mut out: Vec<char> = Vec::new();
    if unit == 1 {
        push_decimal(&mut out, tokens);
        return string_of(&out);
    }
    let whole = tokens / unit;
    let rest = tokens % unit;
    assert(rest * 10 <= u64::MAX) by {
        assert(rest < 1_000_000_000_000);
    }
    let tenths = rest * 10 / unit;
    push_decimal(&mut out, whole);
    if tenths != 0 {
        out.push('.');
        push_decimal(&mut out, tenths);
    }
    out.push(suffix);
    let r = string_of(&out);
    assert(r@ =~= human_tokens_text(tokens as nat));
    r
}

/// Milliseconds from `then` to `now`, never negative; the difference
/// saturates at the ends of `i64`.
pub open spec fn elapsed_spec(now: int, then: int) -> int {
    let d = if now - then > i64::MAX {
        i64::MAX as int
    } else if now - then < i64::MIN {
        i64::MIN as int
    } else {
        now - then
    };
    if d > 0 {
        d
    } else {
        0
    }
}

pub fn elapsed_ms(now: i64, then: i64) -> (r: i64)
    ensures
        r as int == elapsed_spec(now as int, then as int),
{
    let d = match now.checked_sub(then) {
        Some(d) => d,
        None => if then > 0 {
            i64::MIN
        } else {
            i64::MAX
        },
    };
    if d > 0 {
        d
    } else {
        0
    }
}

/// A duration as whole seconds ("42s"), or minutes and two-digit seconds
/// from a minute on ("3m 07s"); negative durations read as zero.
pub open spec fn duration_text(milliseconds: int) -> Seq<char> {
    let seconds = (elapsed_spec(milliseconds, 0) / 1000) as nat;
    if seconds < 60 {
        decimal(seconds) + seq!['s']
    } else {
        let rest = seconds % 60;
        decimal(seconds / 60) + seq!['m', ' '] + (if rest < 10 {
            seq!['0']
        } else {
            seq![]
        }) + decimal(rest) + seq!['s']
    }
}

/// Whether a text is a non-empty run of decimal digits.
pub open spec fn is_digits(s: Seq<char>) -> bool {
    s.len() > 0 && forall|i: int| 0 <= i < s.len() ==> '0' <= #[trigger] s[i] && s[i] <= '9'
}

/// The number a run of decimal digits reads as.
pub open spec fn digits_value(s: Seq<char>) -> int
    decreases s.len(),
{
    if s.len() == 0 {
        0
    } else {
        digits_value(s.drop_last()) * 10 + ((s.last() as u32) - 48)
    }
}

/// Decimal digits read back as the number they were written for.
pub proof fn law_decimal_reads_back(n: nat)
    ensures
        is_digits(decimal(n)),
        digits_value(decimal(n)) == n,
    decreases n,
{
    assert(digit_char((n % 10) as nat) as u32 == 48 + n % 10);
    let s = decimal(n);
    if n >= 10 {
        law_decimal_reads_back(n / 10);
        let d = decimal(n / 10);
        assert(s.drop_last() =~= d);
        assert(s.last() == digit_char((n % 10) as nat));
        assert(digits_value(s) == digits_value(d) * 10 + ((s.last() as u32) - 48));
        assert(n == (n / 10) * 10 + n % 10);
    } else {
        assert(s.drop_last() =~= Seq::<char>::empty());
        assert(s.last() == digit_char(n));
        assert(n % 10 == n);
        assert(digits_value(s) == digits_value(s.drop_last()) * 10 + ((s.last() as u32) - 48));
    }
}

/// A duration label reads back as the whole seconds it was made for: under
/// a minute as "<seconds>s"; from a minute on as "<m>m <ss>s", two digits of
/// seconds below sixty, with m minutes and ss seconds making up the total.
pub proof fn law_duration_reads_back(milliseconds: int)
    requires
        0 <= milliseconds <= i64::MAX,
    ensures
        milliseconds / 1000 < 60 ==> exists|a: Seq<char>|
            #![trigger is_digits(a)]
            duration_text(milliseconds) == a + seq!['s'] && is_digits(a) && digits_value(a)
                == milliseconds / 1000,
        milliseconds / 1000 >= 60 ==> exists|a: Seq<char>, b: Seq<char>|
            #![trigger is_digits(a), is_digits(b)]
            duration_text(milliseconds) == a + seq!['m', ' '] + b + seq!['s'] && is_digits(a)
                && is_digits(b) && b.len() == 2 && digits_value(b) < 60 && digits_value(a) * 60
                + digits_value(b) == milliseconds / 1000,
{
    let seconds = (elapsed_spec(milliseconds, 0) / 1000) as nat;
    assert(seconds == milliseconds / 1000);
    if seconds < 60 {
        law_decimal_reads_back(seconds);
        assert(is_digits(decimal(seconds)));
    } else {
        let rest = (seconds % 60) as nat;
        law_decimal_reads_back(seconds / 60);
        law_decimal_reads_back(rest);
        let a = decimal(seconds / 60);
        let b = (if rest < 10 { seq!['0'] } else { Seq::<char>::empty() }) + decimal(rest);
        if rest < 10 {
            assert(decimal(rest) =~= seq![digit_char(rest)]);
            assert(b.drop_last() =~= seq!['0']);
            assert(seq!['0'].drop_last() =~= Seq::<char>::empty());
            assert('0' as u32 == 48);
            assert(digits_value(seq!['0']) == digits_value(seq!['0'].drop_last()) * 10 + (('0' as u32) - 48));
            assert(digits_value(seq!['0']) == 0);
            assert(digits_value(b) == rest);
        } else {
            assert(decimal(rest) == decimal(rest / 10).push(digit_char(rest % 10)));
            assert(decimal(rest / 10) =~= seq![digit_char(rest / 10)]);
            assert(b.len() == 2);
        }
        assert(is_digits(b));
        assert(duration_text(milliseconds) == a + seq!['m', ' '] + b + seq!['s']);
        assert(digits_value(a) * 60 + digits_value(b) == seconds);
    }
}

pub fn duration_label(milliseconds: i64) -> (r: String)
    ensures
        r@ == duration_text(milliseconds as int),
{
    let seconds = (elapsed_ms(milliseconds, 0) / 1000) as u64;
    let mut out: Vec<char> = Vec::new();
    if seconds < 60 {
        push_decimal(&mut out, seconds);
    } else {
        let rest = seconds % 60;
        push_decimal(&mut out, seconds / 60);
        out.push('m');
        out.push(' ');
        if rest < 10 {
            out.push('0');
        }
        push_decimal(&mut out, rest);
    }
    out.push('s');
    let r = string_of(&out);
    assert(r@ =~= duration_text(milliseconds as int));
    r
}

/// "1 person", "3 people".
pub open spec fn person_count_text(count: nat) -> Seq<char> {
    decimal(count) + if count == 1 {
        seq![' ', 'p', 'e', 'r', 's', 'o', 'n']
    } else {
        seq![' ', 'p', 'e', 'o', 'p', 'l', 'e']
    }
}

pub(crate) fn push_person_count(out: &mut Vec<char>, count: usize)
    ensures
        final(out)@ == old(out)@ + person_count_text(count as nat),
{
    push_decimal(out, count as u64);
    out.push(' ');
    out.push('p');
    out.push('e');
    if count == 1 {
        out.push('r');
        out.push('s');
        out.push('o');
        out.push('n');
    } else {
        out.push('o');
        out.push('p');
        out.push('l');
        out.push('e');
    }
    assert(final(out)@ =~= old(out)@ + person_count_text(count as nat));
}

pub fn person_count(count: usize) -> (r: String)
    ensures
        r@ == person_count_text(count as nat),
{
    let mut out: Vec<char> = Vec::new();
    push_person_count(&mut out, count);
    assert(out@ =~= person_count_text(count as nat));
    string_of(&out)
}


// ---------------------------------------------------------------------------
// Cell widths
// ---------------------------------------------------------------------------

/// The number of terminal cells ratatui gives a text (`Span::width`, which
/// measures with the unicode-width tables).
pub uninterp spec fn display_width(text: Seq<char>) -> usize;

/// The cell width of a text: `ratatui::text::Span::width`. The result is
/// claimed to be a function of the characters alone; nothing else about the
/// width tables is stated.
#[verifier::external_body]
fn span_width(text: &str) -> (w: usize)
    ensures
        w == display_width(text@),
{
    ratatui::text::Span::raw(text).width()
}

/// The cells taken by one character on its own.
pub open spec fn char_width(c: char) -> usize {
    display_width(seq![c])
}

pub fn text_width(text: &str) -> (w: usize)
    ensures
        w == display_width(text@),
{
    span_width(text)
}

pub fn char_cells(c: char) -> (w: usize)
    ensures
        w == char_width(c),
{
    let mut s = String::new();
    push_char(&mut s, c);
    assert(s@ =~= seq![c]);
    span_width(s.as_str())
}

fn chars_width(chars: &Vec<char>) -> (w: usize)
    ensures
        w == display_width(chars@),
{
    let s = string_of(chars);
    span_width(s.as_str())
}

/// The number of terminal cells ratatui gives a text as one `Line`: its
/// newlines removed and the widths of the pieces between them summed.
pub uninterp spec fn line_display_width(text: Seq<char>) -> usize;

/// The cell width of a text as a line: `ratatui::text::Line::width` of
/// `Line::from(text)`. The result is claimed to be a function of the
/// characters alone; nothing else about the width tables is stated.
#[verifier::external_body]
pub(crate) fn line_width(text: &str) -> (w: usize)
    ensures
        w == line_display_width(text@),
{
    ratatui::text::Line::from(text).width()
}

/// Where the kept end of an over-wide text starts: the first character
/// from `i` on whose rest, after a one-cell ellipsis, fits in `width`
/// cells; the end of the text when none does.
pub open spec fn tail_start(s: Seq<char>, width: int, i: int) -> int
    decreases s.len() - i,
{
    if i >= s.len() || i < 0 {
        i
    } else if line_display_width(s.subrange(i, s.len() as int)) + 1 > width {
        tail_start(s, width, i + 1)
    } else {
        i
    }
}

/// A text that fits in `width` cells as it is; otherwise an ellipsis and
/// the longest end of the text that fits beside it.
pub open spec fn tail_text(s: Seq<char>, width: int) -> Seq<char> {
    if line_display_width(s) <= width {
        s
    } else {
        seq!['…'] + s.subrange(tail_start(s, width, 0), s.len() as int)
    }
}

fn suffix_of(chars: &Vec<char>, start: usize) -> (r: Vec<char>)
    requires
        start <= chars@.len(),
    ensures
        r@ == chars@.subrange(start as int, chars@.len() as int),
{
    let mut r: Vec<char> = Vec::new();
    let mut i = start;
    while i < chars.len()
        invariant
            start <= i <= chars@.len(),
            r@ == chars@.subrange(start as int, i as int),
        decreases chars.len() - i,
    {
        r.push(chars[i]);
        i += 1;
    }
    r
}

pub fn tail(text: &str, width: usize) -> (r: String)
    ensures
        r@ == tail_text(text@, width as int),
{
    if line_width(text) <= width {
        let chars = chars_of(text);
        let r = string_of(&chars);
        return r;
    }
    let chars = chars_of(text);
    let mut start: usize = 0;
    loop
        invariant
            chars@ == text@,
            start <= chars@.len(),
            tail_start(text@, width as int, 0) == tail_start(text@, width as int, start as int),
        ensures
            start as int == tail_start(text@, width as int, 0),
            start <= chars@.len(),
            chars@ == text@,
        decreases chars@.len() - start,
    {
        if start >= chars.len() {
            break;
        }
        let rest = string_of(&suffix_of(&chars, start));
        if line_width(rest.as_str()) < width {
            break;
        }
        start += 1;
    }
    let mut out: Vec<char> = Vec::new();
    out.push('…');
    let rest = suffix_of(&chars, start);
    let mut i: usize = 0;
    while i < rest.len()
        invariant
            i <= rest@.len(),
            out@ == seq!['…'] + rest@.subrange(0, i as int),
        decreases rest.len() - i,
    {
        out.push(rest[i]);
        i += 1;
    }
    let r = string_of(&out);
    assert(r@ =~= tail_text(text@, width as int));
    r
}

// ---------------------------------------------------------------------------
// Elision
// ---------------------------------------------------------------------------

/// How many leading characters of `s` (from index `i`, `used` cells already
/// taken) fit within `limit` cells, stopping at the first that does not.
pub open spec fn fitting_prefix(s: Seq<char>, limit: int, i: int, used: int) -> int
    decreases s.len() - i,
{
    if i >= s.len() || i < 0 {
        i
    } else if used + char_width(s[i]) > limit {
        i
    } else {
        fitting_prefix(s, limit, i + 1, used + char_width(s[i]))
    }
}

/// A path shown in at most `max_chars` cells: the safe text when it fits,
/// otherwise the characters that fit in one cell less, and an ellipsis.
pub open spec fn short_path_text(path: Seq<char>, max_chars: nat) -> Seq<char> {
    let safe = safe_text(path);
    if max_chars == 0 {
        seq![]
    } else if display_width(safe) <= max_chars {
        safe
    } else {
        safe.take(fitting_prefix(safe, max_chars - 1, 0, 0)).push('\u{2026}')
    }
}

proof fn lemma_fitting_prefix_bounds(s: Seq<char>, limit: int, i: int, used: int)
    requires
        0 <= i <= s.len(),
    ensures
        i <= fitting_prefix(s, limit, i, used) <= s.len(),
    decreases s.len() - i,
{
    if i < s.len() && used + char_width(s[i]) <= limit {
        lemma_fitting_prefix_bounds(s, limit, i + 1, used + char_width(s[i]));
    }
}

pub fn short_path(path: &str, max_chars: usize) -> (r: String)
    ensures
        r@ == short_path_text(path@, max_chars as nat),
{
    if max_chars == 0 {
        return String::new();
    }
    let safe = safe_display(path);
    if span_width(safe.as_str()) <= max_chars {
        return safe;
    }
    let chars = chars_of(safe.as_str());
    let limit = max_chars - 1;
    let mut head: Vec<char> = Vec::new();
    let mut width: usize = 0;
    let mut i: usize = 0;
    let mut full = false;
    while i < chars.len() && !full
        invariant
            chars@ == safe@,
            limit == max_chars - 1,
            i <= chars.len(),
            width <= limit,
            head@ == chars@.take(i as int),
            fitting_prefix(chars@, limit as int, 0, 0) == fitting_prefix(
                chars@,
                limit as int,
                i as int,
                width as int,
            ),
            full ==> i < chars.len() && width + char_width(chars@[i as int]) > limit,
        decreases chars.len() - i + (if full { 0int } else { 1int }),
    {
        let cell_width = char_cells(chars[i]);
        if cell_width > limit - width {
            full = true;
        } else {
            head.push(chars[i]);
            width = width + cell_width;
            i += 1;
            assert(head@ =~= chars@.take(i as int));
        }
    }
    assert(fitting_prefix(chars@, limit as int, i as int, width as int) == i);
    proof {
        lemma_fitting_prefix_bounds(chars@, limit as int, i as int, width as int);
    }
    head.push('\u{2026}');
    string_of(&head)
}

// ---------------------------------------------------------------------------
// Lossless wrapping
// ---------------------------------------------------------------------------

/// The position of the last space in a line, if there is one after the start.
pub open spec fn last_space(line: Seq<char>) -> int
    decreases line.len(),
{
    if line.len() == 0 {
        -1
    } else if line.last() == ' ' {
        line.len() - 1
    } else {
        last_space(line.drop_last())
    }
}

pub open spec fn sat_add(a: int, b: int) -> int {
    if a + b > usize::MAX {
        usize::MAX as int
    } else {
        a + b
    }
}

/// One step of the wrapping fold: the lines so far, the cells used by the
/// last line, and the next character.
pub open spec fn wrap_step(state: (Seq<Seq<char>>, int), c: char, width: nat) -> (
    Seq<Seq<char>>,
    int,
) {
    let (lines, used) = state;
    let size = char_width(c) as int;
    let limit = if width == 0 {
        1
    } else {
        width as int
    };
    if sat_add(used, size) > limit && used > 0 {
        let current = lines.last();
        let space = last_space(current);
        let head = if space > 0 {
            current.take(space + 1)
        } else {
            current
        };
        let tail = if space > 0 {
            current.skip(space + 1)
        } else {
            seq![]
        };
        (lines.drop_last().push(head).push(tail.push(c)), sat_add(display_width(tail) as int, size))
    } else {
        (lines.drop_last().push(lines.last().push(c)), sat_add(used, size))
    }
}

/// Wrapping of already safe text: a line is broken before the character that
/// would overflow it, moving the words after the line's last space along.
pub open spec fn wrap_fold(s: Seq<char>, width: nat) -> (Seq<Seq<char>>, int)
    decreases s.len(),
{
    if s.len() == 0 {
        (seq![seq![]], 0)
    } else {
        wrap_step(wrap_fold(s.drop_last(), width), s.last(), width)
    }
}

pub open spec fn wrapped_lines_text(text: Seq<char>, width: nat) -> Seq<Seq<char>> {
    wrap_fold(safe_text(text), width).0
}

proof fn lemma_last_space(line: Seq<char>)
    ensures
        -1 <= last_space(line) < line.len(),
        last_space(line) >= 0 ==> line[last_space(line)] == ' ',
    decreases line.len(),
{
    if line.len() > 0 && line.last() != ' ' {
        lemma_last_space(line.drop_last());
    }
}

/// Wrapping never loses, adds or reorders a character, and always yields at
/// least one line.
pub proof fn lemma_wrap_is_lossless(s: Seq<char>, width: nat)
    ensures
        wrap_fold(s, width).0.len() >= 1,
        wrap_fold(s, width).0.flatten() == s,
        wrap_fold(s, width).1 >= 0,
    decreases s.len(),
{
    broadcast use Seq::lemma_flatten_push;

    if s.len() == 0 {
        assert(seq![seq![]].flatten() =~= Seq::<char>::empty()) by {
            seq![Seq::<char>::empty()].lemma_flatten_one_element();
        }
    } else {
        let prev = s.drop_last();
        lemma_wrap_is_lossless(prev, width);
        let (lines, used) = wrap_fold(prev, width);
        let c = s.last();
        let current = lines.last();
        let rest = lines.drop_last();
        assert(rest.push(current) =~= lines);
        assert(lines.flatten() == rest.flatten() + current);
        let space = last_space(current);
        lemma_last_space(current);
        if space > 0 {
            assert(current.take(space + 1) + current.skip(space + 1) =~= current);
        }
        assert(prev.push(c) =~= s);
        let size = char_width(c) as int;
        let limit = if width == 0 {
            1
        } else {
            width as int
        };
        if sat_add(used, size) > limit && used > 0 {
            let head = if space > 0 {
                current.take(space + 1)
            } else {
                current
            };
            let tail = if space > 0 {
                current.skip(space + 1)
            } else {
                seq![]
            };
            assert(head + tail =~= current);
            assert(rest.push(head).push(tail.push(c)).flatten() =~= rest.flatten() + head + tail.push(c));
            assert(rest.flatten() + head + tail.push(c) =~= (rest.flatten() + current).push(c));
        } else {
            assert(rest.push(current.push(c)).flatten() =~= rest.flatten() + current.push(c));
            assert(rest.flatten() + current.push(c) =~= (rest.flatten() + current).push(c));
        }
    }
}

/// The position of the last space of a line buffer.
fn find_last_space(line: &Vec<char>) -> (r: Option<usize>)
    ensures
        match r {
            Some(j) => j as int == last_space(line@),
            None => last_space(line@) == -1,
        },
{
    let mut j = line.len();
    assert(line@.take(j as int) =~= line@);
    while j > 0
        invariant
            j <= line.len(),
            last_space(line@) == last_space(line@.take(j as int)),
        decreases j,
    {
        assert(line@.take(j as int).drop_last() =~= line@.take(j - 1));
        if line[j - 1] == ' ' {
            return Some(j - 1);
        }
        j -= 1;
    }
    None
}

/// Keep every character available when text wraps, including command whitespace.
pub fn wrapped_lines(text: &str, width: usize) -> (r: Vec<String>)
    ensures
        r@.map_values(|l: String| l@) == wrapped_lines_text(text@, width as nat),
{
    let safe = safe_display(text);
    let chars = chars_of(safe.as_str());
    let limit: usize = if width == 0 {
        1
    } else {
        width
    };
    let mut done: Vec<String> = Vec::new();
    let mut current: Vec<char> = Vec::new();
    let mut used: usize = 0;
    let mut i: usize = 0;
    while i < chars.len()
        invariant
            chars@ == safe_text(text@),
            limit as int == (if width == 0 {
                1
            } else {
                width as int
            }),
            i <= chars.len(),
            wrap_fold(chars@.take(i as int), width as nat) == (
                done@.map_values(|l: String| l@).push(current@),
                used as int,
            ),
        decreases chars.len() - i,
    {
        let c = chars[i];
        let size = char_cells(c);
        let ghost before = chars@.take(i as int);
        assert(chars@.take(i + 1).drop_last() =~= before);
        if used.saturating_add(size) > limit && used > 0 {
            let space = find_last_space(&current);
            proof {
                lemma_last_space(current@);
            }
            let mut head: Vec<char> = Vec::new();
            let mut tail: Vec<char> = Vec::new();
            match space {
                Some(j) if j > 0 => {
                    let mut k: usize = 0;
                    while k < current.len()
                        invariant
                            k <= current.len(),
                            j < current.len(),
                            head@ == current@.take(if k <= j + 1 { k as int } else { j + 1 }),
                            tail@ == (if k <= j + 1 { Seq::<char>::empty() } else { current@.subrange(j + 1, k as int) }),
                        decreases current.len() - k,
                    {
                        if k <= j {
                            head.push(current[k]);
                        } else {
                            tail.push(current[k]);
                        }
                        k += 1;
                        assert(head@ =~= current@.take(if k <= j + 1 { k as int } else { j + 1 }));
                        assert(tail@ =~= (if k <= j + 1 { Seq::<char>::empty() } else { current@.subrange(j + 1, k as int) }));
                    }
                    proof {
                        lemma_last_space(current@);
                    }
                    assert(tail@ =~= current@.skip(j + 1));
                },
                _ => {
                    head = current.clone();
                    proof {
                        lemma_last_space(current@);
                    }
                },
            }
            let tail_width = chars_width(&tail);
            let ghost old_done = done@.map_values(|l: String| l@);
            done.push(string_of(&head));
            assert(done@.map_values(|l: String| l@) =~= old_done.push(head@));
            tail.push(c);
            current = tail;
            used = tail_width.saturating_add(size);
        } else {
            current.push(c);
            used = used.saturating_add(size);
        }
        i += 1;
        assert(done@.map_values(|l: String| l@).push(current@) =~= wrap_fold(chars@.take(i as int), width as nat).0);
    }
    assert(chars@.take(chars.len() as int) =~= chars@);
    let ghost old_done = done@.map_values(|l: String| l@);
    done.push(string_of(&current));
    assert(done@.map_values(|l: String| l@) =~= old_done.push(current@));
    done
}


// ---------------------------------------------------------------------------
// Paragraphs
// ---------------------------------------------------------------------------

/// The lines of a text separated by `\n`, as `str::split('\n')` gives them:
/// an empty text is one empty line and a trailing break opens one more.
pub open spec fn split_lines(s: Seq<char>) -> Seq<Seq<char>>
    decreases s.len(),
{
    if s.len() == 0 {
        seq![seq![]]
    } else {
        let prev = split_lines(s.drop_last());
        if s.last() == '\n' {
            prev.push(seq![])
        } else {
            prev.drop_last().push(prev.last().push(s.last()))
        }
    }
}

/// Every line of a text wrapped on its own, at least one cell wide.
pub open spec fn wrap_text_lines(text: Seq<char>, width: nat) -> Seq<Seq<char>> {
    let w: nat = if width == 0 {
        1
    } else {
        width
    };
    split_lines(text).map_values(|line: Seq<char>| wrapped_lines_text(line, w)).flatten()
}

proof fn lemma_wrapped_push(lines: Seq<Seq<char>>, line: Seq<char>, w: nat)
    ensures
        lines.push(line).map_values(|l: Seq<char>| wrapped_lines_text(l, w)).flatten()
            == lines.map_values(|l: Seq<char>| wrapped_lines_text(l, w)).flatten() + wrapped_lines_text(line, w),
{
    broadcast use Seq::lemma_flatten_push;

    assert(lines.push(line).map_values(|l: Seq<char>| wrapped_lines_text(l, w))
        =~= lines.map_values(|l: Seq<char>| wrapped_lines_text(l, w)).push(wrapped_lines_text(line, w)));
}

/// Appends the views of `more` to a list of strings.
fn append_lines(out: &mut Vec<String>, more: Vec<String>)
    ensures
        final(out)@.map_values(|l: String| l@) == old(out)@.map_values(|l: String| l@) + more@.map_values(|l: String| l@),
{
    let mut more = more;
    let ghost whole = more@.map_values(|l: String| l@);
    let mut taken: Vec<String> = Vec::new();
    let mut i: usize = 0;
    let n = more.len();
    while i < n
        invariant
            n == more.len(),
            i <= n,
            more@.map_values(|l: String| l@) == whole,
            out@.map_values(|l: String| l@) == old(out)@.map_values(|l: String| l@) + whole.take(i as int),
        decreases n - i,
    {
        let line = more[i].clone();
        let ghost before = out@.map_values(|l: String| l@);
        out.push(line);
        assert(out@.map_values(|l: String| l@) =~= before.push(line@));
        assert(whole[i as int] == more@[i as int]@);
        i += 1;
        assert(whole.take(i as int) =~= whole.take(i - 1).push(whole[i - 1]));
    }
    assert(whole.take(n as int) =~= whole);
}

/// Wraps every line of a text to `width` cells.
pub fn wrap_text(text: &str, width: u16) -> (r: Vec<String>)
    ensures
        r@.map_values(|l: String| l@) == wrap_text_lines(text@, width as nat),
{
    let w: usize = if width == 0 {
        1
    } else {
        width as usize
    };
    let ghost wn: nat = w as nat;
    let chars = chars_of(text);
    let mut out: Vec<String> = Vec::new();
    let mut current: Vec<char> = Vec::new();
    let ghost mut done: Seq<Seq<char>> = seq![];
    let mut i: usize = 0;
    while i < chars.len()
        invariant
            chars@ == text@,
            i <= chars.len(),
            wn == w as nat,
            split_lines(chars@.take(i as int)) == done.push(current@),
            out@.map_values(|l: String| l@) == done.map_values(|l: Seq<char>| wrapped_lines_text(l, wn)).flatten(),
        decreases chars.len() - i,
    {
        let c = chars[i];
        assert(chars@.take(i + 1).drop_last() =~= chars@.take(i as int));
        if c == '\n' {
            let line = string_of(&current);
            let wrapped = wrapped_lines(line.as_str(), w);
            append_lines(&mut out, wrapped);
            proof {
                lemma_wrapped_push(done, current@, wn);
                done = done.push(current@);
            }
            current = Vec::new();
        } else {
            current.push(c);
        }
        i += 1;
        assert(split_lines(chars@.take(i as int)) =~= done.push(current@));
    }
    assert(chars@.take(chars.len() as int) =~= chars@);
    let line = string_of(&current);
    let wrapped = wrapped_lines(line.as_str(), w);
    append_lines(&mut out, wrapped);
    proof {
        lemma_wrapped_push(done, current@, wn);
    }
    out
}

} // verus!
