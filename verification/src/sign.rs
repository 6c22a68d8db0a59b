//! Project signs and name plates: the 5x7 and 3x5 lettering, safe project
//! labels, sign line breaks and worker plate names.
use vstd::prelude::*;
use crate::layout::same_text;
use crate::text::{chars_of, short_path, short_path_text, string_of};

verus! {

/// The rows of a 5x7 sign glyph, each row's low five bits left to right;
/// characters without a glyph are blank.
pub open spec fn glyph_rows(c: char) -> Seq<u8> {
    if c == 'A' {
        seq![0x0e, 0x11, 0x11, 0x1f, 0x11, 0x11, 0x11]
    } else if c == 'B' {
        seq![0x1e, 0x11, 0x1e, 0x11, 0x11, 0x11, 0x1e]
    } else if c == 'C' {
        seq![0x0f, 0x10, 0x10, 0x10, 0x10, 0x10, 0x0f]
    } else if c == 'D' {
        seq![0x1e, 0x11, 0x11, 0x11, 0x11, 0x11, 0x1e]
    } else if c == 'E' {
        seq![0x1f, 0x10, 0x10, 0x1e, 0x10, 0x10, 0x1f]
    } else if c == 'F' {
        seq![0x1f, 0x10, 0x10, 0x1e, 0x10, 0x10, 0x10]
    } else if c == 'G' {
        seq![0x0f, 0x10, 0x10, 0x17, 0x11, 0x11, 0x0f]
    } else if c == 'H' {
        seq![0x11, 0x11, 0x11, 0x1f, 0x11, 0x11, 0x11]
    } else if c == 'I' {
        seq![0x1f, 0x04, 0x04, 0x04, 0x04, 0x04, 0x1f]
    } else if c == 'J' {
        seq![0x07, 0x02, 0x02, 0x02, 0x12, 0x12, 0x0c]
    } else if c == 'K' {
        seq![0x11, 0x12, 0x14, 0x18, 0x14, 0x12, 0x11]
    } else if c == 'L' {
        seq![0x10, 0x10, 0x10, 0x10, 0x10, 0x10, 0x1f]
    } else if c == 'M' {
        seq![0x11, 0x1b, 0x15, 0x15, 0x11, 0x11, 0x11]
    } else if c == 'N' {
        seq![0x11, 0x19, 0x15, 0x13, 0x11, 0x11, 0x11]
    } else if c == 'O' {
        seq![0x0e, 0x11, 0x11, 0x11, 0x11, 0x11, 0x0e]
    } else if c == 'P' {
        seq![0x1e, 0x11, 0x11, 0x1e, 0x10, 0x10, 0x10]
    } else if c == 'Q' {
        seq![0x0e, 0x11, 0x11, 0x11, 0x15, 0x12, 0x0d]
    } else if c == 'R' {
        seq![0x1e, 0x11, 0x11, 0x1e, 0x14, 0x12, 0x11]
    } else if c == 'S' {
        seq![0x0f, 0x10, 0x10, 0x0e, 0x01, 0x01, 0x1e]
    } else if c == 'T' {
        seq![0x1f, 0x04, 0x04, 0x04, 0x04, 0x04, 0x04]
    } else if c == 'U' {
        seq![0x11, 0x11, 0x11, 0x11, 0x11, 0x11, 0x0e]
    } else if c == 'V' {
        seq![0x11, 0x11, 0x11, 0x11, 0x11, 0x0a, 0x04]
    } else if c == 'W' {
        seq![0x11, 0x11, 0x11, 0x15, 0x15, 0x1b, 0x11]
    } else if c == 'X' {
        seq![0x11, 0x11, 0x0a, 0x04, 0x0a, 0x11, 0x11]
    } else if c == 'Y' {
        seq![0x11, 0x11, 0x0a, 0x04, 0x04, 0x04, 0x04]
    } else if c == 'Z' {
        seq![0x1f, 0x01, 0x02, 0x04, 0x08, 0x10, 0x1f]
    } else if c == '0' {
        seq![0x0e, 0x11, 0x13, 0x15, 0x19, 0x11, 0x0e]
    } else if c == '1' {
        seq![0x04, 0x0c, 0x04, 0x04, 0x04, 0x04, 0x0e]
    } else if c == '2' {
        seq![0x0e, 0x11, 0x01, 0x02, 0x04, 0x08, 0x1f]
    } else if c == '3' {
        seq![0x1e, 0x01, 0x01, 0x0e, 0x01, 0x01, 0x1e]
    } else if c == '4' {
        seq![0x02, 0x06, 0x0a, 0x12, 0x1f, 0x02, 0x02]
    } else if c == '5' {
        seq![0x1f, 0x10, 0x10, 0x1e, 0x01, 0x01, 0x1e]
    } else if c == '6' {
        seq![0x0e, 0x10, 0x10, 0x1e, 0x11, 0x11, 0x0e]
    } else if c == '7' {
        seq![0x1f, 0x01, 0x02, 0x04, 0x08, 0x08, 0x08]
    } else if c == '8' {
        seq![0x0e, 0x11, 0x11, 0x0e, 0x11, 0x11, 0x0e]
    } else if c == '9' {
        seq![0x0e, 0x11, 0x11, 0x0f, 0x01, 0x01, 0x0e]
    } else if c == '-' {
        seq![0x00, 0x00, 0x00, 0x1f, 0x00, 0x00, 0x00]
    } else if c == '.' {
        seq![0x00, 0x00, 0x00, 0x00, 0x00, 0x00, 0x04]
    } else if c == '_' {
        seq![0x00, 0x00, 0x00, 0x00, 0x00, 0x00, 0x1f]
    } else if c == '\u{b7}' {
        seq![0x00, 0x00, 0x00, 0x04, 0x00, 0x00, 0x00]
    } else {
        seq![0, 0, 0, 0, 0, 0, 0]
    }
}

pub fn glyph_5x7(character: char) -> (r: [u8; 7])
    ensures
        r@ == glyph_rows(character),
{
    let g: [u8; 7] = match character {
        'A' => [0x0e, 0x11, 0x11, 0x1f, 0x11, 0x11, 0x11],
        'B' => [0x1e, 0x11, 0x1e, 0x11, 0x11, 0x11, 0x1e],
        'C' => [0x0f, 0x10, 0x10, 0x10, 0x10, 0x10, 0x0f],
        'D' => [0x1e, 0x11, 0x11, 0x11, 0x11, 0x11, 0x1e],
        'E' => [0x1f, 0x10, 0x10, 0x1e, 0x10, 0x10, 0x1f],
        'F' => [0x1f, 0x10, 0x10, 0x1e, 0x10, 0x10, 0x10],
        'G' => [0x0f, 0x10, 0x10, 0x17, 0x11, 0x11, 0x0f],
        'H' => [0x11, 0x11, 0x11, 0x1f, 0x11, 0x11, 0x11],
        'I' => [0x1f, 0x04, 0x04, 0x04, 0x04, 0x04, 0x1f],
        'J' => [0x07, 0x02, 0x02, 0x02, 0x12, 0x12, 0x0c],
        'K' => [0x11, 0x12, 0x14, 0x18, 0x14, 0x12, 0x11],
        'L' => [0x10, 0x10, 0x10, 0x10, 0x10, 0x10, 0x1f],
        'M' => [0x11, 0x1b, 0x15, 0x15, 0x11, 0x11, 0x11],
        'N' => [0x11, 0x19, 0x15, 0x13, 0x11, 0x11, 0x11],
        'O' => [0x0e, 0x11, 0x11, 0x11, 0x11, 0x11, 0x0e],
        'P' => [0x1e, 0x11, 0x11, 0x1e, 0x10, 0x10, 0x10],
        'Q' => [0x0e, 0x11, 0x11, 0x11, 0x15, 0x12, 0x0d],
        'R' => [0x1e, 0x11, 0x11, 0x1e, 0x14, 0x12, 0x11],
        'S' => [0x0f, 0x10, 0x10, 0x0e, 0x01, 0x01, 0x1e],
        'T' => [0x1f, 0x04, 0x04, 0x04, 0x04, 0x04, 0x04],
        'U' => [0x11, 0x11, 0x11, 0x11, 0x11, 0x11, 0x0e],
        'V' => [0x11, 0x11, 0x11, 0x11, 0x11, 0x0a, 0x04],
        'W' => [0x11, 0x11, 0x11, 0x15, 0x15, 0x1b, 0x11],
        'X' => [0x11, 0x11, 0x0a, 0x04, 0x0a, 0x11, 0x11],
        'Y' => [0x11, 0x11, 0x0a, 0x04, 0x04, 0x04, 0x04],
        'Z' => [0x1f, 0x01, 0x02, 0x04, 0x08, 0x10, 0x1f],
        '0' => [0x0e, 0x11, 0x13, 0x15, 0x19, 0x11, 0x0e],
        '1' => [0x04, 0x0c, 0x04, 0x04, 0x04, 0x04, 0x0e],
        '2' => [0x0e, 0x11, 0x01, 0x02, 0x04, 0x08, 0x1f],
        '3' => [0x1e, 0x01, 0x01, 0x0e, 0x01, 0x01, 0x1e],
        '4' => [0x02, 0x06, 0x0a, 0x12, 0x1f, 0x02, 0x02],
        '5' => [0x1f, 0x10, 0x10, 0x1e, 0x01, 0x01, 0x1e],
        '6' => [0x0e, 0x10, 0x10, 0x1e, 0x11, 0x11, 0x0e],
        '7' => [0x1f, 0x01, 0x02, 0x04, 0x08, 0x08, 0x08],
        '8' => [0x0e, 0x11, 0x11, 0x0e, 0x11, 0x11, 0x0e],
        '9' => [0x0e, 0x11, 0x11, 0x0f, 0x01, 0x01, 0x0e],
        '-' => [0x00, 0x00, 0x00, 0x1f, 0x00, 0x00, 0x00],
        '.' => [0x00, 0x00, 0x00, 0x00, 0x00, 0x00, 0x04],
        '_' => [0x00, 0x00, 0x00, 0x00, 0x00, 0x00, 0x1f],
        '\u{b7}' => [0x00, 0x00, 0x00, 0x04, 0x00, 0x00, 0x00],
        _ => [0x00; 7],
    };
    assert(g@ =~= glyph_rows(character));
    g
}

pub open spec fn ascii_upper(c: char) -> char {
    if 'a' <= c && c <= 'z' {
        ((c as u32) - 32) as char
    } else {
        c
    }
}

pub fn to_ascii_uppercase(c: char) -> (r: char)
    ensures
        r == ascii_upper(c),
{
    if 'a' <= c && c <= 'z' {
        let code = (c as u32) - 32;
        assert(code <= 0x7f);
        code as u8 as char
    } else {
        c
    }
}

/// The authored 3x5 letter forms.
pub open spec fn compact_letter(c: char) -> Option<Seq<u8>> {
    if c == 'A' {
        Some(seq![0b010, 0b101, 0b111, 0b101, 0b101])
    } else if c == 'B' {
        Some(seq![0b110, 0b101, 0b110, 0b101, 0b110])
    } else if c == 'C' {
        Some(seq![0b011, 0b100, 0b100, 0b100, 0b011])
    } else if c == 'D' {
        Some(seq![0b110, 0b101, 0b101, 0b101, 0b110])
    } else if c == 'E' {
        Some(seq![0b111, 0b100, 0b110, 0b100, 0b111])
    } else if c == 'F' {
        Some(seq![0b111, 0b100, 0b110, 0b100, 0b100])
    } else if c == 'G' {
        Some(seq![0b011, 0b100, 0b101, 0b101, 0b011])
    } else if c == 'H' {
        Some(seq![0b101, 0b101, 0b111, 0b101, 0b101])
    } else if c == 'I' {
        Some(seq![0b111, 0b010, 0b010, 0b010, 0b111])
    } else if c == 'J' {
        Some(seq![0b001, 0b001, 0b001, 0b101, 0b010])
    } else if c == 'K' {
        Some(seq![0b101, 0b110, 0b100, 0b110, 0b101])
    } else if c == 'L' {
        Some(seq![0b100, 0b100, 0b100, 0b100, 0b111])
    } else if c == 'M' {
        Some(seq![0b101, 0b111, 0b111, 0b101, 0b101])
    } else if c == 'N' {
        Some(seq![0b101, 0b111, 0b111, 0b111, 0b101])
    } else if c == 'O' {
        Some(seq![0b010, 0b101, 0b101, 0b101, 0b010])
    } else if c == 'P' {
        Some(seq![0b110, 0b101, 0b110, 0b100, 0b100])
    } else if c == 'Q' {
        Some(seq![0b010, 0b101, 0b101, 0b011, 0b001])
    } else if c == 'R' {
        Some(seq![0b110, 0b101, 0b110, 0b101, 0b101])
    } else if c == 'S' {
        Some(seq![0b011, 0b100, 0b010, 0b001, 0b110])
    } else if c == 'T' {
        Some(seq![0b111, 0b010, 0b010, 0b010, 0b010])
    } else if c == 'U' {
        Some(seq![0b101, 0b101, 0b101, 0b101, 0b111])
    } else if c == 'V' {
        Some(seq![0b101, 0b101, 0b101, 0b101, 0b010])
    } else if c == 'W' {
        Some(seq![0b101, 0b101, 0b111, 0b111, 0b101])
    } else if c == 'X' {
        Some(seq![0b101, 0b101, 0b010, 0b101, 0b101])
    } else if c == 'Y' {
        Some(seq![0b101, 0b101, 0b010, 0b010, 0b010])
    } else if c == 'Z' {
        Some(seq![0b111, 0b001, 0b010, 0b100, 0b111])
    } else {
        None
    }
}

/// A 5x7 row reduced to three columns: left pair, centre, right pair.
pub open spec fn compact_row(source: u8) -> u8 {
    ((if source & 0x18 != 0 { 4int } else { 0 }) + (if source & 0x04 != 0 { 2int } else { 0 }) + (
    if source & 0x03 != 0 { 1int } else { 0 })) as u8
}

/// The 3x5 form of a character: an authored letter, else rows 0, 1, 3, 5
/// and 6 of its 5x7 glyph reduced to three columns.
pub open spec fn compact_rows(c: char) -> Seq<u8> {
    match compact_letter(ascii_upper(c)) {
        Some(rows) => rows,
        None => {
            let g = glyph_rows(c);
            seq![compact_row(g[0]), compact_row(g[1]), compact_row(g[3]), compact_row(g[5]), compact_row(g[6])]
        },
    }
}

fn reduce_row(source: u8) -> (r: u8)
    ensures
        r == compact_row(source),
{
    let mut compact: u8 = 0;
    if source & 0x18 != 0 {
        compact = compact + 4;
    }
    if source & 0x04 != 0 {
        compact = compact + 2;
    }
    if source & 0x03 != 0 {
        compact = compact + 1;
    }
    compact
}

pub fn compact_glyph(character: char) -> (r: [u8; 5])
    ensures
        r@ == compact_rows(character),
{
    let upper = to_ascii_uppercase(character);
    let authored: Option<[u8; 5]> = match upper {
        'A' => Some([0b010, 0b101, 0b111, 0b101, 0b101]),
        'B' => Some([0b110, 0b101, 0b110, 0b101, 0b110]),
        'C' => Some([0b011, 0b100, 0b100, 0b100, 0b011]),
        'D' => Some([0b110, 0b101, 0b101, 0b101, 0b110]),
        'E' => Some([0b111, 0b100, 0b110, 0b100, 0b111]),
        'F' => Some([0b111, 0b100, 0b110, 0b100, 0b100]),
        'G' => Some([0b011, 0b100, 0b101, 0b101, 0b011]),
        'H' => Some([0b101, 0b101, 0b111, 0b101, 0b101]),
        'I' => Some([0b111, 0b010, 0b010, 0b010, 0b111]),
        'J' => Some([0b001, 0b001, 0b001, 0b101, 0b010]),
        'K' => Some([0b101, 0b110, 0b100, 0b110, 0b101]),
        'L' => Some([0b100, 0b100, 0b100, 0b100, 0b111]),
        'M' => Some([0b101, 0b111, 0b111, 0b101, 0b101]),
        'N' => Some([0b101, 0b111, 0b111, 0b111, 0b101]),
        'O' => Some([0b010, 0b101, 0b101, 0b101, 0b010]),
        'P' => Some([0b110, 0b101, 0b110, 0b100, 0b100]),
        'Q' => Some([0b010, 0b101, 0b101, 0b011, 0b001]),
        'R' => Some([0b110, 0b101, 0b110, 0b101, 0b101]),
        'S' => Some([0b011, 0b100, 0b010, 0b001, 0b110]),
        'T' => Some([0b111, 0b010, 0b010, 0b010, 0b010]),
        'U' => Some([0b101, 0b101, 0b101, 0b101, 0b111]),
        'V' => Some([0b101, 0b101, 0b101, 0b101, 0b010]),
        'W' => Some([0b101, 0b101, 0b111, 0b111, 0b101]),
        'X' => Some([0b101, 0b101, 0b010, 0b101, 0b101]),
        'Y' => Some([0b101, 0b101, 0b010, 0b010, 0b010]),
        'Z' => Some([0b111, 0b001, 0b010, 0b100, 0b111]),
        _ => None,
    };
    match authored {
        Some(rows) => {
            assert(rows@ =~= compact_rows(character));
            rows
        },
        None => {
            let glyph = glyph_5x7(character);
            let rows = [
                reduce_row(glyph[0]),
                reduce_row(glyph[1]),
                reduce_row(glyph[3]),
                reduce_row(glyph[5]),
                reduce_row(glyph[6]),
            ];
            assert(rows@ =~= compact_rows(character));
            rows
        },
    }
}


// ---------------------------------------------------------------------------
// Project labels
// ---------------------------------------------------------------------------

/// The position of the last `c` in `s`, or -1.
pub open spec fn last_index(s: Seq<char>, c: char) -> int
    decreases s.len(),
{
    if s.len() == 0 {
        -1
    } else if s.last() == c {
        s.len() - 1
    } else {
        last_index(s.drop_last(), c)
    }
}

pub proof fn lemma_last_index(s: Seq<char>, c: char)
    ensures
        -1 <= last_index(s, c) < s.len(),
        last_index(s, c) >= 0 ==> s[last_index(s, c)] == c,
        forall|k: int| last_index(s, c) < k < s.len() ==> s[k] != c,
    decreases s.len(),
{
    if s.len() > 0 && s.last() != c {
        lemma_last_index(s.drop_last(), c);
        assert forall|k: int| last_index(s, c) < k < s.len() implies s[k] != c by {
            if k < s.len() - 1 {
                assert(s.drop_last()[k] == s[k]);
            }
        }
    }
}

/// The last non-empty `/`-separated part of a path.
pub open spec fn last_segment(s: Seq<char>) -> Option<Seq<char>>
    decreases s.len(),
{
    let j = last_index(s, '/');
    if s.skip(j + 1).len() > 0 {
        Some(s.skip(j + 1))
    } else if j < 0 {
        None
    } else {
        proof {
            lemma_last_index(s, '/');
        }
        last_segment(s.take(j))
    }
}

pub open spec fn label_char(c: char) -> char {
    if ('a' <= c && c <= 'z') || ('A' <= c && c <= 'Z') || ('0' <= c && c <= '9') {
        ascii_upper(c)
    } else if c == '-' || c == '_' || c == '.' {
        c
    } else {
        '\u{b7}'
    }
}

/// A project's sign text: its last path part in upper case, unsafe
/// characters shown as `·`, and "OFFICE" for an empty name.
pub open spec fn project_label_text(name: Seq<char>) -> Seq<char> {
    let source = match last_segment(name) {
        Some(part) => part,
        None => name,
    };
    if source.len() == 0 {
        "OFFICE"@
    } else {
        source.map_values(|c: char| label_char(c))
    }
}

/// A project's sign shows its last path part character for character:
/// every ASCII letter in upper case, every digit and `-`, `_`, `.` as they
/// are, any other character as `·`.
pub proof fn law_signs_keep_letters_and_digits(name: Seq<char>)
    ensures
        ({
            let source = match last_segment(name) {
                Some(part) => part,
                None => name,
            };
            let label = project_label_text(name);
            source.len() > 0 ==> {
                &&& label.len() == source.len()
                &&& forall|i: int|
                    0 <= i < source.len() ==> {
                        let c = #[trigger] source[i];
                        &&& ('a' <= c && c <= 'z' ==> label[i] as u32 == c as u32 - 32)
                        &&& (('A' <= c && c <= 'Z') || ('0' <= c && c <= '9') || c == '-' || c == '_'
                            || c == '.' ==> label[i] == c)
                        &&& (!(('a' <= c && c <= 'z') || ('A' <= c && c <= 'Z') || ('0' <= c && c <= '9')
                            || c == '-' || c == '_' || c == '.') ==> label[i] == '\u{b7}')
                    }
            }
        }),
{
    let source = match last_segment(name) {
        Some(part) => part,
        None => name,
    };
    assert forall|i: int| 0 <= i < source.len() && 'a' <= #[trigger] source[i] && source[i] <= 'z' implies
        ((source[i] as u32 - 32) as char) as u32 == source[i] as u32 - 32 by {
    }
}

fn find_last(chars: &Vec<char>, len: usize, c: char) -> (r: Option<usize>)
    requires
        len <= chars.len(),
    ensures
        match r {
            Some(j) => j as int == last_index(chars@.take(len as int), c),
            None => last_index(chars@.take(len as int), c) == -1,
        },
{
    let mut j = len;
    while j > 0
        invariant
            j <= len <= chars.len(),
            last_index(chars@.take(len as int), c) == last_index(chars@.take(j as int), c),
        decreases j,
    {
        assert(chars@.take(j as int).drop_last() =~= chars@.take(j - 1));
        if chars[j - 1] == c {
            return Some(j - 1);
        }
        j -= 1;
    }
    None
}

/// The bounds `[start, end)` of the last non-empty segment of `chars[..len]`.
fn last_segment_bounds(chars: &Vec<char>, len: usize) -> (r: Option<(usize, usize)>)
    requires
        len <= chars.len(),
    ensures
        match r {
            Some((start, end)) => start < end <= len && last_segment(chars@.take(len as int))
                == Some(chars@.subrange(start as int, end as int)),
            None => last_segment(chars@.take(len as int)) == None::<Seq<char>>,
        },
    decreases len,
{
    let ghost s = chars@.take(len as int);
    proof {
        lemma_last_index(s, '/');
    }
    match find_last(chars, len, '/') {
        Some(j) => {
            assert(s.skip(j + 1) =~= chars@.subrange(j + 1, len as int));
            if j + 1 < len {
                Some((j + 1, len))
            } else {
                assert(chars@.take(len as int).take(j as int) =~= chars@.take(j as int));
                last_segment_bounds(chars, j)
            }
        },
        None => {
            assert(s.skip(0) =~= s);
            if len > 0 {
                assert(chars@.subrange(0, len as int) =~= s);
                Some((0, len))
            } else {
                None
            }
        },
    }
}

pub fn project_label(name: &str) -> (r: String)
    ensures
        r@ == project_label_text(name@),
{
    let chars = chars_of(name);
    let (start, end) = match last_segment_bounds(&chars, chars.len()) {
        Some(bounds) => bounds,
        None => (0, chars.len()),
    };
    assert(chars@.take(chars.len() as int) =~= chars@);
    let ghost source = chars@.subrange(start as int, end as int);
    assert(source =~= match last_segment(name@) {
        Some(part) => part,
        None => name@,
    });
    if start == end {
        proof {
            reveal_strlit("OFFICE");
        }
        let office = vec!['O', 'F', 'F', 'I', 'C', 'E'];
        assert(office@ =~= "OFFICE"@);
        return string_of(&office);
    }
    let mut out: Vec<char> = Vec::new();
    let mut k = start;
    while k < end
        invariant
            start <= k <= end <= chars.len(),
            source == chars@.subrange(start as int, end as int),
            out@ == source.take(k - start).map_values(|c: char| label_char(c)),
        decreases end - k,
    {
        let c = chars[k];
        let d = if ('a' <= c && c <= 'z') || ('A' <= c && c <= 'Z') || ('0' <= c && c <= '9') {
            to_ascii_uppercase(c)
        } else if c == '-' || c == '_' || c == '.' {
            c
        } else {
            '\u{b7}'
        };
        out.push(d);
        k += 1;
        assert(source.take(k - start) =~= source.take(k - 1 - start).push(c));
        assert(out@ =~= source.take(k - start).map_values(|c: char| label_char(c)));
    }
    assert(source.take(end - start) =~= source);
    string_of(&out)
}

/// A project label is never empty, and only holds upper-case letters, digits,
/// `-`, `_`, `.` and `·`: every other character is substituted.
pub proof fn law_project_label_is_sign_safe(name: Seq<char>)
    ensures
        project_label_text(name).len() > 0,
        forall|i: int| 0 <= i < project_label_text(name).len() ==> {
            let c = #[trigger] project_label_text(name)[i];
            ('A' <= c && c <= 'Z') || ('0' <= c && c <= '9') || c == '-' || c == '_' || c == '.'
                || c == '\u{b7}'
        },
{
    reveal_strlit("OFFICE");
    let source = match last_segment(name) {
        Some(part) => part,
        None => name,
    };
    if source.len() > 0 {
        assert forall|i: int| 0 <= i < project_label_text(name).len() implies {
            let c = #[trigger] project_label_text(name)[i];
            ('A' <= c && c <= 'Z') || ('0' <= c && c <= '9') || c == '-' || c == '_' || c == '.'
                || c == '\u{b7}'
        } by {
            let c = source[i];
            if 'a' <= c && c <= 'z' {
                assert(((c as u32) - 32) as char == label_char(c));
            }
        }
    }
}

// ---------------------------------------------------------------------------
// Sign lines
// ---------------------------------------------------------------------------

pub open spec fn is_break_char(c: char) -> bool {
    c == '-' || c == '_' || c == '.'
}

pub open spec fn distance(a: int, b: int) -> int {
    if a >= b {
        a - b
    } else {
        b - a
    }
}

/// The first break position in `1 .. n` (just after `-`, `_` or `.`) closest
/// to `preferred`, searching from `from`; `best` is the best found so far.
pub open spec fn best_split(s: Seq<char>, preferred: int, from: int, best: Option<int>) -> Option<int>
    decreases s.len() - from,
{
    if from >= s.len() || from < 1 {
        best
    } else {
        let candidate = is_break_char(s[from - 1]);
        let better = candidate && match best {
            Some(b) => distance(from, preferred) < distance(b, preferred),
            None => true,
        };
        best_split(s, preferred, from + 1, if better { Some(from) } else { best })
    }
}

/// Where a long sign label is split in two.
pub open spec fn sign_split(s: Seq<char>) -> int {
    match best_split(s, (s.len() / 2) as int, 1, None) {
        Some(i) => i,
        None => (s.len() / 2) as int,
    }
}

/// Labels up to sixteen characters stay on one line; longer ones break in two
/// at the separator nearest the middle, or at the middle.
pub open spec fn sign_lines_text(label: Seq<char>) -> Seq<Seq<char>> {
    if label.len() <= 16 {
        seq![label]
    } else {
        seq![label.take(sign_split(label)), label.skip(sign_split(label))]
    }
}

proof fn lemma_best_split_range(s: Seq<char>, preferred: int, from: int, best: Option<int>)
    requires
        from >= 1,
        best matches Some(b) ==> 1 <= b < s.len(),
    ensures
        best_split(s, preferred, from, best) matches Some(b) ==> 1 <= b < s.len(),
    decreases s.len() - from,
{
    if from < s.len() {
        let candidate = is_break_char(s[from - 1]);
        let better = candidate && match best {
            Some(b) => distance(from, preferred) < distance(b, preferred),
            None => true,
        };
        lemma_best_split_range(s, preferred, from + 1, if better { Some(from) } else { best });
    }
}

pub fn sign_lines(label: &str) -> (r: Vec<String>)
    ensures
        r@.map_values(|l: String| l@) == sign_lines_text(label@),
{
    let chars = chars_of(label);
    let n = chars.len();
    if n <= 16 {
        let whole = string_of(&chars);
        let r = vec![whole];
        assert(r@.map_values(|l: String| l@) =~= sign_lines_text(label@));
        return r;
    }
    let preferred = n / 2;
    let mut best: Option<usize> = None;
    let mut index: usize = 1;
    while index < n
        invariant
            n == chars.len(),
            chars@ == label@,
            preferred == n / 2,
            1 <= index <= n,
            best matches Some(b) ==> 1 <= b < n,
            best_split(chars@, preferred as int, 1, None) == best_split(
                chars@,
                preferred as int,
                index as int,
                match best {
                    Some(b) => Some(b as int),
                    None => None,
                },
            ),
        decreases n - index,
    {
        let c = chars[index - 1];
        if c == '-' || c == '_' || c == '.' {
            let d = if index >= preferred {
                index - preferred
            } else {
                preferred - index
            };
            match best {
                Some(b) => {
                    let e = if b >= preferred {
                        b - preferred
                    } else {
                        preferred - b
                    };
                    if d < e {
                        best = Some(index);
                    }
                },
                None => {
                    best = Some(index);
                },
            }
        }
        index += 1;
    }
    let split = match best {
        Some(b) => b,
        None => preferred,
    };
    let mut first: Vec<char> = Vec::new();
    let mut second: Vec<char> = Vec::new();
    let mut k: usize = 0;
    while k < n
        invariant
            n == chars.len(),
            split <= n,
            k <= n,
            first@ == chars@.take(if k < split { k as int } else { split as int }),
            second@ == (if k <= split { Seq::<char>::empty() } else { chars@.subrange(split as int, k as int) }),
        decreases n - k,
    {
        if k < split {
            first.push(chars[k]);
        } else {
            second.push(chars[k]);
        }
        k += 1;
        assert(first@ =~= chars@.take(if k < split { k as int } else { split as int }));
        assert(second@ =~= (if k <= split { Seq::<char>::empty() } else { chars@.subrange(split as int, k as int) }));
    }
    assert(second@ =~= chars@.skip(split as int));
    let r = vec![string_of(&first), string_of(&second)];
    assert(r@.map_values(|l: String| l@) =~= sign_lines_text(label@));
    r
}

/// Splitting a sign never drops, adds or reorders a character, and yields at
/// most two lines, each non-empty when the label is long.
pub proof fn law_sign_lines_keep_the_label(label: Seq<char>)
    ensures
        sign_lines_text(label).flatten() == label,
        1 <= sign_lines_text(label).len() <= 2,
        label.len() > 16 ==> sign_lines_text(label)[0].len() > 0 && sign_lines_text(label)[1].len()
            > 0,
{
    broadcast use Seq::lemma_flatten_push;

    if label.len() <= 16 {
        seq![label].lemma_flatten_one_element();
    } else {
        let split = sign_split(label);
        lemma_best_split_range(label, (label.len() / 2) as int, 1, None);
        let lines = seq![label.take(split), label.skip(split)];
        assert(lines =~= seq![label.take(split)].push(label.skip(split)));
        seq![label.take(split)].lemma_flatten_one_element();
        assert(label.take(split) + label.skip(split) =~= label);
    }
}

/// Width in sign pixels of a 3x5 line: four columns a letter, less the last gap.
pub fn compact_sign_width(line: &str) -> (r: usize)
    ensures
        r == (if line@.len() * 4 > usize::MAX {
            usize::MAX - 1
        } else if line@.len() == 0 {
            0
        } else {
            line@.len() * 4 - 1
        }),
{
    let n = chars_of(line).len();
    let wide: usize = if n > usize::MAX / 4 {
        usize::MAX
    } else {
        n * 4
    };
    if wide == 0 {
        0
    } else {
        wide - 1
    }
}

/// Chunks of a label that fit a 3x5 sign `width` pixels wide (at least one
/// letter a line).
pub open spec fn compact_chunk(width: nat) -> nat {
    let per = (if width == usize::MAX { width } else { width + 1 }) / 4;
    if per >= 1 {
        per
    } else {
        1
    }
}

pub open spec fn chunks(s: Seq<char>, size: nat) -> Seq<Seq<char>>
    recommends
        size > 0,
    decreases s.len(),
{
    if s.len() == 0 || size == 0 {
        seq![]
    } else if s.len() <= size {
        seq![s]
    } else {
        seq![s.take(size as int)] + chunks(s.skip(size as int), size)
    }
}

pub fn compact_sign_lines(label: &str, width: usize) -> (r: Vec<String>)
    ensures
        r@.map_values(|l: String| l@) == chunks(label@, compact_chunk(width as nat)),
{
    let chars = chars_of(label);
    let per = (if width == usize::MAX {
        width
    } else {
        width + 1
    }) / 4;
    let size: usize = if per >= 1 {
        per
    } else {
        1
    };
    let mut out: Vec<String> = Vec::new();
    let mut start: usize = 0;
    assert(chars@.skip(0) =~= chars@);
    assert(out@.map_values(|l: String| l@) =~= Seq::<Seq<char>>::empty());
    while start < chars.len()
        invariant
            size >= 1,
            size == compact_chunk(width as nat),
            chars@ == label@,
            start <= chars.len(),
            out@.map_values(|l: String| l@) + chunks(chars@.skip(start as int), size as nat)
                == chunks(label@, size as nat),
        decreases chars.len() - start,
    {
        let rest = chars.len() - start;
        let end = if rest <= size {
            chars.len()
        } else {
            start + size
        };
        let mut piece: Vec<char> = Vec::new();
        let mut k = start;
        while k < end
            invariant
                start <= k <= end <= chars.len(),
                piece@ == chars@.subrange(start as int, k as int),
            decreases end - k,
        {
            piece.push(chars[k]);
            k += 1;
            assert(piece@ =~= chars@.subrange(start as int, k as int));
        }
        let ghost tail = chars@.skip(start as int);
        let ghost before = out@.map_values(|l: String| l@);
        out.push(string_of(&piece));
        assert(out@.map_values(|l: String| l@) =~= before.push(piece@));
        if rest <= size {
            assert(tail =~= piece@);
            assert(chunks(tail, size as nat) == seq![tail]);
            assert(chars@.skip(end as int) =~= Seq::<char>::empty());
            assert(before.push(piece@) =~= before + chunks(tail, size as nat));
        } else {
            assert(tail.take(size as int) =~= piece@);
            assert(tail.skip(size as int) =~= chars@.skip(end as int));
            assert(before.push(piece@) + chunks(chars@.skip(end as int), size as nat) =~= before
                + chunks(tail, size as nat));
        }
        start = end;
    }
    assert(chars@.skip(start as int) =~= Seq::<char>::empty());
    assert(out@.map_values(|l: String| l@) =~= chunks(label@, size as nat));
    out
}


// ---------------------------------------------------------------------------
// Worker plates
// ---------------------------------------------------------------------------

/// Unicode White_Space, the set `char::is_whitespace` tests.
pub open spec fn is_space(c: char) -> bool {
    let code = c as u32;
    ||| (0x09 <= code && code <= 0x0d)
    ||| code == 0x20
    ||| code == 0x85
    ||| code == 0xa0
    ||| code == 0x1680
    ||| (0x2000 <= code && code <= 0x200a)
    ||| code == 0x2028
    ||| code == 0x2029
    ||| code == 0x202f
    ||| code == 0x205f
    ||| code == 0x3000
}

pub fn is_whitespace(c: char) -> (r: bool)
    ensures
        r == is_space(c),
{
    let code = c as u32;
    (0x09 <= code && code <= 0x0d) || code == 0x20 || code == 0x85 || code == 0xa0 || code
        == 0x1680 || (0x2000 <= code && code <= 0x200a) || code == 0x2028 || code == 0x2029
        || code == 0x202f || code == 0x205f || code == 0x3000
}

/// The number of leading characters satisfying `p`.
pub open spec fn leading(s: Seq<char>, p: spec_fn(char) -> bool) -> nat
    decreases s.len(),
{
    if s.len() > 0 && p(s[0]) {
        1 + leading(s.drop_first(), p)
    } else {
        0
    }
}

/// The number of trailing characters satisfying `p`.
pub open spec fn trailing(s: Seq<char>, p: spec_fn(char) -> bool) -> nat
    decreases s.len(),
{
    if s.len() > 0 && p(s.last()) {
        1 + trailing(s.drop_last(), p)
    } else {
        0
    }
}

pub proof fn lemma_leading(s: Seq<char>, p: spec_fn(char) -> bool)
    ensures
        leading(s, p) <= s.len(),
        forall|i: int| 0 <= i < leading(s, p) ==> p(#[trigger] s[i]),
        leading(s, p) < s.len() ==> !p(s[leading(s, p) as int]),
    decreases s.len(),
{
    if s.len() > 0 && p(s[0]) {
        lemma_leading(s.drop_first(), p);
        assert forall|i: int| 0 <= i < leading(s, p) implies p(#[trigger] s[i]) by {
            if i > 0 {
                assert(s.drop_first()[i - 1] == s[i]);
            }
        }
    }
}

pub proof fn lemma_trailing(s: Seq<char>, p: spec_fn(char) -> bool)
    ensures
        trailing(s, p) <= s.len(),
        forall|i: int| s.len() - trailing(s, p) <= i < s.len() ==> p(#[trigger] s[i]),
        trailing(s, p) < s.len() ==> !p(s[s.len() - trailing(s, p) - 1]),
    decreases s.len(),
{
    if s.len() > 0 && p(s.last()) {
        lemma_trailing(s.drop_last(), p);
        assert forall|i: int| s.len() - trailing(s, p) <= i < s.len() implies p(#[trigger] s[i]) by {
            if i < s.len() - 1 {
                assert(s.drop_last()[i] == s[i]);
            }
        }
    }
}

/// `s` without leading and trailing characters satisfying `p`.
pub open spec fn trim_by(s: Seq<char>, p: spec_fn(char) -> bool) -> Seq<char> {
    let start = leading(s, p);
    if start >= s.len() {
        seq![]
    } else {
        s.subrange(start as int, s.len() - trailing(s, p))
    }
}

/// The count of leading characters of `chars[from..to]` satisfying the
/// predicate the caller tests.
fn count_leading_space(chars: &Vec<char>, from: usize, to: usize) -> (r: usize)
    requires
        from <= to <= chars.len(),
    ensures
        r == leading(chars@.subrange(from as int, to as int), |c: char| is_space(c)),
{
    let ghost p = |c: char| is_space(c);
    let mut k = from;
    while k < to && is_whitespace(chars[k])
        invariant
            p == (|c: char| is_space(c)),
            from <= k <= to <= chars.len(),
            leading(chars@.subrange(from as int, to as int), p) == (k - from) + leading(
                chars@.subrange(k as int, to as int),
                p,
            ),
        decreases to - k,
    {
        let ghost sub = chars@.subrange(k as int, to as int);
        assert(sub.drop_first() =~= chars@.subrange(k + 1, to as int));
        assert(sub[0] == chars@[k as int]);
        assert(p(sub[0]));
        assert(leading(sub, p) == 1 + leading(sub.drop_first(), p));
        k += 1;
    }
    k - from
}

fn count_trailing_space(chars: &Vec<char>, from: usize, to: usize) -> (r: usize)
    requires
        from <= to <= chars.len(),
    ensures
        r == trailing(chars@.subrange(from as int, to as int), |c: char| is_space(c)),
{
    let ghost p = |c: char| is_space(c);
    let mut k = to;
    while k > from && is_whitespace(chars[k - 1])
        invariant
            p == (|c: char| is_space(c)),
            from <= k <= to <= chars.len(),
            trailing(chars@.subrange(from as int, to as int), p) == (to - k) + trailing(
                chars@.subrange(from as int, k as int),
                p,
            ),
        decreases k - from,
    {
        let ghost sub = chars@.subrange(from as int, k as int);
        assert(sub.drop_last() =~= chars@.subrange(from as int, k - 1));
        assert(sub.last() == chars@[k - 1]);
        assert(p(sub.last()));
        assert(trailing(sub, p) == 1 + trailing(sub.drop_last(), p));
        k -= 1;
    }
    to - k
}

pub open spec fn is_plate_separator(c: char) -> bool {
    c == '/' || c == '#' || c == ':' || c == '-' || c == '_' || c == ' ' || c == '\u{b7}'
}

/// The three forms of the office name a worker title may start with: as
/// written, without surrounding slashes, and its last path part.
pub open spec fn office_prefixes(office: Seq<char>) -> Seq<Seq<char>> {
    seq![
        office,
        trim_by(office, |c: char| c == '/'),
        match last_segment(office) {
            Some(part) => part,
            None => office,
        },
    ]
}

/// What is left of a worker title after an office prefix and the separators
/// that follow it, if the title starts with that prefix.
pub open spec fn after_prefix(title: Seq<char>, prefix: Seq<char>) -> Seq<char> {
    if prefix.len() > 0 && prefix.len() <= title.len() && title.take(prefix.len() as int) == prefix {
        let rest = title.skip(prefix.len() as int);
        rest.skip(leading(rest, |c: char| is_plate_separator(c)) as int)
    } else {
        seq![]
    }
}

/// A worker's plate name: its trimmed title without a leading office name,
/// unless nothing would remain.
pub open spec fn plate_name_text(worker_name: Seq<char>, office: Seq<char>) -> Seq<char> {
    let title = trim_by(worker_name, |c: char| is_space(c));
    let prefixes = office_prefixes(office);
    if after_prefix(title, prefixes[0]).len() > 0 {
        after_prefix(title, prefixes[0])
    } else if after_prefix(title, prefixes[1]).len() > 0 {
        after_prefix(title, prefixes[1])
    } else if after_prefix(title, prefixes[2]).len() > 0 {
        after_prefix(title, prefixes[2])
    } else {
        title
    }
}

pub(crate) fn copy_range(chars: &Vec<char>, from: usize, to: usize) -> (r: Vec<char>)
    requires
        from <= to <= chars.len(),
    ensures
        r@ == chars@.subrange(from as int, to as int),
{
    let mut out: Vec<char> = Vec::new();
    let mut k = from;
    while k < to
        invariant
            from <= k <= to <= chars.len(),
            out@ == chars@.subrange(from as int, k as int),
        decreases to - k,
    {
        out.push(chars[k]);
        k += 1;
        assert(out@ =~= chars@.subrange(from as int, k as int));
    }
    out
}

fn trim_slashes(chars: &Vec<char>) -> (r: Vec<char>)
    ensures
        r@ == trim_by(chars@, |c: char| c == '/'),
{
    let ghost p = |c: char| c == '/';
    let n = chars.len();
    let mut a: usize = 0;
    assert(chars@.subrange(0, n as int) =~= chars@);
    while a < n && chars[a] == '/'
        invariant
            p == (|c: char| c == '/'),
            a <= n == chars.len(),
            leading(chars@, p) == a + leading(chars@.subrange(a as int, n as int), p),
        decreases n - a,
    {
        let ghost sub = chars@.subrange(a as int, n as int);
        assert(sub.drop_first() =~= chars@.subrange(a + 1, n as int));
        assert(sub[0] == chars@[a as int]);
        assert(p(sub[0]));
        assert(leading(sub, p) == 1 + leading(sub.drop_first(), p));
        a += 1;
    }
    assert(chars@.subrange(a as int, n as int).len() == 0 ==> leading(chars@.subrange(a as int, n as int), p) == 0);
    assert(chars@.subrange(0, n as int) =~= chars@);
    let mut b: usize = n;
    while b > 0 && chars[b - 1] == '/'
        invariant
            p == (|c: char| c == '/'),
            b <= n == chars.len(),
            trailing(chars@, p) == (n - b) + trailing(chars@.subrange(0, b as int), p),
        decreases b,
    {
        let ghost sub = chars@.subrange(0, b as int);
        assert(sub.drop_last() =~= chars@.subrange(0, b - 1));
        assert(sub.last() == chars@[b - 1]);
        assert(p(sub.last()));
        assert(trailing(sub, p) == 1 + trailing(sub.drop_last(), p));
        b -= 1;
    }
    proof {
        lemma_leading(chars@, p);
        lemma_trailing(chars@, p);
    }
    if a >= n {
        return Vec::new();
    }
    assert(b > a);
    copy_range(chars, a, b)
}

/// The part of `title` after `prefix` and its separators, when the title
/// starts with a non-empty prefix.
fn strip_office(title: &Vec<char>, prefix: &Vec<char>) -> (r: Vec<char>)
    ensures
        r@ == after_prefix(title@, prefix@),
{
    if prefix.len() == 0 || prefix.len() > title.len() {
        return Vec::new();
    }
    let mut k: usize = 0;
    while k < prefix.len()
        invariant
            prefix.len() <= title.len(),
            k <= prefix.len(),
            forall|i: int| 0 <= i < k ==> title@[i] == prefix@[i],
        decreases prefix.len() - k,
    {
        if title[k] != prefix[k] {
            assert(title@.take(prefix.len() as int)[k as int] != prefix@[k as int]);
            return Vec::new();
        }
        k += 1;
    }
    assert(title@.take(prefix.len() as int) =~= prefix@);
    let ghost rest = title@.skip(prefix.len() as int);
    let ghost p = |c: char| is_plate_separator(c);
    let mut a = prefix.len();
    while a < title.len() && (title[a] == '/' || title[a] == '#' || title[a] == ':' || title[a]
        == '-' || title[a] == '_' || title[a] == ' ' || title[a] == '\u{b7}')
        invariant
            p == (|c: char| is_plate_separator(c)),
            prefix.len() <= a <= title.len(),
            rest == title@.skip(prefix.len() as int),
            leading(rest, p) == (a - prefix.len()) + leading(title@.skip(a as int), p),
        decreases title.len() - a,
    {
        let ghost sub = title@.skip(a as int);
        assert(sub.drop_first() =~= title@.skip(a + 1));
        assert(sub[0] == title@[a as int]);
        assert(p(sub[0]));
        assert(leading(sub, p) == 1 + leading(sub.drop_first(), p));
        a += 1;
    }
    assert(title@.skip(a as int).len() == 0 ==> leading(title@.skip(a as int), p) == 0);
    assert(rest.skip(leading(rest, p) as int) =~= title@.skip(a as int));
    copy_range(title, a, title.len())
}

fn last_part(chars: &Vec<char>) -> (r: Vec<char>)
    ensures
        r@ == match last_segment(chars@) {
            Some(part) => part,
            None => chars@,
        },
{
    assert(chars@.take(chars.len() as int) =~= chars@);
    match last_segment_bounds(chars, chars.len()) {
        Some((start, end)) => copy_range(chars, start, end),
        None => chars.clone(),
    }
}

/// `str::trim`: the text without leading and trailing Unicode whitespace.
pub open spec fn trim_space(s: Seq<char>) -> Seq<char> {
    trim_by(s, |c: char| is_space(c))
}

pub(crate) fn trimmed(text: &str) -> (r: String)
    ensures
        r@ == trim_space(text@),
{
    string_of(&trim_spaces(text))
}

fn trim_spaces(text: &str) -> (r: Vec<char>)
    ensures
        r@ == trim_by(text@, |c: char| is_space(c)),
{
    let raw = chars_of(text);
    let n = raw.len();
    let lead = count_leading_space(&raw, 0, n);
    assert(raw@.subrange(0, n as int) =~= raw@);
    if lead >= n {
        return Vec::new();
    }
    let trail = count_trailing_space(&raw, 0, n);
    proof {
        lemma_leading(raw@, |c: char| is_space(c));
        lemma_trailing(raw@, |c: char| is_space(c));
    }
    copy_range(&raw, lead, n - trail)
}

pub(crate) fn plate_name_chars(worker_name: &str, office_name: &str) -> (r: Vec<char>)
    ensures
        r@ == plate_name_text(worker_name@, office_name@),
{
    let title = trim_spaces(worker_name);
    let office = chars_of(office_name);
    let first = strip_office(&title, &office);
    if first.len() > 0 {
        return first;
    }
    let second = strip_office(&title, &trim_slashes(&office));
    if second.len() > 0 {
        return second;
    }
    let third = strip_office(&title, &last_part(&office));
    if third.len() > 0 {
        return third;
    }
    title
}

pub fn worker_plate_name(worker_name: &str, office_name: &str) -> (r: String)
    ensures
        r@ == plate_name_text(worker_name@, office_name@),
{
    let chars = plate_name_chars(worker_name, office_name);
    string_of(&chars)
}


// ---------------------------------------------------------------------------
// Distinguishable plates
// ---------------------------------------------------------------------------

pub open spec fn plate_names(names: Seq<Seq<char>>, office: Seq<char>) -> Seq<Seq<char>> {
    names.map_values(|n: Seq<char>| plate_name_text(n, office))
}

/// How many of the first `k` plate names elide to `shown`.
pub open spec fn colliding_count(ps: Seq<Seq<char>>, width: nat, shown: Seq<char>, k: int) -> nat
    decreases k,
{
    if k <= 0 {
        0
    } else {
        colliding_count(ps, width, shown, k - 1) + if short_path_text(ps[k - 1], width) == shown {
            1nat
        } else {
            0nat
        }
    }
}

/// How many of the first `k` plate names both elide to `shown` and equal `name`.
pub open spec fn identical_count(ps: Seq<Seq<char>>, width: nat, shown: Seq<char>, name: Seq<char>, k: int) -> nat
    decreases k,
{
    if k <= 0 {
        0
    } else {
        identical_count(ps, width, shown, name, k - 1) + if short_path_text(ps[k - 1], width)
            == shown && ps[k - 1] == name {
            1nat
        } else {
            0nat
        }
    }
}

/// Every plate name that elides like `name` shares its character at `i`.
pub open spec fn agrees_at(ps: Seq<Seq<char>>, width: nat, shown: Seq<char>, name: Seq<char>, i: int) -> bool {
    forall|j: int|
        0 <= j < ps.len() && short_path_text(ps[j], width) == shown ==> #[trigger] ps[j].len() > i
            && ps[j][i] == name[i]
}

/// The length of the prefix `name` shares with every plate that elides like it.
pub open spec fn common_len(ps: Seq<Seq<char>>, width: nat, shown: Seq<char>, name: Seq<char>, i: int) -> int
    decreases name.len() - i,
{
    if 0 <= i < name.len() && agrees_at(ps, width, shown, name, i) {
        common_len(ps, width, shown, name, i + 1)
    } else {
        i
    }
}

pub open spec fn is_suffix_separator(c: char) -> bool {
    c == ' ' || c == '-' || c == '/' || c == ':' || c == '_'
}

pub open spec fn hex_char(d: nat) -> char {
    if d < 10 {
        (('0' as u32) + d) as char
    } else {
        (('a' as u32) + d - 10) as char
    }
}

/// The last `n` lowercase hexadecimal digits of `v`, zero padded.
pub open spec fn hex_digits(v: nat, n: nat) -> Seq<char>
    decreases n,
{
    if n == 0 {
        seq![]
    } else {
        hex_digits(v / 16, (n - 1) as nat).push(hex_char(v % 16))
    }
}

/// 32-bit FNV-1a over bytes.
pub open spec fn fnv1a(bytes: Seq<u8>) -> u32
    decreases bytes.len(),
{
    if bytes.len() == 0 {
        2166136261
    } else {
        (((fnv1a(bytes.drop_last()) ^ (bytes.last() as u32)) as nat * 16777619) % 0x1_0000_0000) as u32
    }
}

/// The identity tag `#xxxxxx` of a worker id: the low 24 bits of its FNV-1a hash.
pub open spec fn identity_tag(id: Seq<char>) -> Seq<char> {
    seq!['#'] + hex_digits((fnv1a(vstd::utf8::encode_utf8(id)) as nat) % 0x100_0000, 6)
}

/// The text that remains after the shared prefix, without joining separators.
pub open spec fn distinguishing_suffix(ps: Seq<Seq<char>>, width: nat, shown: Seq<char>, name: Seq<char>) -> Seq<char> {
    let rest = name.skip(common_len(ps, width, shown, name, 0));
    rest.skip(leading(rest, |c: char| is_suffix_separator(c)) as int)
}

pub open spec fn sat_sub(a: int, b: int) -> int {
    if a > b {
        a - b
    } else {
        0
    }
}

/// A plate that still tells apart workers whose elided names collide: the
/// distinguishing suffix when it is unique, otherwise an identity tag.
pub open spec fn unique_plate_text(
    ids: Seq<Seq<char>>,
    names: Seq<Seq<char>>,
    slot: int,
    office: Seq<char>,
    width: nat,
) -> Seq<char> {
    let ps = plate_names(names, office);
    if slot < 0 || slot >= ps.len() {
        seq![]
    } else {
        let name = ps[slot];
        let shown = short_path_text(name, width);
        if colliding_count(ps, width, shown, ps.len() as int) < 2 {
            shown
        } else {
            let suffix = distinguishing_suffix(ps, width, shown, name);
            if suffix.len() > 0 && identical_count(ps, width, shown, name, ps.len() as int) == 1 {
                if suffix.len() + 5 < width {
                    short_path_text(name, (width - (suffix.len() + 1)) as nat) + seq![' '] + suffix
                } else if suffix.len() <= width {
                    suffix
                } else {
                    seq!['\u{2026}'] + suffix.skip(
                        sat_sub(suffix.len() as int, sat_sub(width as int, 1)),
                    )
                }
            } else {
                short_path_text(name, sat_sub(width as int, 7) as nat) + identity_tag(ids[slot])
            }
        }
    }
}

fn short_of(chars: &Vec<char>, width: usize) -> (r: String)
    ensures
        r@ == short_path_text(chars@, width as nat),
{
    let s = string_of(chars);
    short_path(s.as_str(), width)
}

fn hex_digit(d: u32) -> (c: char)
    requires
        d < 16,
    ensures
        c == hex_char(d as nat),
{
    let code: u32 = if d < 10 {
        ('0' as u32) + d
    } else {
        ('a' as u32) + d - 10
    };
    code as u8 as char
}

fn push_hex(out: &mut Vec<char>, v: u32, n: usize)
    ensures
        final(out)@ == old(out)@ + hex_digits(v as nat, n as nat),
    decreases n,
{
    if n == 0 {
        assert(final(out)@ =~= old(out)@ + hex_digits(v as nat, n as nat));
        return;
    }
    push_hex(out, v / 16, n - 1);
    let d = hex_digit(v % 16);
    out.push(d);
    assert(final(out)@ =~= old(out)@ + hex_digits(v as nat, n as nat));
}

fn fnv_hash(id: &str) -> (h: u32)
    ensures
        h == fnv1a(vstd::utf8::encode_utf8(id@)),
{
    let bytes = id.as_bytes();
    let mut h: u32 = 2166136261;
    let mut i: usize = 0;
    while i < bytes.len()
        invariant
            bytes@ == vstd::utf8::encode_utf8(id@),
            i <= bytes.len(),
            h == fnv1a(bytes@.take(i as int)),
        decreases bytes.len() - i,
    {
        assert(bytes@.take(i + 1).drop_last() =~= bytes@.take(i as int));
        h = (h ^ (bytes[i] as u32)).wrapping_mul(16777619);
        i += 1;
    }
    assert(bytes@.take(bytes.len() as int) =~= bytes@);
    h
}

pub fn unique_plate_name(
    ids: &Vec<String>,
    names: &Vec<String>,
    slot: usize,
    office_name: &str,
    width: usize,
) -> (r: String)
    requires
        ids.len() == names.len(),
    ensures
        r@ == unique_plate_text(
            ids@.map_values(|s: String| s@),
            names@.map_values(|s: String| s@),
            slot as int,
            office_name@,
            width as nat,
        ),
{
    let ghost ps = plate_names(names@.map_values(|s: String| s@), office_name@);
    let mut plates: Vec<Vec<char>> = Vec::new();
    let mut k: usize = 0;
    while k < names.len()
        invariant
            k <= names.len(),
            ps == plate_names(names@.map_values(|s: String| s@), office_name@),
            plates@.len() == k,
            forall|j: int| 0 <= j < k ==> #[trigger] plates@[j]@ == ps[j],
        decreases names.len() - k,
    {
        plates.push(plate_name_chars(names[k].as_str(), office_name));
        k += 1;
    }
    if slot >= plates.len() {
        return String::new();
    }
    let shown = short_of(&plates[slot], width);
    let ghost name = ps[slot as int];
    // Which plates elide like this one, and how many do.
    let mut collide: Vec<bool> = Vec::new();
    let mut count: usize = 0;
    let mut same: usize = 0;
    let mut j: usize = 0;
    while j < plates.len()
        invariant
            plates@.len() == ps.len(),
            forall|i: int| 0 <= i < plates@.len() ==> #[trigger] plates@[i]@ == ps[i],
            slot < plates@.len(),
            name == ps[slot as int],
            j <= plates.len(),
            collide@.len() == j,
            forall|i: int| 0 <= i < j ==> #[trigger] collide@[i] == (short_path_text(ps[i], width as nat) == shown@),
            count == colliding_count(ps, width as nat, shown@, j as int),
            same == identical_count(ps, width as nat, shown@, name, j as int),
            count <= j,
            same <= j,
        decreases plates.len() - j,
    {
        let other = short_of(&plates[j], width);
        let hit = same_text(other.as_str(), shown.as_str());
        collide.push(hit);
        if hit {
            count += 1;
            if same_chars(&plates[j], &plates[slot]) {
                same += 1;
            }
        }
        j += 1;
    }
    if count < 2 {
        return shown;
    }
    // The prefix every colliding plate shares with this one.
    let name_chars = &plates[slot];
    let mut common: usize = 0;
    let mut agreeing = true;
    while common < name_chars.len() && agreeing
        invariant
            plates@.len() == ps.len(),
            forall|i: int| 0 <= i < plates@.len() ==> #[trigger] plates@[i]@ == ps[i],
            forall|i: int| 0 <= i < plates@.len() ==> #[trigger] collide@[i] == (short_path_text(ps[i], width as nat) == shown@),
            collide@.len() == plates@.len(),
            name_chars@ == name,
            common <= name_chars.len(),
            agreeing ==> common_len(ps, width as nat, shown@, name, 0) == common_len(
                ps,
                width as nat,
                shown@,
                name,
                common as int,
            ),
            !agreeing ==> common_len(ps, width as nat, shown@, name, 0) == common,
        decreases name_chars.len() - common + (if agreeing { 1int } else { 0int }),
    {
        let mut all = true;
        let mut q: usize = 0;
        while q < plates.len() && all
            invariant
                plates@.len() == ps.len(),
                forall|i: int| 0 <= i < plates@.len() ==> #[trigger] plates@[i]@ == ps[i],
                forall|i: int| 0 <= i < plates@.len() ==> #[trigger] collide@[i] == (short_path_text(ps[i], width as nat) == shown@),
                collide@.len() == plates@.len(),
                name_chars@ == name,
                common < name_chars.len(),
                q <= plates.len(),
                all ==> forall|i: int| 0 <= i < q && short_path_text(ps[i], width as nat) == shown@
                    ==> #[trigger] ps[i].len() > common && ps[i][common as int] == name[common as int],
                !all ==> !agrees_at(ps, width as nat, shown@, name, common as int),
            decreases plates.len() - q + (if all { 1int } else { 0int }),
        {
            if collide[q] {
                let other = &plates[q];
                if !(other.len() > common && other[common] == name_chars[common]) {
                    all = false;
                    assert(ps[q as int] == other@);
                }
            }
            if all {
                q += 1;
            }
        }
        if all {
            assert(agrees_at(ps, width as nat, shown@, name, common as int));
            common += 1;
        } else {
            agreeing = false;
        }
    }
    assert(common_len(ps, width as nat, shown@, name, 0) == common);
    // The distinguishing suffix, without separators where it joins.
    let mut start = common;
    let ghost rest = name.skip(common as int);
    let ghost p = |c: char| is_suffix_separator(c);
    while start < name_chars.len() && (name_chars[start] == ' ' || name_chars[start] == '-'
        || name_chars[start] == '/' || name_chars[start] == ':' || name_chars[start] == '_')
        invariant
            p == (|c: char| is_suffix_separator(c)),
            name_chars@ == name,
            common <= start <= name_chars.len(),
            rest == name.skip(common as int),
            leading(rest, p) == (start - common) + leading(name.skip(start as int), p),
        decreases name_chars.len() - start,
    {
        let ghost sub = name.skip(start as int);
        assert(sub.drop_first() =~= name.skip(start + 1));
        assert(sub[0] == name[start as int]);
        assert(p(sub[0]));
        assert(leading(sub, p) == 1 + leading(sub.drop_first(), p));
        start += 1;
    }
    assert(name.skip(start as int).len() == 0 ==> leading(name.skip(start as int), p) == 0);
    let suffix = copy_range(name_chars, start, name_chars.len());
    assert(suffix@ =~= distinguishing_suffix(ps, width as nat, shown@, name));
    let n = suffix.len();
    if n > 0 && same == 1 {
        if width >= 5 && n < width - 5 {
            let head = short_of(name_chars, width - (n + 1));
            let mut out = chars_of(head.as_str());
            out.push(' ');
            crate::text::extend_chars(&mut out, &suffix);
            return string_of(&out);
        } else if n <= width {
            return string_of(&suffix);
        } else {
            let keep = if width >= 1 {
                width - 1
            } else {
                0
            };
            let from = if n > keep {
                n - keep
            } else {
                0
            };
            let mut out: Vec<char> = vec!['\u{2026}'];
            let tail = copy_range(&suffix, from, n);
            crate::text::extend_chars(&mut out, &tail);
            assert(out@ =~= seq!['\u{2026}'] + suffix@.skip(from as int));
            return string_of(&out);
        }
    }
    let room = if width >= 7 {
        width - 7
    } else {
        0
    };
    let head = short_of(name_chars, room);
    let mut out = chars_of(head.as_str());
    out.push('#');
    let hash = fnv_hash(ids[slot].as_str());
    push_hex(&mut out, hash % 0x100_0000, 6);
    assert(out@ =~= head@ + identity_tag(ids@[slot as int]@));
    string_of(&out)
}

fn same_chars(a: &Vec<char>, b: &Vec<char>) -> (r: bool)
    ensures
        r == (a@ == b@),
{
    if a.len() != b.len() {
        return false;
    }
    let mut i: usize = 0;
    while i < a.len()
        invariant
            a.len() == b.len(),
            i <= a.len(),
            forall|k: int| 0 <= k < i ==> a@[k] == b@[k],
        decreases a.len() - i,
    {
        if a[i] != b[i] {
            return false;
        }
        i += 1;
    }
    assert(a@ =~= b@);
    true
}

} // verus!
