//! A bounded, line-preserving text field with a cursor between characters.
use vstd::prelude::*;
use crate::text::{chars_of, is_control, is_control_code, safe_lines_text, safe_multiline, string_of};

verus! {

/// A field never holds more characters than this.
pub const INPUT_LIMIT: usize = 16000;

/// An editing key, already separated from terminal key events.
#[derive(Debug, Clone, Copy, PartialEq, Eq, Structural)]
pub enum EditKey {
    /// A typed character; `modified` when Control or Alt was held.
    Char(char, bool),
    Enter,
    Left,
    Right,
    Home,
    End,
    Backspace,
    Delete,
    Other,
}

/// Characters a paste keeps: everything but controls, except line breaks and tabs.
pub open spec fn pasteable(c: char) -> bool {
    !is_control_code(c as u32) || c == '\n' || c == '\t'
}

pub open spec fn keep_pasteable(s: Seq<char>) -> Seq<char>
    decreases s.len(),
{
    if s.len() == 0 {
        seq![]
    } else if pasteable(s.last()) {
        keep_pasteable(s.drop_last()).push(s.last())
    } else {
        keep_pasteable(s.drop_last())
    }
}

/// The pasted characters that are kept: printable ones, up to the room left.
pub open spec fn paste_text(pasted: Seq<char>, current_len: nat) -> Seq<char> {
    let room = if current_len >= INPUT_LIMIT {
        0
    } else {
        (INPUT_LIMIT - current_len) as nat
    };
    let kept = keep_pasteable(pasted);
    if kept.len() <= room {
        kept
    } else {
        kept.take(room as int)
    }
}

/// What an editing key does to a field's text and cursor: typing inserts
/// at the cursor within the field's limit, the arrows, Home and End move the
/// cursor, Backspace and Delete remove the character before or after it.
pub open spec fn edited(t: Seq<char>, c: nat, key: EditKey) -> (Seq<char>, nat) {
    match key {
        EditKey::Char(ch, false) => (
            t.take(c as int) + paste_text(seq![ch], t.len()) + t.skip(c as int),
            c + paste_text(seq![ch], t.len()).len(),
        ),
        EditKey::Enter => (
            t.take(c as int) + paste_text(seq!['\n'], t.len()) + t.skip(c as int),
            c + paste_text(seq!['\n'], t.len()).len(),
        ),
        EditKey::Left => (t, if c > 0 { (c - 1) as nat } else { 0 }),
        EditKey::Right => (t, if c < t.len() { c + 1 } else { c }),
        EditKey::Home => (t, 0),
        EditKey::End => (t, t.len()),
        EditKey::Backspace => if c > 0 {
            (t.take(c - 1) + t.skip(c as int), (c - 1) as nat)
        } else {
            (t, c)
        },
        EditKey::Delete => if c < t.len() {
            (t.take(c as int) + t.skip((c + 1) as int), c)
        } else {
            (t, c)
        },
        _ => (t, c),
    }
}

pub struct Input {
    pub text: String,
    cursor: usize,
}

impl Input {
    /// The cursor, as a position between characters.
    pub closed spec fn cursor_at(&self) -> nat {
        self.cursor as nat
    }

    /// The characters of the field.
    pub closed spec fn content(&self) -> Seq<char> {
        self.text@
    }

    pub closed spec fn wf(&self) -> bool {
        self.cursor_at() <= self.content().len()
    }

    pub fn new() -> (r: Self)
        ensures
            r.wf(),
            r.content() == Seq::<char>::empty(),
            r.cursor_at() == 0,
    {
        Input { text: String::new(), cursor: 0 }
    }

    pub fn text(&self) -> (r: &String)
        ensures
            r@ == self.content(),
    {
        &self.text
    }

    pub fn cursor(&self) -> (r: usize)
        ensures
            r == self.cursor_at(),
    {
        self.cursor
    }

    /// Replace the text, with the cursor after its last character.
    pub fn set(&mut self, text: String)
        ensures
            final(self).wf(),
            final(self).content() == text@,
            final(self).cursor_at() == text@.len(),
    {
        let n = chars_of(text.as_str()).len();
        self.cursor = n;
        self.text = text;
    }

    /// Insert printable text at the cursor, within the field's limit, and move
    /// the cursor past it.
    pub fn paste(&mut self, text: &str)
        requires
            old(self).wf(),
        ensures
            final(self).wf(),
            final(self).content() == old(self).content().take(old(self).cursor_at() as int) + paste_text(
                text@,
                old(self).content().len(),
            ) + old(self).content().skip(old(self).cursor_at() as int),
            final(self).cursor_at() == old(self).cursor_at() + paste_text(
                text@,
                old(self).content().len(),
            ).len(),
    {
        let current = chars_of(self.text.as_str());
        let pasted = chars_of(text);
        let room: usize = if current.len() >= INPUT_LIMIT {
            0
        } else {
            INPUT_LIMIT - current.len()
        };
        let mut kept: Vec<char> = Vec::new();
        let mut i: usize = 0;
        while i < pasted.len()
            invariant
                i <= pasted.len(),
                pasted@ == text@,
                kept@ == keep_pasteable(pasted@.take(i as int)),
            decreases pasted.len() - i,
        {
            let c = pasted[i];
            assert(pasted@.take(i + 1).drop_last() =~= pasted@.take(i as int));
            if !is_control(c) || c == '\n' || c == '\t' {
                kept.push(c);
            }
            i += 1;
        }
        assert(pasted@.take(pasted.len() as int) =~= pasted@);
        let take = if kept.len() <= room {
            kept.len()
        } else {
            room
        };
        let mut out: Vec<char> = Vec::new();
        let mut k: usize = 0;
        while k < self.cursor
            invariant
                self.cursor <= current.len(),
                k <= self.cursor,
                out@ == current@.take(k as int),
            decreases self.cursor - k,
        {
            out.push(current[k]);
            k += 1;
            assert(out@ =~= current@.take(k as int));
        }
        let mut q: usize = 0;
        while q < take
            invariant
                take <= kept.len(),
                q <= take,
                out@ == current@.take(self.cursor as int) + kept@.take(q as int),
            decreases take - q,
        {
            out.push(kept[q]);
            q += 1;
            assert(out@ =~= current@.take(self.cursor as int) + kept@.take(q as int));
        }
        let mut r = self.cursor;
        while r < current.len()
            invariant
                self.cursor <= r <= current.len(),
                out@ == current@.take(self.cursor as int) + kept@.take(take as int)
                    + current@.subrange(self.cursor as int, r as int),
            decreases current.len() - r,
        {
            out.push(current[r]);
            r += 1;
            assert(out@ =~= current@.take(self.cursor as int) + kept@.take(take as int)
                + current@.subrange(self.cursor as int, r as int));
        }
        assert(kept@.take(take as int) =~= paste_text(text@, current@.len()));
        assert(current@.subrange(self.cursor as int, current.len() as int) =~= current@.skip(
            self.cursor as int,
        ));
        self.text = string_of(&out);
        self.cursor = self.cursor + take;
    }

    /// Remove the characters in `[from, to)`.
    fn remove_range(&mut self, from: usize, to: usize)
        requires
            from <= to <= old(self).content().len(),
        ensures
            final(self).content() == old(self).content().take(from as int) + old(self).content().skip(to as int),
            final(self).cursor == old(self).cursor,
    {
        let current = chars_of(self.text.as_str());
        let mut out: Vec<char> = Vec::new();
        let mut k: usize = 0;
        while k < current.len()
            invariant
                from <= to <= current.len(),
                k <= current.len(),
                out@ == current@.take(if k < from { k as int } else { from as int }) + (if k
                    <= to {
                    Seq::<char>::empty()
                } else {
                    current@.subrange(to as int, k as int)
                }),
            decreases current.len() - k,
        {
            if k < from || k >= to {
                out.push(current[k]);
            }
            k += 1;
            assert(out@ =~= current@.take(if k < from { k as int } else { from as int }) + (if k
                <= to {
                Seq::<char>::empty()
            } else {
                current@.subrange(to as int, k as int)
            }));
        }
        assert(current@.subrange(to as int, current.len() as int) =~= current@.skip(to as int));
        assert(out@ =~= current@.take(from as int) + current@.skip(to as int));
        self.text = string_of(&out);
    }

    /// Apply one editing key.
    pub fn key(&mut self, key: EditKey)
        requires
            old(self).wf(),
        ensures
            final(self).wf(),
            (final(self).content(), final(self).cursor_at()) == edited(
                old(self).content(),
                old(self).cursor_at(),
                key,
            ),
            ({
                let t = old(self).content();
                let c = old(self).cursor_at();
                match key {
                    EditKey::Char(ch, false) => final(self).content() == t.take(c as int) + paste_text(
                        seq![ch],
                        t.len(),
                    ) + t.skip(c as int) && final(self).cursor_at() == c + paste_text(
                        seq![ch],
                        t.len(),
                    ).len(),
                    EditKey::Enter => final(self).content() == t.take(c as int) + paste_text(
                        seq!['\n'],
                        t.len(),
                    ) + t.skip(c as int) && final(self).cursor_at() == c + paste_text(
                        seq!['\n'],
                        t.len(),
                    ).len(),
                    EditKey::Left => final(self).content() == t && final(self).cursor_at() == (if c
                        > 0 {
                        (c - 1) as nat
                    } else {
                        0
                    }),
                    EditKey::Right => final(self).content() == t && final(self).cursor_at() == (if c
                        < t.len() {
                        c + 1
                    } else {
                        c
                    }),
                    EditKey::Home => final(self).content() == t && final(self).cursor_at() == 0,
                    EditKey::End => final(self).content() == t && final(self).cursor_at() == t.len(),
                    EditKey::Backspace => if c > 0 {
                        final(self).content() == t.take(c - 1) + t.skip(c as int)
                            && final(self).cursor_at() == c - 1
                    } else {
                        final(self).content() == t && final(self).cursor_at() == c
                    },
                    EditKey::Delete => if c < t.len() {
                        final(self).content() == t.take(c as int) + t.skip((c + 1) as int)
                            && final(self).cursor_at() == c
                    } else {
                        final(self).content() == t && final(self).cursor_at() == c
                    },
                    _ => final(self).content() == t && final(self).cursor_at() == c,
                }
            }),
    {
        let len = chars_of(self.text.as_str()).len();
        match key {
            EditKey::Char(c, modified) => {
                if !modified {
                    let mut one = String::new();
                    crate::text::push_char(&mut one, c);
                    assert(one@ =~= seq![c]);
                    self.paste(one.as_str());
                }
            },
            EditKey::Enter => {
                let mut one = String::new();
                crate::text::push_char(&mut one, '\n');
                assert(one@ =~= seq!['\n']);
                self.paste(one.as_str());
            },
            EditKey::Left => {
                if self.cursor > 0 {
                    self.cursor = self.cursor - 1;
                }
            },
            EditKey::Right => {
                if self.cursor < len {
                    self.cursor = self.cursor + 1;
                }
            },
            EditKey::Home => {
                self.cursor = 0;
            },
            EditKey::End => {
                self.cursor = len;
            },
            EditKey::Backspace => {
                if self.cursor > 0 {
                    let before = self.cursor - 1;
                    self.remove_range(before, self.cursor);
                    self.cursor = before;
                }
            },
            EditKey::Delete => {
                if self.cursor < len {
                    self.remove_range(self.cursor, self.cursor + 1);
                }
            },
            EditKey::Other => {},
        }
    }

    /// The text with a `▏` cursor mark, each side made terminal safe.
    pub fn display(&self) -> (r: String)
        requires
            self.wf(),
        ensures
            r@ == safe_lines_text(self.content().take(self.cursor_at() as int)) + seq!['\u{258f}']
                + safe_lines_text(self.content().skip(self.cursor_at() as int)),
    {
        let current = chars_of(self.text.as_str());
        let mut before: Vec<char> = Vec::new();
        let mut after: Vec<char> = Vec::new();
        let mut k: usize = 0;
        while k < current.len()
            invariant
                self.cursor <= current.len(),
                k <= current.len(),
                before@ == current@.take(if k < self.cursor { k as int } else { self.cursor as int }),
                after@ == (if k <= self.cursor {
                    Seq::<char>::empty()
                } else {
                    current@.subrange(self.cursor as int, k as int)
                }),
            decreases current.len() - k,
        {
            if k < self.cursor {
                before.push(current[k]);
            } else {
                after.push(current[k]);
            }
            k += 1;
            assert(before@ =~= current@.take(if k < self.cursor { k as int } else { self.cursor as int }));
            assert(after@ =~= (if k <= self.cursor {
                Seq::<char>::empty()
            } else {
                current@.subrange(self.cursor as int, k as int)
            }));
        }
        assert(after@ =~= current@.skip(self.cursor as int));
        let left = safe_multiline(string_of(&before).as_str());
        let right = safe_multiline(string_of(&after).as_str());
        let mut out = chars_of(left.as_str());
        out.push('\u{258f}');
        crate::text::extend_str(&mut out, right.as_str());
        string_of(&out)
    }
}

/// Pasting never lets a field grow past its limit, and a paste lands in
/// front of the cursor with the cursor just after it.
pub proof fn law_paste_respects_the_limit(pasted: Seq<char>, current_len: nat)
    ensures
        paste_text(pasted, current_len).len() + current_len <= (if current_len >= INPUT_LIMIT {
            current_len
        } else {
            INPUT_LIMIT as nat
        }),
        forall|i: int|
            0 <= i < paste_text(pasted, current_len).len() ==> pasteable(
                #[trigger] paste_text(pasted, current_len)[i],
            ),
{
    lemma_keep_pasteable(pasted);
}

proof fn lemma_keep_pasteable(s: Seq<char>)
    ensures
        keep_pasteable(s).len() <= s.len(),
        forall|i: int| 0 <= i < keep_pasteable(s).len() ==> pasteable(#[trigger] keep_pasteable(s)[i]),
    decreases s.len(),
{
    if s.len() > 0 {
        lemma_keep_pasteable(s.drop_last());
    }
}

/// Moving left then right (away from the start) returns the cursor; Home and
/// End reach the ends. Editing keys other than typing keep the field's text.
pub proof fn law_cursor_moves_are_inverse(c: nat, len: nat)
    requires
        0 < c <= len,
    ensures
        ({
            let left = (c - 1) as nat;
            let right = if left < len {
                left + 1
            } else {
                left
            };
            right == c
        }),
{
}

impl Default for Input {
    fn default() -> (r: Self)
        ensures
            r.wf(),
            r.content() == Seq::<char>::empty(),
            r.cursor_at() == 0,
    {
        Input::new()
    }
}

} // verus!
