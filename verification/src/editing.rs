//! Editing commands that do not depend on the mode: the register, deletions and cursor moves.

use crate::buffer::{next_atomic, prev_atomic, snap_end, snap_start};
use crate::lines::{line_end, line_end_with_newline, line_start, line_steps};
use crate::text::{after_char, byte_len, is_pos, lemma_char, lemma_char_interior, next_char, slice};
use crate::textarea::{range_replaced, with_cursor, AreaView, KillBufferKind, TextArea};
use crate::words::{word_end_from, word_start_before};
use std::ops::Range;
use vstd::prelude::*;
use vstd::utf8::*;

verus! {

/// The register filled with `a..z`, widened to whole elements.
pub open spec fn yanked(m: AreaView, a: int, z: int, kind: KillBufferKind) -> AreaView {
    AreaView {
        register: m.buf.text.subrange(
            snap_start(m.buf.elements, a),
            snap_end(m.buf.elements, z),
        ),
        register_kind: kind,
        ..m
    }
}

/// `a..z`, widened to whole elements, moved to the register; nothing if it is empty.
pub open spec fn killed(m: AreaView, a: int, z: int, kind: KillBufferKind) -> AreaView {
    if snap_start(m.buf.elements, a) >= snap_end(m.buf.elements, z) {
        m
    } else {
        range_replaced(yanked(m, a, z, kind), a, z, Seq::empty())
    }
}

/// The cursor moved to the end of the grapheme or element before it, which is deleted.
pub open spec fn deleted_backward(m: AreaView) -> AreaView {
    range_replaced(
        m,
        prev_atomic(m.buf.text, m.buf.elements, m.buf.cursor),
        m.buf.cursor,
        Seq::empty(),
    )
}

/// The grapheme or element at the cursor deleted.
pub open spec fn deleted_forward(m: AreaView) -> AreaView {
    range_replaced(
        m,
        m.buf.cursor,
        next_atomic(m.buf.text, m.buf.elements, m.buf.cursor),
        Seq::empty(),
    )
}

/// The line before the cursor moved to the register, or the newline before it at its start.
pub open spec fn line_start_killed(m: AreaView) -> AreaView {
    let bol = line_start(m.buf.text, m.buf.cursor);
    if bol < m.buf.cursor {
        killed(m, bol, m.buf.cursor, KillBufferKind::Characterwise)
    } else if bol > 0 {
        killed(m, bol - 1, bol, KillBufferKind::Characterwise)
    } else {
        m
    }
}

/// The line from the cursor on moved to the register, or its newline at its end.
pub open spec fn line_end_killed(m: AreaView) -> AreaView {
    let eol = line_end(m.buf.text, m.buf.cursor);
    if m.buf.cursor < eol {
        killed(m, m.buf.cursor, eol, KillBufferKind::Characterwise)
    } else if eol < m.buf.text.len() {
        killed(m, eol, eol + 1, KillBufferKind::Characterwise)
    } else {
        m
    }
}

/// The current line with its newline moved to the register.
pub open spec fn current_line_killed(m: AreaView) -> AreaView {
    let bol = line_start(m.buf.text, m.buf.cursor);
    killed(m, bol, line_end_with_newline(m.buf.text, bol), KillBufferKind::Characterwise)
}

/// How many characters lie between two boundaries.
pub open spec fn chars_between(t: Seq<u8>, a: int, b: int) -> nat
    decreases
            (if a < b {
                b - a
            } else {
                0
            }),
{
    if a >= b {
        0
    } else {
        1 + chars_between(t, after_char(t, a), b)
    }
}

/// The boundary `n` characters after `p`, but not after `limit`.
pub open spec fn chars_on(t: Seq<u8>, p: int, n: nat, limit: int) -> int
    decreases n,
{
    if n == 0 || p >= limit {
        p
    } else {
        chars_on(t, after_char(t, p), (n - 1) as nat, limit)
    }
}

/// The column that a vertical move keeps.
pub open spec fn kept_column(m: AreaView) -> nat {
    match m.column {
        Some(column) => column as nat,
        None => chars_between(m.buf.text, line_start(m.buf.text, m.buf.cursor), m.buf.cursor),
    }
}

/// The cursor moved `n` lines up or down, as far as there are lines, in its column.
pub open spec fn moved_vertically(m: AreaView, n: nat, down: bool) -> AreaView {
    let bol = line_start(m.buf.text, m.buf.cursor);
    let target = line_steps(m.buf.text, bol, n, down);
    if target == bol {
        m
    } else {
        let column = kept_column(m);
        let pos = chars_on(m.buf.text, target, column, line_end(m.buf.text, target));
        AreaView { column: Some(column as usize), ..with_cursor(m, pos) }
    }
}

/// The cursor moved to the start of its line, or of the line before when it is there already.
pub open spec fn moved_to_line_start(m: AreaView, move_up: bool) -> AreaView {
    let bol = line_start(m.buf.text, m.buf.cursor);
    if move_up && m.buf.cursor == bol && bol > 0 {
        with_cursor(m, line_start(m.buf.text, bol - 1))
    } else {
        with_cursor(m, bol)
    }
}

/// The cursor moved to the end of its line, or of the line after when it is there already.
pub open spec fn moved_to_line_end(m: AreaView, move_down: bool) -> AreaView {
    let eol = line_end(m.buf.text, m.buf.cursor);
    if move_down && m.buf.cursor == eol && eol < m.buf.text.len() {
        with_cursor(m, line_end(m.buf.text, eol + 1))
    } else {
        with_cursor(m, eol)
    }
}

impl TextArea {
    /// Fill the register with a range, widened to whole elements.
    pub fn yank_into_register(&mut self, range: Range<usize>, kind: KillBufferKind)
        requires
            old(self).wf(),
            range.start <= range.end,
            is_pos(old(self).bytes(), range.start as int),
            is_pos(old(self).bytes(), range.end as int),
        ensures
            final(self)@ == yanked(old(self)@, range.start as int, range.end as int, kind),
            final(self).wf(),
    {
        let a: usize = self.element_start_around(range.start);
        let z: usize = self.element_end_around(range.end);
        let taken: String = slice(&self.text, a, z).to_owned();
        self.kill_buffer = taken;
        self.kill_buffer_kind = kind;
    }

    /// Fill the register with lines.
    pub fn yank_line_range(&mut self, range: Range<usize>)
        requires
            old(self).wf(),
            range.start <= range.end,
            is_pos(old(self).bytes(), range.start as int),
            is_pos(old(self).bytes(), range.end as int),
        ensures
            final(self)@ == yanked(
                old(self)@,
                range.start as int,
                range.end as int,
                KillBufferKind::Linewise,
            ),
            final(self).wf(),
    {
        self.yank_into_register(range, KillBufferKind::Linewise);
    }

    fn kill(&mut self, range: Range<usize>, kind: KillBufferKind)
        requires
            old(self).wf(),
            range.start <= range.end,
            is_pos(old(self).bytes(), range.start as int),
            is_pos(old(self).bytes(), range.end as int),
        ensures
            final(self)@ == killed(old(self)@, range.start as int, range.end as int, kind),
            final(self).wf(),
    {
        let a: usize = self.element_start_around(range.start);
        let z: usize = self.element_end_around(range.end);
        if a >= z {
            return;
        }
        self.yank_into_register(range.start..range.end, kind);
        self.replace_range(range, "");
        proof {
            assert(""@ =~= Seq::<char>::empty()) by {
                reveal_strlit("");
            }
            assert(encode_utf8(""@) =~= Seq::<u8>::empty());
        }
    }

    /// Move a range, widened to whole elements, to the register.
    pub fn kill_range(&mut self, range: Range<usize>)
        requires
            old(self).wf(),
            range.start <= range.end,
            is_pos(old(self).bytes(), range.start as int),
            is_pos(old(self).bytes(), range.end as int),
        ensures
            final(self)@ == killed(
                old(self)@,
                range.start as int,
                range.end as int,
                KillBufferKind::Characterwise,
            ),
            final(self).wf(),
    {
        self.kill(range, KillBufferKind::Characterwise);
    }

    /// Move lines to the register.
    pub fn kill_line_range(&mut self, range: Range<usize>)
        requires
            old(self).wf(),
            range.start <= range.end,
            is_pos(old(self).bytes(), range.start as int),
            is_pos(old(self).bytes(), range.end as int),
        ensures
            final(self)@ == killed(
                old(self)@,
                range.start as int,
                range.end as int,
                KillBufferKind::Linewise,
            ),
            final(self).wf(),
    {
        self.kill(range, KillBufferKind::Linewise);
    }

    /// Delete a range, widened to whole elements.
    pub fn delete_range(&mut self, range: Range<usize>)
        requires
            old(self).wf(),
            range.start <= range.end,
            is_pos(old(self).bytes(), range.start as int),
            is_pos(old(self).bytes(), range.end as int),
        ensures
            final(self)@ == range_replaced(
                old(self)@,
                range.start as int,
                range.end as int,
                Seq::empty(),
            ),
            final(self).wf(),
    {
        self.replace_range(range, "");
        proof {
            assert(""@ =~= Seq::<char>::empty()) by {
                reveal_strlit("");
            }
            assert(encode_utf8(""@) =~= Seq::<u8>::empty());
        }
    }

    /// Delete the grapheme or element before the cursor.
    pub fn delete_backward(&mut self)
        requires
            old(self).wf(),
        ensures
            final(self)@ == deleted_backward(old(self)@),
            final(self).wf(),
    {
        let start: usize = self.prev_atomic_boundary(self.cursor_pos);
        self.delete_range(start..self.cursor_pos);
    }

    /// Delete the grapheme or element at the cursor.
    pub fn delete_forward(&mut self)
        requires
            old(self).wf(),
        ensures
            final(self)@ == deleted_forward(old(self)@),
            final(self).wf(),
    {
        let end: usize = self.next_atomic_boundary(self.cursor_pos);
        self.delete_range(self.cursor_pos..end);
    }

    /// Move the word before the cursor to the register.
    pub fn delete_backward_word(&mut self)
        requires
            old(self).wf(),
        ensures
            final(self)@ == killed(
                old(self)@,
                word_start_before(
                    old(self)@.buf.text,
                    old(self)@.buf.elements,
                    old(self)@.buf.cursor,
                ),
                old(self)@.buf.cursor,
                KillBufferKind::Characterwise,
            ),
            final(self).wf(),
    {
        let start: usize = self.beginning_of_previous_word_from(self.cursor_pos);
        self.kill_range(start..self.cursor_pos);
    }

    /// Move the word after the cursor to the register.
    pub fn delete_forward_word(&mut self)
        requires
            old(self).wf(),
        ensures
            final(self)@ == killed(
                old(self)@,
                old(self)@.buf.cursor,
                word_end_from(old(self)@.buf.text, old(self)@.buf.elements, old(self)@.buf.cursor),
                KillBufferKind::Characterwise,
            ),
            final(self).wf(),
    {
        let end: usize = self.end_of_next_word_from(self.cursor_pos);
        self.kill_range(self.cursor_pos..end);
    }

    /// Move the line before the cursor to the register.
    pub fn kill_to_beginning_of_line(&mut self)
        requires
            old(self).wf(),
        ensures
            final(self)@ == line_start_killed(old(self)@),
            final(self).wf(),
    {
        let bol: usize = self.beginning_of_current_line();
        proof {
            crate::lines::lemma_line_start(self.bytes(), self.cursor_pos as int);
            if bol > 0 {
                crate::text::lemma_ascii(self.bytes(), bol - 1);
            }
        }
        if bol < self.cursor_pos {
            self.kill_range(bol..self.cursor_pos);
        } else if bol > 0 {
            self.kill_range(bol - 1..bol);
        }
    }

    /// Move the line from the cursor on to the register.
    pub fn kill_to_end_of_line(&mut self)
        requires
            old(self).wf(),
        ensures
            final(self)@ == line_end_killed(old(self)@),
            final(self).wf(),
    {
        let eol: usize = self.end_of_current_line();
        let len: usize = byte_len(&self.text);
        if self.cursor_pos < eol {
            self.kill_range(self.cursor_pos..eol);
        } else if eol < len {
            self.kill_range(eol..eol + 1);
        }
    }

    /// Move the current line to the register.
    pub fn kill_current_line(&mut self)
        requires
            old(self).wf(),
        ensures
            final(self)@ == current_line_killed(old(self)@),
            final(self).wf(),
    {
        let bol: usize = self.beginning_of_current_line();
        let range = self.line_range_with_newline(bol);
        self.kill_range(range);
    }

    /// Move the rest of the current line to the register, but never its newline.
    pub fn vim_kill_to_end_of_line(&mut self)
        requires
            old(self).wf(),
        ensures
            final(self)@ == killed(
                old(self)@,
                old(self)@.buf.cursor,
                line_end(old(self)@.buf.text, old(self)@.buf.cursor),
                KillBufferKind::Characterwise,
            ),
            final(self).wf(),
    {
        let eol: usize = self.end_of_current_line();
        self.kill_range(self.cursor_pos..eol);
    }

    /// Move the cursor back by a grapheme or element.
    pub fn move_cursor_left(&mut self)
        requires
            old(self).wf(),
        ensures
            final(self)@ == with_cursor(
                old(self)@,
                prev_atomic(old(self)@.buf.text, old(self)@.buf.elements, old(self)@.buf.cursor),
            ),
            final(self).wf(),
    {
        self.set_cursor(self.prev_atomic_boundary(self.cursor_pos));
    }

    /// Move the cursor on by a grapheme or element.
    pub fn move_cursor_right(&mut self)
        requires
            old(self).wf(),
        ensures
            final(self)@ == with_cursor(
                old(self)@,
                next_atomic(old(self)@.buf.text, old(self)@.buf.elements, old(self)@.buf.cursor),
            ),
            final(self).wf(),
    {
        self.set_cursor(self.next_atomic_boundary(self.cursor_pos));
    }

    /// Move the cursor `n` lines up or down, in its column.
    pub fn move_cursor_vertically(&mut self, n: usize, down: bool)
        requires
            old(self).wf(),
        ensures
            final(self)@ == moved_vertically(old(self)@, n as nat, down),
            final(self).wf(),
    {
        let ghost t = self.bytes();
        let bol: usize = self.beginning_of_current_line();
        let target: usize = self.step_logical_lines(bol, n, down);
        if target == bol {
            return;
        }
        let column: usize = match self.preferred_col {
            Some(column) => column,
            None => {
                let mut count: usize = 0;
                let mut at: usize = bol;
                while at < self.cursor_pos
                    invariant
                        self.wf(),
                        t == self.bytes(),
                        bol <= at <= self.cursor_pos,
                        is_pos(t, at as int),
                        is_pos(t, self.cursor_pos as int),
                        count <= at - bol,
                        count + chars_between(t, at as int, self.cursor_pos as int)
                            == chars_between(t, bol as int, self.cursor_pos as int),
                    decreases self.cursor_pos - at,
                {
                    proof {
                        lemma_char(t, at as int);
                        if after_char(t, at as int) > self.cursor_pos {
                            lemma_char_interior(t, at as int, self.cursor_pos as int);
                        }
                    }
                    at = next_char(&self.text, at);
                    count = count + 1;
                }
                count
            },
        };
        let eol: usize = self.end_of_line(target);
        let mut pos: usize = target;
        let mut i: usize = 0;
        while i < column && pos < eol
            invariant
                self.wf(),
                t == self.bytes(),
                i <= column,
                pos <= eol <= t.len(),
                is_pos(t, pos as int),
                is_pos(t, eol as int),
                chars_on(t, pos as int, (column - i) as nat, eol as int) == chars_on(
                    t,
                    target as int,
                    column as nat,
                    eol as int,
                ),
            decreases column - i,
        {
            proof {
                lemma_char(t, pos as int);
                if after_char(t, pos as int) > eol {
                    lemma_char_interior(t, pos as int, eol as int);
                }
            }
            pos = next_char(&self.text, pos);
            i = i + 1;
        }
        self.set_cursor(pos);
        self.preferred_col = Some(column);
    }

    /// Move the cursor up a line.
    pub fn move_cursor_up(&mut self)
        requires
            old(self).wf(),
        ensures
            final(self)@ == moved_vertically(old(self)@, 1, false),
            final(self).wf(),
    {
        self.move_cursor_vertically(1, false);
    }

    /// Move the cursor down a line.
    pub fn move_cursor_down(&mut self)
        requires
            old(self).wf(),
        ensures
            final(self)@ == moved_vertically(old(self)@, 1, true),
            final(self).wf(),
    {
        self.move_cursor_vertically(1, true);
    }

    /// Move the cursor to the start of its line.
    pub fn move_cursor_to_beginning_of_line(&mut self, move_up_at_bol: bool)
        requires
            old(self).wf(),
        ensures
            final(self)@ == moved_to_line_start(old(self)@, move_up_at_bol),
            final(self).wf(),
    {
        let bol: usize = self.beginning_of_current_line();
        if move_up_at_bol && self.cursor_pos == bol && bol > 0 {
            self.set_cursor(self.beginning_of_line(bol - 1));
        } else {
            self.set_cursor(bol);
        }
    }

    /// Move the cursor to the end of its line.
    pub fn move_cursor_to_end_of_line(&mut self, move_down_at_eol: bool)
        requires
            old(self).wf(),
        ensures
            final(self)@ == moved_to_line_end(old(self)@, move_down_at_eol),
            final(self).wf(),
    {
        let eol: usize = self.end_of_current_line();
        let len: usize = byte_len(&self.text);
        if move_down_at_eol && self.cursor_pos == eol && eol < len {
            self.set_cursor(self.end_of_line(eol + 1));
        } else {
            self.set_cursor(eol);
        }
    }
}

} // verus!
