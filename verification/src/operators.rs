//! Cursor motions with counts, and the operators over them.

use crate::buffer::{
    cover_end, covered, lemma_cover, next_atomic, prev_atomic, snap_end, snap_start, ElementView,
};
use crate::editing::{killed, moved_vertically, yanked};
use crate::lines::{
    first_non_blank, last_on_line, less_one, line_end, line_end_with_newline, line_start,
    line_steps, skip_white, skip_whitespace,
};
use crate::text::{byte_len, char_from, is_pos, is_whitespace, white_at};
use crate::textarea::{range_replaced, with_cursor, AreaView, KillBufferKind, TextArea};
use crate::vim::{VimMode, VimMotion, VimOperator, VimOperatorRange, VimRangeKind};
use crate::words::{
    big_separator, big_word_end, big_word_end_cursor, next_big_word_start, next_word_from,
    previous_big_word_start, skip_big, word_end_cursor, word_end_from, word_start_before,
};
use std::ops::Range;
use vstd::prelude::*;
use vstd::utf8::*;

verus! {

/// Where one step of a motion takes a cursor at `p`. Steps to the side stay on the line.
pub open spec fn hop(t: Seq<u8>, es: Seq<ElementView>, motion: VimMotion, p: int) -> int {
    match motion {
        VimMotion::Left => reach(t, es, motion, p),
        VimMotion::Right => if next_atomic(t, es, p) < line_end(t, p) {
            next_atomic(t, es, p)
        } else {
            p
        },
        VimMotion::WordForward => next_word_from(t, es, p),
        VimMotion::WordBackward => word_start_before(t, es, p),
        VimMotion::WordEnd => word_end_cursor(t, es, p),
        VimMotion::BigWordForward => next_big_word_start(t, es, p),
        VimMotion::BigWordBackward => previous_big_word_start(t, es, p),
        VimMotion::BigWordEnd => big_word_end_cursor(t, es, p),
        _ => p,
    }
}

/// How far from `p` an operator works over one step of a motion.
pub open spec fn reach(t: Seq<u8>, es: Seq<ElementView>, motion: VimMotion, p: int) -> int {
    match motion {
        VimMotion::Left => if prev_atomic(t, es, p) > line_start(t, p) {
            prev_atomic(t, es, p)
        } else {
            line_start(t, p)
        },
        VimMotion::Right => if next_atomic(t, es, p) < line_end(t, p) {
            next_atomic(t, es, p)
        } else {
            line_end(t, p)
        },
        VimMotion::WordForward => next_word_from(t, es, p),
        VimMotion::WordBackward => word_start_before(t, es, p),
        VimMotion::WordEnd => word_end_from(t, es, p),
        VimMotion::BigWordForward => next_big_word_start(t, es, p),
        VimMotion::BigWordBackward => previous_big_word_start(t, es, p),
        VimMotion::BigWordEnd => big_word_end(t, es, p),
        _ => p,
    }
}

/// `n` steps of a motion.
pub open spec fn hops(t: Seq<u8>, es: Seq<ElementView>, motion: VimMotion, p: int, n: nat) -> int
    decreases n,
{
    if n == 0 {
        p
    } else {
        hops(t, es, motion, hop(t, es, motion, p), (n - 1) as nat)
    }
}

/// How far from `p` an operator works over `n` steps of a motion.
pub open spec fn reaches(
    t: Seq<u8>,
    es: Seq<ElementView>,
    motion: VimMotion,
    p: int,
    n: nat,
) -> int
    decreases n,
{
    if n == 0 {
        p
    } else {
        reaches(t, es, motion, reach(t, es, motion, p), (n - 1) as nat)
    }
}

/// How far `cw` changes from `c`: the element, the whitespace on the line, or the word there.
pub open spec fn change_word_end(t: Seq<u8>, es: Seq<ElementView>, c: int) -> int {
    if covered(es, c) {
        cover_end(es, c)
    } else if white_at(t, c) {
        snap_start(es, skip_white(t, c, line_end(t, c)))
    } else {
        word_end_from(t, es, c)
    }
}

/// How far `cW` changes from `c`: the whitespace or the WORD there.
pub open spec fn change_big_word_end(t: Seq<u8>, es: Seq<ElementView>, c: int) -> int {
    if big_separator(t, es, c) {
        skip_big(t, es, c, true)
    } else {
        big_word_end(t, es, c)
    }
}

/// How far an operator works forward over `n` steps of a motion from the cursor. Changing words
/// leaves the whitespace after the last one.
pub open spec fn operator_end(
    t: Seq<u8>,
    es: Seq<ElementView>,
    operator: VimOperator,
    motion: VimMotion,
    c: int,
    n: nat,
) -> int {
    if operator == VimOperator::Change && motion is WordForward && n > 0 {
        reaches(t, es, VimMotion::WordEnd, change_word_end(t, es, c), (n - 1) as nat)
    } else if operator == VimOperator::Change && motion is BigWordForward && n > 0 {
        reaches(t, es, VimMotion::BigWordEnd, change_big_word_end(t, es, c), (n - 1) as nat)
    } else {
        reaches(t, es, motion, c, n)
    }
}

/// `p` and `q`, the smaller first.
pub open spec fn in_order(p: int, q: int) -> (int, int) {
    if p <= q {
        (p, q)
    } else {
        (q, p)
    }
}

/// The line that `n` lines up or down from the cursor is on.
pub open spec fn other_line(t: Seq<u8>, c: int, n: nat, down: bool) -> int {
    line_steps(t, line_start(t, c), n, down)
}

/// The range that an operator works on, and whether it is one of lines.
pub open spec fn operator_range(
    t: Seq<u8>,
    es: Seq<ElementView>,
    c: int,
    operator: VimOperator,
    motion: VimMotion,
    n: nat,
) -> (int, int, bool) {
    let bol = line_start(t, c);
    match motion {
        VimMotion::Up => {
            (other_line(t, c, n, false), line_end_with_newline(t, bol), true)
        },
        VimMotion::Down => {
            (bol, line_end_with_newline(t, other_line(t, c, n, true)), true)
        },
        VimMotion::LineStart => (bol, c, false),
        VimMotion::FirstNonBlank => {
            let (a, z) = in_order(c, first_non_blank(t, c));
            (a, z, false)
        },
        VimMotion::LineEnd => (c, line_end(t, line_steps(t, bol, less_one(n), true)), false),
        VimMotion::Find(_) => (c, c, false),
        _ => {
            let (a, z) = in_order(c, operator_end(t, es, operator, motion, c, n));
            (a, z, false)
        },
    }
}

/// An operator on a range of characters.
pub open spec fn operated(m: AreaView, operator: VimOperator, a: int, z: int) -> AreaView {
    match operator {
        VimOperator::Delete => with_cursor(
            killed(m, a, z, KillBufferKind::Characterwise),
            snap_start(m.buf.elements, a),
        ),
        VimOperator::Yank => if snap_start(m.buf.elements, a) < snap_end(m.buf.elements, z) {
            yanked(m, a, z, KillBufferKind::Characterwise)
        } else {
            m
        },
        VimOperator::Change => AreaView {
            mode: VimMode::Insert,
            ..with_cursor(
                killed(m, a, z, KillBufferKind::Characterwise),
                snap_start(m.buf.elements, a),
            )
        },
    }
}

/// The lines `a..z` put in the register and `a..e` deleted, to type something in their place.
pub open spec fn lines_changed(m: AreaView, a: int, z: int, e: int) -> AreaView {
    let taken = yanked(m, a, z, KillBufferKind::Linewise);
    AreaView {
        mode: VimMode::Insert,
        ..if a < e {
            range_replaced(taken, a, e, Seq::empty())
        } else {
            taken
        }
    }
}

/// An operator over a motion other than a find.
#[verifier::opaque]
pub open spec fn operator_applied(
    m: AreaView,
    operator: VimOperator,
    motion: VimMotion,
    n: nat,
) -> AreaView {
    let t = m.buf.text;
    let (a, z, lines) = operator_range(t, m.buf.elements, m.buf.cursor, operator, motion, n);
    if !lines {
        match operator {
            VimOperator::Yank => with_cursor(operated(m, operator, a, z), a),
            _ => operated(m, operator, a, z),
        }
    } else {
        match operator {
            VimOperator::Delete => killed(m, a, z, KillBufferKind::Linewise),
            VimOperator::Yank => yanked(m, a, z, KillBufferKind::Linewise),
            VimOperator::Change => {
                let last = if motion is Down {
                    other_line(t, m.buf.cursor, n, true)
                } else {
                    line_start(t, m.buf.cursor)
                };
                lines_changed(m, a, z, line_end(t, last))
            },
        }
    }
}

/// A motion other than a find.
pub open spec fn motion_applied(m: AreaView, motion: VimMotion, n: nat) -> AreaView {
    let t = m.buf.text;
    let c = m.buf.cursor;
    match motion {
        VimMotion::Up => moved_vertically(m, n, false),
        VimMotion::Down => moved_vertically(m, n, true),
        VimMotion::LineStart => with_cursor(m, line_start(t, c)),
        VimMotion::FirstNonBlank => with_cursor(m, first_non_blank(t, c)),
        VimMotion::LineEnd => with_cursor(
            m,
            last_on_line(
                t,
                m.buf.elements,
                line_steps(t, line_start(t, c), less_one(n), true),
            ),
        ),
        VimMotion::Find(_) => m,
        _ => with_cursor(m, hops(t, m.buf.elements, motion, c, n)),
    }
}

impl TextArea {
    /// How far from `p` an operator works over one step of a motion.
    fn motion_reach(&self, motion: VimMotion, p: usize) -> (r: usize)
        requires
            self.wf(),
            is_pos(self.bytes(), p as int),
        ensures
            r == reach(self.bytes(), self.marks(), motion, p as int),
            is_pos(self.bytes(), r as int),
    {
        match motion {
            VimMotion::Left => {
                let bol: usize = self.beginning_of_line(p);
                let q: usize = self.prev_atomic_boundary(p);
                if q > bol {
                    q
                } else {
                    bol
                }
            },
            VimMotion::Right => {
                let eol: usize = self.end_of_line(p);
                let q: usize = self.next_atomic_boundary(p);
                if q < eol {
                    q
                } else {
                    eol
                }
            },
            VimMotion::WordForward => self.beginning_of_next_word_from(p),
            VimMotion::WordBackward => self.beginning_of_previous_word_from(p),
            VimMotion::WordEnd => self.end_of_next_word_from(p),
            VimMotion::BigWordForward => self.beginning_of_next_big_word_from(p),
            VimMotion::BigWordBackward => self.beginning_of_previous_big_word_from(p),
            VimMotion::BigWordEnd => self.big_word_end_exclusive_from(p),
            _ => p,
        }
    }

    /// How far from `p` an operator works over `n` steps of a motion.
    fn motion_reaches(&self, motion: VimMotion, p: usize, n: usize) -> (r: usize)
        requires
            self.wf(),
            is_pos(self.bytes(), p as int),
        ensures
            r == reaches(self.bytes(), self.marks(), motion, p as int, n as nat),
            is_pos(self.bytes(), r as int),
    {
        let mut at: usize = p;
        let mut i: usize = 0;
        while i < n
            invariant
                self.wf(),
                i <= n,
                is_pos(self.bytes(), at as int),
                reaches(self.bytes(), self.marks(), motion, at as int, (n - i) as nat) == reaches(
                    self.bytes(),
                    self.marks(),
                    motion,
                    p as int,
                    n as nat,
                ),
            decreases n - i,
        {
            at = self.motion_reach(motion, at);
            i = i + 1;
        }
        at
    }

    /// Where one step of a motion takes a cursor at `p`.
    fn motion_hop(&self, motion: VimMotion, p: usize) -> (r: usize)
        requires
            self.wf(),
            is_pos(self.bytes(), p as int),
        ensures
            r == hop(self.bytes(), self.marks(), motion, p as int),
            is_pos(self.bytes(), r as int),
    {
        match motion {
            VimMotion::Right => {
                let eol: usize = self.end_of_line(p);
                let q: usize = self.next_atomic_boundary(p);
                if q < eol {
                    q
                } else {
                    p
                }
            },
            VimMotion::WordEnd => self.vim_word_end_cursor_from(p),
            VimMotion::BigWordEnd => self.vim_big_word_end_cursor_from(p),
            _ => self.motion_reach(motion, p),
        }
    }

    /// `n` steps of a motion.
    fn motion_hops(&self, motion: VimMotion, p: usize, n: usize) -> (r: usize)
        requires
            self.wf(),
            is_pos(self.bytes(), p as int),
        ensures
            r == hops(self.bytes(), self.marks(), motion, p as int, n as nat),
            is_pos(self.bytes(), r as int),
    {
        let mut at: usize = p;
        let mut i: usize = 0;
        while i < n
            invariant
                self.wf(),
                i <= n,
                is_pos(self.bytes(), at as int),
                hops(self.bytes(), self.marks(), motion, at as int, (n - i) as nat) == hops(
                    self.bytes(),
                    self.marks(),
                    motion,
                    p as int,
                    n as nat,
                ),
            decreases n - i,
        {
            at = self.motion_hop(motion, at);
            i = i + 1;
        }
        at
    }

    /// How far `cw` changes from the cursor.
    fn end_of_word_change(&self) -> (r: usize)
        requires
            self.wf(),
        ensures
            r == change_word_end(self.bytes(), self.marks(), self@.buf.cursor),
            is_pos(self.bytes(), r as int),
    {
        let c: usize = self.cursor_pos;
        match self.find_element_at(c) {
            Some(i) => {
                proof {
                    lemma_cover(self.bytes(), self.marks(), i as int, c as int);
                }
                self.elements[i].range.end
            },
            None => if c < byte_len(&self.text) && is_whitespace(char_from(&self.text, c)) {
                let eol: usize = self.end_of_current_line();
                self.element_start_around(skip_whitespace(&self.text, c, eol))
            } else {
                self.end_of_next_word_from(c)
            },
        }
    }

    /// How far `cW` changes from the cursor.
    fn end_of_big_word_change(&self) -> (r: usize)
        requires
            self.wf(),
        ensures
            r == change_big_word_end(self.bytes(), self.marks(), self@.buf.cursor),
            is_pos(self.bytes(), r as int),
    {
        let c: usize = self.cursor_pos;
        if !self.starts_big_word_separator(c) {
            return self.big_word_end_exclusive_from(c);
        }
        let len: usize = byte_len(&self.text);
        let mut pos: usize = c;
        while pos < len && self.starts_big_word_separator(pos)
            invariant
                self.wf(),
                len == self.bytes().len(),
                is_pos(self.bytes(), pos as int),
                skip_big(self.bytes(), self.marks(), pos as int, true) == skip_big(
                    self.bytes(),
                    self.marks(),
                    c as int,
                    true,
                ),
            decreases len - pos,
        {
            pos = self.next_atomic_boundary(pos);
        }
        pos
    }

    /// How far an operator works over `n` steps of a motion from the cursor.
    fn operator_reach(&self, operator: VimOperator, motion: VimMotion, n: usize) -> (r: usize)
        requires
            self.wf(),
        ensures
            r == operator_end(
                self.bytes(),
                self.marks(),
                operator,
                motion,
                self@.buf.cursor,
                n as nat,
            ),
            is_pos(self.bytes(), r as int),
    {
        if operator == VimOperator::Change && n > 0 {
            match motion {
                VimMotion::WordForward => {
                    let first: usize = self.end_of_word_change();
                    return self.motion_reaches(VimMotion::WordEnd, first, n - 1);
                },
                VimMotion::BigWordForward => {
                    let first: usize = self.end_of_big_word_change();
                    return self.motion_reaches(VimMotion::BigWordEnd, first, n - 1);
                },
                _ => {},
            }
        }
        self.motion_reaches(motion, self.cursor_pos, n)
    }

    /// The range that an operator works on over a motion other than a find.
    pub fn vim_operator_range(&self, operator: VimOperator, motion: VimMotion, n: usize) -> (r:
        VimOperatorRange)
        requires
            self.wf(),
        ensures
            (r.range.start as int, r.range.end as int, r.kind == VimRangeKind::Linewise)
                == operator_range(
                self.bytes(),
                self.marks(),
                self@.buf.cursor,
                operator,
                motion,
                n as nat,
            ),
            r.range.start <= r.range.end,
            is_pos(self.bytes(), r.range.start as int),
            is_pos(self.bytes(), r.range.end as int),
    {
        let c: usize = self.cursor_pos;
        let bol: usize = self.beginning_of_current_line();
        let steps: usize = if n > 0 {
            n - 1
        } else {
            0
        };
        match motion {
            VimMotion::Up => {
                let other: usize = self.step_logical_lines(bol, n, false);
                let end: usize = self.line_range_with_newline(bol).end;
                VimOperatorRange { range: other..end, kind: VimRangeKind::Linewise }
            },
            VimMotion::Down => {
                let other: usize = self.step_logical_lines(bol, n, true);
                let end: usize = self.line_range_with_newline(other).end;
                VimOperatorRange { range: bol..end, kind: VimRangeKind::Linewise }
            },
            VimMotion::LineStart => VimOperatorRange {
                range: bol..c,
                kind: VimRangeKind::Characterwise,
            },
            VimMotion::FirstNonBlank => {
                let f: usize = self.first_non_blank_of_current_line();
                let range = if c <= f {
                    c..f
                } else {
                    f..c
                };
                VimOperatorRange { range, kind: VimRangeKind::Characterwise }
            },
            VimMotion::LineEnd => {
                proof {
                    lemma_line_ends_after(self.bytes(), c as int, steps as nat);
                }
                let last: usize = self.step_logical_lines(bol, steps, true);
                let end: usize = self.end_of_line(last);
                VimOperatorRange { range: c..end, kind: VimRangeKind::Characterwise }
            },
            VimMotion::Find(_) => VimOperatorRange {
                range: c..c,
                kind: VimRangeKind::Characterwise,
            },
            _ => {
                let q: usize = self.operator_reach(operator, motion, n);
                let range = if c <= q {
                    c..q
                } else {
                    q..c
                };
                VimOperatorRange { range, kind: VimRangeKind::Characterwise }
            },
        }
    }

    /// Apply an operator to a range of characters.
    pub fn apply_vim_operator_to_range(&mut self, operator: VimOperator, range: Range<usize>)
        requires
            old(self).wf(),
            range.start <= range.end,
            is_pos(old(self).bytes(), range.start as int),
            is_pos(old(self).bytes(), range.end as int),
        ensures
            final(self)@ == operated(
                old(self)@,
                operator,
                range.start as int,
                range.end as int,
            ),
            final(self).wf(),
    {
        let a: usize = self.element_start_around(range.start);
        let z: usize = self.element_end_around(range.end);
        match operator {
            VimOperator::Delete => {
                self.kill_range(range);
                self.set_cursor(a);
            },
            VimOperator::Yank => {
                if a < z {
                    self.yank_into_register(range, KillBufferKind::Characterwise);
                }
            },
            VimOperator::Change => {
                self.kill_range(range);
                self.set_cursor(a);
                self.vim_mode = VimMode::Insert;
            },
        }
    }

    /// Put the lines `range` in the register and delete `range.start..end` to type something in
    /// their place.
    pub fn change_lines(&mut self, range: Range<usize>, end: usize)
        requires
            old(self).wf(),
            range.start <= range.end,
            is_pos(old(self).bytes(), range.start as int),
            is_pos(old(self).bytes(), range.end as int),
            is_pos(old(self).bytes(), end as int),
        ensures
            final(self)@ == lines_changed(
                old(self)@,
                range.start as int,
                range.end as int,
                end as int,
            ),
            final(self).wf(),
    {
        let start: usize = range.start;
        self.yank_line_range(range);
        if start < end {
            self.delete_range(start..end);
        }
        self.vim_mode = VimMode::Insert;
    }

    /// Apply an operator over a motion other than a find.
    pub fn apply_vim_operator(&mut self, operator: VimOperator, motion: VimMotion, n: usize)
        requires
            old(self).wf(),
        ensures
            final(self)@ == operator_applied(old(self)@, operator, motion, n as nat),
            final(self).wf(),
    {
        proof {
            reveal(operator_applied);
        }
        let target = self.vim_operator_range(operator, motion, n);
        let start: usize = target.range.start;
        let end: usize = target.range.end;
        if target.kind == VimRangeKind::Characterwise {
            self.apply_vim_operator_to_range(operator, start..end);
            if operator == VimOperator::Yank {
                self.set_cursor(start);
            }
        } else {
            match operator {
                VimOperator::Delete => self.kill_line_range(start..end),
                VimOperator::Yank => self.yank_line_range(start..end),
                VimOperator::Change => {
                    let bol: usize = self.beginning_of_current_line();
                    let last: usize = if matches!(motion, VimMotion::Down) {
                        self.step_logical_lines(bol, n, true)
                    } else {
                        bol
                    };
                    let eol: usize = self.end_of_line(last);
                    self.change_lines(start..end, eol);
                },
            }
        }
    }

    /// Move the cursor by a motion other than a find.
    pub fn apply_vim_motion(&mut self, motion: VimMotion, n: usize)
        requires
            old(self).wf(),
        ensures
            final(self)@ == motion_applied(old(self)@, motion, n as nat),
            final(self).wf(),
    {
        match motion {
            VimMotion::Up => self.move_cursor_vertically(n, false),
            VimMotion::Down => self.move_cursor_vertically(n, true),
            VimMotion::LineStart => self.set_cursor(self.beginning_of_current_line()),
            VimMotion::FirstNonBlank => self.set_cursor(self.first_non_blank_of_current_line()),
            VimMotion::LineEnd => {
                let bol: usize = self.beginning_of_current_line();
                let steps: usize = if n > 0 {
                    n - 1
                } else {
                    0
                };
                let last: usize = self.step_logical_lines(bol, steps, true);
                self.set_cursor(self.line_end_cursor_from(last));
            },
            VimMotion::Find(_) => {},
            _ => {
                let pos: usize = self.motion_hops(motion, self.cursor_pos, n);
                self.set_cursor(pos);
            },
        }
    }
}

/// The end of a line at or below that of `c` is not before `c`.
pub proof fn lemma_line_ends_after(t: Seq<u8>, c: int, n: nat)
    requires
        valid_utf8(t),
        0 <= c <= t.len(),
    ensures
        c <= line_end(t, line_steps(t, line_start(t, c), n, true)),
{
    crate::lines::lemma_line_end(t, c);
    crate::lines::lemma_line_of_start(t, c);
    crate::lines::lemma_line_steps_down(t, line_start(t, c), n);
}

} // verus!
