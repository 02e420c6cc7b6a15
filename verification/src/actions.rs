//! What each recorded action does to the text.

use crate::buffer::{inside, next_atomic, prev_atomic, ElementView};
use crate::edit_laws::{asked, lemma_taken, nearer, taken_from_cursor};
use crate::editing::{
    current_line_killed, deleted_backward, deleted_forward, killed, line_end_killed,
    line_start_killed, moved_to_line_end, moved_to_line_start, moved_vertically,
};
use crate::finds::{at_least_one, found, jumped};
use crate::line_edits::{lemma_literals, lines_joined, lines_shifted, pasted};
use crate::lines::{counted_lines_end, first_non_blank, line_end, line_start, NEWLINE};
use crate::operators::{lines_changed, operated, operator_applied};
use crate::search::searched;
use crate::text::{
    byte_at, byte_len, char_text, char_width, is_pos, lemma_ascii, lemma_repeated_len,
    lemma_splice_pos, plain_text, repeat, repeated, width,
};
use crate::text_objects::object_range;
use crate::textarea::{inserted_at, range_replaced, with_cursor, AreaView, KillBufferKind, TextArea};
use crate::typing::restored;
use crate::vim::{VimMode, VimMotion, VimOperator};
use crate::vim_commands::{steps_cleared, VimAction, VimEditTarget, VimInsertPosition};
use crate::words::{word_end_from, word_start_before};
use vstd::prelude::*;
use vstd::utf8::*;

verus! {

/// What a delete or change of counted characters does in plain text without elements: as many bytes
/// as are counted go from the cursor on, but none behind the end of the line, into the register.
pub open spec fn plainly_taken(
    m: AreaView,
    after: AreaView,
    change: bool,
    count: Option<usize>,
) -> bool {
    let t = m.buf.text;
    let c = m.buf.cursor;
    plain_text(t) && m.buf.elements.len() == 0 ==> {
        &&& taken_from_cursor(m, after, nearer(c + asked(count), line_end(t, c)))
        &&& after.mode == if change {
            VimMode::Insert
        } else {
            m.mode
        }
    }
}

/// How often a command is carried out: its count, or once.
pub open spec fn times(count: Option<usize>) -> nat {
    match count {
        Some(n) => at_least_one(n as nat),
        None => 1,
    }
}

/// Insert mode entered at a position.
#[verifier::opaque]
pub open spec fn insert_entered(m: AreaView, position: VimInsertPosition) -> AreaView {
    let t = m.buf.text;
    let c = m.buf.cursor;
    let there = match position {
        VimInsertPosition::Cursor => m,
        VimInsertPosition::AfterCursor => with_cursor(m, next_atomic(t, m.buf.elements, c)),
        VimInsertPosition::LineStart => with_cursor(m, first_non_blank(t, c)),
        VimInsertPosition::LineEnd => with_cursor(m, line_end(t, c)),
        VimInsertPosition::OpenAbove => {
            let bol = line_start(t, c);
            with_cursor(inserted_at(m, bol, seq![NEWLINE]), bol)
        },
        VimInsertPosition::OpenBelow => {
            let eol = line_end(t, c);
            if eol < t.len() {
                with_cursor(inserted_at(m, eol + 1, seq![NEWLINE]), eol + 1)
            } else {
                with_cursor(inserted_at(m, eol, seq![NEWLINE]), eol + 1)
            }
        },
    };
    AreaView { mode: VimMode::Insert, ..there }
}

/// Where `n` graphemes or elements from `p` on end, but not behind `eol`, and how many of the `n`
/// are missing.
pub open spec fn line_units(
    t: Seq<u8>,
    es: Seq<ElementView>,
    p: int,
    n: nat,
    eol: int,
) -> (int, nat)
    decreases n,
{
    if n == 0 || p >= eol {
        (p, n)
    } else {
        let q = next_atomic(t, es, p);
        line_units(
            t,
            es,
            if q < eol {
                q
            } else {
                eol
            },
            (n - 1) as nat,
            eol,
        )
    }
}

/// Where the text of the lines `..z` ends, without the last newline.
pub open spec fn before_newline(t: Seq<u8>, z: int) -> int {
    if z > 0 && t[z - 1] == NEWLINE {
        z - 1
    } else {
        z
    }
}

/// Insert mode, if the operator is a change.
pub open spec fn changing(m: AreaView, operator: VimOperator) -> AreaView {
    if operator == VimOperator::Change {
        AreaView { mode: VimMode::Insert, ..m }
    } else {
        m
    }
}

/// A delete or change of its target; whether there was such a target.
pub open spec fn target_applied(
    m: AreaView,
    operator: VimOperator,
    target: VimEditTarget,
    count: Option<usize>,
) -> (AreaView, bool) {
    let t = m.buf.text;
    let es = m.buf.elements;
    let c = m.buf.cursor;
    let n = times(count);
    match target {
        VimEditTarget::Character => {
            let end = line_units(t, es, c, n, line_end(t, c)).0;
            let after = if end > c {
                killed(m, c, end, KillBufferKind::Characterwise)
            } else {
                m
            };
            (changing(after, operator), true)
        },
        VimEditTarget::Line => {
            let a = line_start(t, c);
            let z = counted_lines_end(t, c, n);
            (
                if operator == VimOperator::Change {
                    lines_changed(m, a, z, before_newline(t, z))
                } else {
                    killed(m, a, z, KillBufferKind::Linewise)
                },
                true,
            )
        },
        VimEditTarget::LineEnd => (
            changing(killed(m, c, line_end(t, c), KillBufferKind::Characterwise), operator),
            true,
        ),
        VimEditTarget::Motion(VimMotion::Find(find)) => (
            found(m, find.kind, Some(operator), find.target, n).0,
            true,
        ),
        VimEditTarget::Motion(motion) => (operator_applied(m, operator, motion, n), true),
        VimEditTarget::Search(query) => searched(m, query, Some(operator)),
        VimEditTarget::TextObject { scope, object } => match object_range(t, es, c, object, scope) {
            Some((a, z)) => (operated(m, operator, a, z), true),
            None => (m, false),
        },
        VimEditTarget::Find { motion, target } => found(m, motion, Some(operator), target, n),
        VimEditTarget::BufferJump { last } => (jumped(m, last, Some(operator), count), true),
    }
}

/// A delete or change, and whether it did anything: a change has to enter Insert mode, a delete
/// has to shorten the text.
#[verifier::opaque]
pub open spec fn target_acted(
    m: AreaView,
    operator: VimOperator,
    target: VimEditTarget,
    count: Option<usize>,
) -> (AreaView, bool) {
    let (after, there) = target_applied(m, operator, target, count);
    (
        after,
        there && if operator == VimOperator::Change {
            after.mode == VimMode::Insert
        } else {
            after.buf.text.len() != m.buf.text.len()
        },
    )
}

/// `n` characters of the line from the cursor on replaced by `ch`, if there are as many.
#[verifier::opaque]
pub open spec fn characters_replaced(m: AreaView, ch: char, n: nat) -> (AreaView, bool) {
    let t = m.buf.text;
    let c = m.buf.cursor;
    let (end, missing) = line_units(t, m.buf.elements, c, n, line_end(t, c));
    if missing > 0 {
        (m, false)
    } else {
        let text = repeated(encode_scalar(ch as u32), n);
        let cursor = if ch == '\n' {
            c + text.len()
        } else {
            c + text.len() - char_width(ch)
        };
        (with_cursor(range_replaced(m, c, end, text), cursor), true)
    }
}

/// An action carried out, and whether it did anything. Actions other than taking back an
/// overwritten character forget what Replace mode overwrote.
#[verifier::opaque]
pub open spec fn acted(m: AreaView, action: VimAction, count: Option<usize>) -> (AreaView, bool) {
    let m = if action is RestoreReplacedCharacter {
        m
    } else {
        steps_cleared(m)
    };
    let t = m.buf.text;
    let es = m.buf.elements;
    let c = m.buf.cursor;
    match action {
        VimAction::EnterReplaceMode => (AreaView { mode: VimMode::Replace, ..m }, true),
        VimAction::RestoreReplacedCharacter => restored(m),
        VimAction::Insert(position) => (insert_entered(m, position), true),
        VimAction::Delete(target) => target_acted(m, VimOperator::Delete, target, count),
        VimAction::Change(target) => target_acted(m, VimOperator::Change, target, count),
        VimAction::Replace(ch) => characters_replaced(m, ch, times(count)),
        VimAction::PasteAfter => {
            let after = pasted(m, true, times(count));
            (after, after.buf.text.len() != t.len())
        },
        VimAction::PasteBefore => {
            let after = pasted(m, false, times(count));
            (after, after.buf.text.len() != t.len())
        },
        VimAction::JoinLines => lines_joined(
            m,
            match count {
                Some(n) => if n < 2 {
                    2
                } else {
                    n as nat
                },
                None => 2,
            },
        ),
        VimAction::Indent(direction) => lines_shifted(m, direction, times(count)),
        VimAction::DeleteBackward => (deleted_backward(m), true),
        VimAction::DeleteForward => (deleted_forward(m), true),
        VimAction::DeleteBackwardWord => (
            killed(m, word_start_before(t, es, c), c, KillBufferKind::Characterwise),
            true,
        ),
        VimAction::DeleteForwardWord => (
            killed(m, c, word_end_from(t, es, c), KillBufferKind::Characterwise),
            true,
        ),
        VimAction::KillLineStart => (line_start_killed(m), true),
        VimAction::KillLine => (current_line_killed(m), true),
        VimAction::KillLineEnd => (line_end_killed(m), true),
        VimAction::MoveLeft => (with_cursor(m, prev_atomic(t, es, c)), true),
        VimAction::MoveRight => (with_cursor(m, next_atomic(t, es, c)), true),
        VimAction::MoveUp => (moved_vertically(m, 1, false), true),
        VimAction::MoveDown => (moved_vertically(m, 1, true), true),
        VimAction::MoveWordLeft => (with_cursor(m, word_start_before(t, es, c)), true),
        VimAction::MoveWordRight => (with_cursor(m, word_end_from(t, es, c)), true),
        VimAction::MoveLineStart { move_up_at_bol } => (
            moved_to_line_start(m, move_up_at_bol),
            true,
        ),
        VimAction::MoveLineEnd { move_down_at_eol } => (
            moved_to_line_end(m, move_down_at_eol),
            true,
        ),
    }
}

/// How often a command is carried out.
pub fn command_times(count: Option<usize>) -> (n: usize)
    ensures
        n == times(count),
{
    match count {
        Some(n) => if n == 0 {
            1
        } else {
            n
        },
        None => 1,
    }
}

impl TextArea {
    /// Enter Insert mode at a position.
    fn enter_insert_at(&mut self, position: VimInsertPosition)
        requires
            old(self).wf(),
        ensures
            final(self)@ == insert_entered(old(self)@, position),
            final(self).wf(),
    {
        proof {
            reveal(insert_entered);
            lemma_literals();
        }
        match position {
            VimInsertPosition::Cursor => {},
            VimInsertPosition::AfterCursor => {
                self.set_cursor(self.next_atomic_boundary(self.cursor_pos));
            },
            VimInsertPosition::LineStart => {
                self.set_cursor(self.first_non_blank_of_current_line());
            },
            VimInsertPosition::LineEnd => {
                self.set_cursor(self.end_of_current_line());
            },
            VimInsertPosition::OpenAbove => {
                let bol: usize = self.beginning_of_current_line();
                self.insert_str_at(bol, "\n");
                self.set_cursor(bol);
            },
            VimInsertPosition::OpenBelow => {
                let eol: usize = self.end_of_current_line();
                if eol < byte_len(&self.text) {
                    self.insert_str_at(eol + 1, "\n");
                    self.set_cursor(eol + 1);
                } else {
                    self.insert_str_at(eol, "\n");
                    let len: usize = byte_len(&self.text);
                    self.set_cursor(
                        if eol < len {
                            eol + 1
                        } else {
                            len
                        },
                    );
                }
            },
        }
        self.vim_mode = VimMode::Insert;
    }

    /// Where `n` graphemes or elements from the cursor on end on its line, and how many are
    /// missing.
    fn units_on_line(&self, n: usize) -> (r: (usize, usize))
        requires
            self.wf(),
        ensures
            (r.0 as int, r.1 as nat) == line_units(
                self.bytes(),
                self.marks(),
                self@.buf.cursor,
                n as nat,
                line_end(self.bytes(), self@.buf.cursor),
            ),
            self.cursor_pos <= r.0,
            is_pos(self.bytes(), r.0 as int),
            plain_text(self.bytes()) && self.marks().len() == 0 ==> r.0 == nearer(
                self@.buf.cursor + n,
                line_end(self.bytes(), self@.buf.cursor),
            ),
    {
        let eol: usize = self.end_of_current_line();
        let mut end: usize = self.cursor_pos;
        let mut left: usize = n;
        while left > 0 && end < eol
            invariant
                self.wf(),
                eol == line_end(self.bytes(), self@.buf.cursor),
                is_pos(self.bytes(), eol as int),
                is_pos(self.bytes(), end as int),
                self.cursor_pos <= end <= eol <= self.bytes().len(),
                left <= n,
                plain_text(self.bytes()) && self.marks().len() == 0 ==> end == self.cursor_pos + (n
                    - left),
                line_units(self.bytes(), self.marks(), end as int, left as nat, eol as int)
                    == line_units(
                    self.bytes(),
                    self.marks(),
                    self@.buf.cursor,
                    n as nat,
                    eol as int,
                ),
            decreases left,
        {
            let next: usize = self.next_atomic_boundary(end);
            end = if next < eol {
                next
            } else {
                eol
            };
            left = left - 1;
        }
        (end, left)
    }

    /// Delete or change a target; whether there was such a target.
    fn apply_to_target(&mut self, operator: VimOperator, target: VimEditTarget, count: Option<
        usize,
    >) -> (r: bool)
        requires
            old(self).wf(),
        ensures
            (final(self)@, r) == target_applied(old(self)@, operator, target, count),
            final(self).wf(),
            target is Character ==> plainly_taken(
                old(self)@,
                final(self)@,
                operator == VimOperator::Change,
                count,
            ),
    {
        let n: usize = command_times(count);
        match target {
            VimEditTarget::Character => {
                let end: usize = self.units_on_line(n).0;
                proof {
                    if plain_text(self.bytes()) && self.marks().len() == 0 {
                        assert(!inside(self.marks(), end as int));
                        lemma_taken(self@, end as int);
                    }
                }
                if end > self.cursor_pos {
                    self.kill_range(self.cursor_pos..end);
                }
                if operator == VimOperator::Change {
                    self.vim_mode = VimMode::Insert;
                }
                true
            },
            VimEditTarget::Line => {
                let range = self.counted_line_range(n);
                if operator == VimOperator::Change {
                    // `cc` keeps the final newline so one empty line remains.
                    let end: usize = if range.end > 0 && byte_at(&self.text, range.end - 1)
                        == NEWLINE {
                        proof {
                            lemma_ascii(self.bytes(), range.end - 1);
                        }
                        range.end - 1
                    } else {
                        range.end
                    };
                    self.change_lines(range, end);
                } else {
                    self.kill_line_range(range);
                }
                true
            },
            VimEditTarget::LineEnd => {
                self.vim_kill_to_end_of_line();
                if operator == VimOperator::Change {
                    self.vim_mode = VimMode::Insert;
                }
                true
            },
            VimEditTarget::Motion(VimMotion::Find(find)) => {
                self.find_vim_character(find.kind, Some(operator), find.target, n);
                true
            },
            VimEditTarget::Motion(motion) => {
                self.apply_vim_operator(operator, motion, n);
                true
            },
            VimEditTarget::Search(query) => self.apply_vim_search(&query, Some(operator)),
            VimEditTarget::TextObject { scope, object } => {
                match self.text_object_range(object, scope) {
                    Some(range) => {
                        self.apply_vim_operator_to_range(operator, range);
                        true
                    },
                    None => false,
                }
            },
            VimEditTarget::Find { motion, target } => {
                self.find_vim_character(motion, Some(operator), target, n)
            },
            VimEditTarget::BufferJump { last } => {
                self.jump_to_vim_buffer_line(last, Some(operator), count);
                true
            },
        }
    }

    /// Delete or change a target; whether that did anything.
    fn act_on_target(&mut self, operator: VimOperator, target: VimEditTarget, count: Option<
        usize,
    >) -> (r: bool)
        requires
            old(self).wf(),
        ensures
            (final(self)@, r) == target_acted(old(self)@, operator, target, count),
            final(self).wf(),
            target is Character ==> plainly_taken(
                old(self)@,
                final(self)@,
                operator == VimOperator::Change,
                count,
            ),
    {
        proof {
            reveal(target_acted);
        }
        let prior_len: usize = byte_len(&self.text);
        if !self.apply_to_target(operator, target, count) {
            return false;
        }
        if operator == VimOperator::Change {
            self.vim_mode == VimMode::Insert
        } else {
            byte_len(&self.text) != prior_len
        }
    }

    /// Replace `n` characters of the line from the cursor on by `ch`; refused when fewer remain.
    fn replace_characters(&mut self, ch: char, n: usize) -> (r: bool)
        requires
            old(self).wf(),
            n >= 1,
        ensures
            (final(self)@, r) == characters_replaced(old(self)@, ch, n as nat),
            final(self).wf(),
    {
        proof {
            reveal(characters_replaced);
        }
        let start: usize = self.cursor_pos;
        let (end, missing): (usize, usize) = self.units_on_line(n);
        if missing > 0 {
            return false;
        }
        let replacement: String = repeat(&char_text(ch), n);
        let added: usize = byte_len(&replacement);
        let unit: usize = width(ch);
        proof {
            let text = encode_utf8(replacement@);
            lemma_repeated_len(encode_scalar(ch as u32), n as nat);
            assert(unit * n >= unit) by (nonlinear_arith)
                requires
                    n >= 1,
                    unit >= 0,
            ;
            encode_utf8_valid_utf8(replacement@);
            lemma_replaced_len(self@, start as int, end as int, text);
        }
        self.replace_range(start..end, &replacement);
        let len: usize = byte_len(&self.text);
        assert(start + added <= len);
        if ch == '\n' {
            self.set_cursor(start + added);
        } else {
            // Vim leaves the cursor on the last replaced character.
            self.set_cursor(start + added - unit);
        }
        true
    }

    /// Carry out an action; whether it did anything.
    pub fn apply_vim_editor_action(&mut self, action: VimAction, count: Option<usize>) -> (r: bool)
        requires
            old(self).wf(),
        ensures
            (final(self)@, r) == acted(old(self)@, action, count),
            final(self).wf(),
            action == VimAction::Delete(VimEditTarget::Character) ==> plainly_taken(
                old(self)@,
                final(self)@,
                false,
                count,
            ),
            action == VimAction::Change(VimEditTarget::Character) ==> plainly_taken(
                old(self)@,
                final(self)@,
                true,
                count,
            ),
    {
        proof {
            reveal(acted);
        }
        // Editor actions invalidate contiguous Replace offsets, including during replay.
        if !matches!(action, VimAction::RestoreReplacedCharacter) {
            self.clear_vim_replace_recovery();
        }
        let prior_len: usize = byte_len(&self.text);
        let n: usize = command_times(count);
        match action {
            VimAction::EnterReplaceMode => {
                self.vim_mode = VimMode::Replace;
            },
            VimAction::RestoreReplacedCharacter => {
                return self.restore_vim_replaced_character();
            },
            VimAction::Insert(position) => self.enter_insert_at(position),
            VimAction::Delete(target) => {
                return self.act_on_target(VimOperator::Delete, target, count);
            },
            VimAction::Change(target) => {
                return self.act_on_target(VimOperator::Change, target, count);
            },
            VimAction::Replace(ch) => {
                return self.replace_characters(ch, n);
            },
            VimAction::PasteAfter => {
                self.paste_vim(true, n);
                return byte_len(&self.text) != prior_len;
            },
            VimAction::PasteBefore => {
                self.paste_vim(false, n);
                return byte_len(&self.text) != prior_len;
            },
            VimAction::JoinLines => {
                let lines: usize = match count {
                    Some(lines) => if lines < 2 {
                        2
                    } else {
                        lines
                    },
                    None => 2,
                };
                return self.join_vim_lines(lines);
            },
            VimAction::Indent(direction) => {
                return self.indent_vim_lines(direction, n);
            },
            VimAction::DeleteBackward => self.delete_backward(),
            VimAction::DeleteForward => self.delete_forward(),
            VimAction::DeleteBackwardWord => self.delete_backward_word(),
            VimAction::DeleteForwardWord => self.delete_forward_word(),
            VimAction::KillLineStart => self.kill_to_beginning_of_line(),
            VimAction::KillLine => self.kill_current_line(),
            VimAction::KillLineEnd => self.kill_to_end_of_line(),
            VimAction::MoveLeft => self.move_cursor_left(),
            VimAction::MoveRight => self.move_cursor_right(),
            VimAction::MoveUp => self.move_cursor_up(),
            VimAction::MoveDown => self.move_cursor_down(),
            VimAction::MoveWordLeft => self.set_cursor(self.beginning_of_previous_word()),
            VimAction::MoveWordRight => self.set_cursor(self.end_of_next_word()),
            VimAction::MoveLineStart { move_up_at_bol } => {
                self.move_cursor_to_beginning_of_line(move_up_at_bol);
            },
            VimAction::MoveLineEnd { move_down_at_eol } => {
                self.move_cursor_to_end_of_line(move_down_at_eol);
            },
        }
        true
    }
}

/// Text put in place of a range from `a` on ends within the new text.
pub proof fn lemma_replaced_len(m: AreaView, a: int, z: int, ins: Seq<u8>)
    requires
        crate::textarea::area_ok(m),
        a <= z,
        is_pos(m.buf.text, a),
        is_pos(m.buf.text, z),
        !crate::buffer::inside(m.buf.elements, a),
        valid_utf8(ins),
        ins.len() > 0,
    ensures
        a + ins.len() <= range_replaced(m, a, z, ins).buf.text.len(),
{
    reveal(crate::textarea::raw_edit);
    crate::buffer::lemma_snap_ok(m.buf.text, m.buf.elements, z);
    lemma_splice_pos(
        m.buf.text,
        a,
        crate::buffer::snap_end(m.buf.elements, z),
        ins,
    );
}

} // verus!
