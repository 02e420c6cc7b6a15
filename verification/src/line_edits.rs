//! Pasting the register, joining lines and shifting their indentation.

use crate::buffer::next_atomic;
use crate::lines::{
    last_on_line, less_one, line_end, line_start, line_step, line_steps, skip_white, NEWLINE,
};
use crate::text::{
    before_char, byte_at, byte_len, char_from, is_boundary, is_pos, is_whitespace, lemma_ascii,
    lemma_encode_concat, lemma_zero_pos, prev_char, repeat, repeated, slice, white_at,
};
use crate::text_objects::positions;
use crate::textarea::{inserted_at, range_replaced, with_cursor, AreaView, KillBufferKind, TextArea};
use crate::typing::inserted;
use crate::vim::VimIndentDirection;
use vstd::prelude::*;
use vstd::utf8::*;

verus! {

/// How many characters a message may have.
pub const MAX_USER_INPUT_TEXT_CHARS: usize = 1_048_576;

/// Cap on the bytes a single paste may leave in the composer.
///
/// Neither the count nor the register size is bounded on its own, so `1000p` could otherwise ask
/// for gigabytes. The largest sendable message is `MAX_USER_INPUT_TEXT_CHARS` chars of at most
/// four bytes, so this refuses only pastes that could never be sent regardless, and leaves judging
/// the limit itself to the composer's submit-time check.
pub const MAX_VIM_PASTE_BYTES: usize = MAX_USER_INPUT_TEXT_CHARS * 4;

/// The byte of a space.
pub const SPACE: u8 = 0x20;

/// The byte of a tab.
pub const TAB: u8 = 0x09;

/// What one copy of the register adds: lines always end with a newline.
pub open spec fn paste_unit(m: AreaView) -> Seq<u8> {
    if m.register_kind == KillBufferKind::Linewise && m.register.last() != NEWLINE {
        m.register.push(NEWLINE)
    } else {
        m.register
    }
}

/// Whether `count` copies of the register can be pasted: it is not empty, and the text stays within
/// the cap.
pub open spec fn can_paste(m: AreaView, count: nat) -> bool {
    m.register.len() > 0 && m.buf.text.len() + paste_unit(m).len() * count <= MAX_VIM_PASTE_BYTES
}

/// `text` without the newline at its end.
pub open spec fn without_newline(text: Seq<u8>) -> Seq<u8> {
    if text.len() > 0 && text.last() == NEWLINE {
        text.drop_last()
    } else {
        text
    }
}

/// The lines `text` pasted below or above the current line.
pub open spec fn lines_pasted(m: AreaView, after: bool, text: Seq<u8>) -> AreaView {
    let payload = without_newline(text);
    let bol = line_start(m.buf.text, m.buf.cursor);
    let eol = line_end(m.buf.text, m.buf.cursor);
    if !after {
        with_cursor(inserted_at(m, bol, payload.push(NEWLINE)), bol)
    } else if eol < m.buf.text.len() {
        with_cursor(inserted_at(m, eol + 1, payload.push(NEWLINE)), eol + 1)
    } else {
        with_cursor(inserted_at(m, eol, seq![NEWLINE] + payload), eol + 1)
    }
}

/// `count` copies of the register pasted after or before the cursor.
#[verifier::opaque]
pub open spec fn pasted(m: AreaView, after: bool, count: nat) -> AreaView {
    if !can_paste(m, count) {
        m
    } else if m.register_kind == KillBufferKind::Linewise {
        lines_pasted(m, after, repeated(paste_unit(m), count))
    } else {
        let at = if after {
            next_atomic(m.buf.text, m.buf.elements, m.buf.cursor)
        } else {
            m.buf.cursor
        };
        inserted(with_cursor(m, at), repeated(paste_unit(m), count))
    }
}

/// Whether joining the line of `p` with the next one puts a space between them: not when the first
/// line is empty or already ends in whitespace, the next line is blank, or it opens with `)`.
pub open spec fn join_needs_space(t: Seq<u8>, p: int) -> bool {
    let eol = line_end(t, p);
    let next = skip_white(t, eol + 1, line_end(t, eol + 1));
    &&& eol > line_start(t, p)
    &&& next < line_end(t, eol + 1)
    &&& !white_at(t, before_char(t, eol))
    &&& t[next] != 0x29
}

/// The current line joined with the next one.
pub open spec fn joined_once(m: AreaView) -> AreaView {
    let t = m.buf.text;
    let eol = line_end(t, m.buf.cursor);
    range_replaced(
        m,
        eol,
        skip_white(t, eol + 1, line_end(t, eol + 1)),
        if join_needs_space(t, m.buf.cursor) {
            seq![SPACE]
        } else {
            Seq::empty()
        },
    )
}

/// The current line joined `count` times with the next one, as far as there is one, and where the
/// last join was; `at` if there was none.
pub open spec fn joined_times(m: AreaView, at: Option<int>, count: nat) -> (AreaView, Option<int>)
    decreases count,
{
    let eol = line_end(m.buf.text, m.buf.cursor);
    if count == 0 || eol >= m.buf.text.len() {
        (m, at)
    } else {
        joined_times(joined_once(m), Some(eol), (count - 1) as nat)
    }
}

/// `count` lines joined, with the cursor on the last join; whether anything was joined.
#[verifier::opaque]
pub open spec fn lines_joined(m: AreaView, count: nat) -> (AreaView, bool) {
    let (after, at) = joined_times(m, None, less_one(count));
    match at {
        Some(p) => {
            let last = last_on_line(after.buf.text, after.buf.elements, after.buf.cursor);
            (
                with_cursor(
                    after,
                    if p < last {
                        p
                    } else {
                        last
                    },
                ),
                true,
            )
        },
        None => (after, false),
    }
}

/// Starts of up to `count` lines from the one that starts at `p`.
pub open spec fn line_starts(t: Seq<u8>, p: int, count: nat) -> Seq<int>
    decreases count,
{
    if count == 0 {
        Seq::empty()
    } else if line_step(t, p, true) == p {
        seq![p]
    } else {
        seq![p] + line_starts(t, line_step(t, p, true), (count - 1) as nat)
    }
}

/// One level of indentation.
pub open spec fn indent_text() -> Seq<u8> {
    seq![SPACE, SPACE]
}

/// How many bytes of indentation one level takes from the line that starts at `p`: a tab, or up to
/// two spaces.
pub open spec fn dedent_width(t: Seq<u8>, p: int) -> int {
    let eol = line_end(t, p);
    if p < eol && t[p] == TAB {
        1
    } else if p < eol && t[p] == SPACE {
        if p + 1 < eol && t[p + 1] == SPACE {
            2
        } else {
            1
        }
    } else {
        0
    }
}

/// Whether shifting the line that starts at `p` changes it; an empty line is not indented.
pub open spec fn shifts(t: Seq<u8>, direction: VimIndentDirection, p: int) -> bool {
    is_pos(t, p) && match direction {
        VimIndentDirection::Increase => p < line_end(t, p),
        VimIndentDirection::Decrease => dedent_width(t, p) > 0,
    }
}

/// The line that starts at `p` shifted by one level.
pub open spec fn shifted(m: AreaView, direction: VimIndentDirection, p: int) -> AreaView {
    if !shifts(m.buf.text, direction, p) {
        m
    } else {
        match direction {
            VimIndentDirection::Increase => inserted_at(m, p, indent_text()),
            VimIndentDirection::Decrease => range_replaced(
                m,
                p,
                p + dedent_width(m.buf.text, p),
                Seq::empty(),
            ),
        }
    }
}

/// The lines that start at `starts` shifted, the last one first, and whether any changed.
pub open spec fn all_shifted(
    m: AreaView,
    direction: VimIndentDirection,
    starts: Seq<int>,
    changed: bool,
) -> (AreaView, bool)
    decreases starts.len(),
{
    if starts.len() == 0 {
        (m, changed)
    } else {
        all_shifted(
            shifted(m, direction, starts.last()),
            direction,
            starts.drop_last(),
            changed || shifts(m.buf.text, direction, starts.last()),
        )
    }
}

/// `count` lines from the current one shifted by one level, with the cursor on the first character
/// of the first one that is not blank; whether any line changed.
#[verifier::opaque]
pub open spec fn lines_shifted(m: AreaView, direction: VimIndentDirection, count: nat) -> (
    AreaView,
    bool,
) {
    let first = line_start(m.buf.text, m.buf.cursor);
    let (after, changed) = all_shifted(
        m,
        direction,
        line_starts(m.buf.text, first, count),
        false,
    );
    let t = after.buf.text;
    let cursor = if is_pos(t, first) {
        skip_white(t, first, line_end(t, first))
    } else {
        first
    };
    (with_cursor(after, cursor), changed)
}

/// The encodings of the literals used here.
pub proof fn lemma_literals()
    ensures
        encode_utf8("\n"@) == seq![NEWLINE],
        encode_utf8(" "@) == seq![SPACE],
        encode_utf8("  "@) == indent_text(),
        encode_utf8(""@) == Seq::<u8>::empty(),
{
    reveal_strlit("\n");
    reveal_strlit(" ");
    reveal_strlit("  ");
    reveal_strlit("");
    is_ascii_chars_encode_utf8("\n"@);
    is_ascii_chars_encode_utf8(" "@);
    is_ascii_chars_encode_utf8("  "@);
    is_ascii_chars_encode_utf8(""@);
    assert(encode_utf8("\n"@) =~= seq![NEWLINE]);
    assert(encode_utf8(" "@) =~= seq![SPACE]);
    assert(encode_utf8("  "@) =~= indent_text());
    assert(encode_utf8(""@) =~= Seq::<u8>::empty());
}

/// Whether `len` bytes and `count` times `unit` more stay within the cap.
fn fits(len: usize, unit: usize, extra: usize, count: usize) -> (r: bool)
    ensures
        r == (len + (unit + extra) * count <= MAX_VIM_PASTE_BYTES),
{
    if count == 0 {
        assert((unit + extra) * 0 == 0) by (nonlinear_arith);
        return len <= MAX_VIM_PASTE_BYTES;
    }
    assert((unit + extra) * count >= unit + extra) by (nonlinear_arith)
        requires
            count >= 1,
            unit + extra >= 0,
    ;
    match unit.checked_add(extra) {
        Some(whole) => match whole.checked_mul(count) {
            Some(added) => match len.checked_add(added) {
                Some(total) => total <= MAX_VIM_PASTE_BYTES,
                None => false,
            },
            None => false,
        },
        None => false,
    }
}

impl TextArea {
    /// Paste `count` copies of the register after or before the cursor.
    pub fn paste_vim(&mut self, after: bool, count: usize)
        requires
            old(self).wf(),
        ensures
            final(self)@ == pasted(old(self)@, after, count as nat),
            final(self).wf(),
    {
        proof {
            reveal(pasted);
        }
        let len: usize = byte_len(&self.kill_buffer);
        if len == 0 {
            return;
        }
        // A linewise register yanked from the final line has no trailing newline; repeating it raw
        // would run the copies onto one line.
        let linewise = self.kill_buffer_kind == KillBufferKind::Linewise;
        let needs_terminator = linewise && byte_at(&self.kill_buffer, len - 1) != NEWLINE;
        let extra: usize = if needs_terminator {
            1
        } else {
            0
        };
        // Sized before copying anything, so a refused paste stays cheap even when `.` replays it
        // against a full buffer.
        let room = fits(byte_len(&self.text), len, extra, count);
        assert(room == can_paste(self@, count as nat));
        if !room {
            return;
        }
        let mut unit: String = self.kill_buffer.clone();
        if needs_terminator {
            proof {
                lemma_literals();
                lemma_encode_concat(unit@, "\n"@);
            }
            unit.append("\n");
            assert(encode_utf8(unit@) =~= paste_unit(self@));
        }
        let repeated_text: String = repeat(&unit, count);
        if linewise {
            self.paste_vim_lines(after, repeated_text);
            return;
        }
        let insert_at: usize = if after {
            self.next_atomic_boundary(self.cursor_pos)
        } else {
            self.cursor_pos
        };
        self.set_cursor(insert_at);
        self.insert_str(&repeated_text);
    }

    /// Paste lines below or above the current one.
    pub fn paste_vim_lines(&mut self, after: bool, repeated_text: String)
        requires
            old(self).wf(),
        ensures
            final(self)@ == lines_pasted(old(self)@, after, encode_utf8(repeated_text@)),
            final(self).wf(),
    {
        let bol: usize = self.beginning_of_current_line();
        let eol: usize = self.end_of_current_line();
        let ghost whole = encode_utf8(repeated_text@);
        let len: usize = byte_len(&repeated_text);
        proof {
            encode_utf8_valid_utf8(repeated_text@);
            lemma_zero_pos(whole);
            lemma_literals();
            if len > 0 && whole.last() == NEWLINE {
                lemma_ascii(whole, len - 1);
            }
        }
        // Strip only the structural terminator: a register of blank lines is all newlines, and
        // trimming them all would collapse the paste.
        let end: usize = if len > 0 && byte_at(&repeated_text, len - 1) == NEWLINE {
            len - 1
        } else {
            len
        };
        let payload: &str = slice(&repeated_text, 0, end);
        assert(encode_utf8(payload@) =~= without_newline(whole));
        let mut text: String = String::new();
        if after && eol >= byte_len(&self.text) {
            proof {
                lemma_encode_concat(text@, "\n"@);
                assert(encode_utf8(text@) =~= Seq::<u8>::empty());
                lemma_encode_concat(text@ + "\n"@, payload@);
            }
            text.append("\n");
            text.append(payload);
            assert(encode_utf8(text@) =~= seq![NEWLINE] + without_newline(whole));
            self.insert_str_at(eol, &text);
            let cursor: usize = if eol < byte_len(&self.text) {
                eol + 1
            } else {
                eol
            };
            self.set_cursor(cursor);
        } else {
            proof {
                lemma_encode_concat(text@, payload@);
                assert(encode_utf8(text@) =~= Seq::<u8>::empty());
                lemma_encode_concat(text@ + payload@, "\n"@);
            }
            text.append(payload);
            text.append("\n");
            assert(encode_utf8(text@) =~= without_newline(whole).push(NEWLINE));
            let at: usize = if after {
                eol + 1
            } else {
                bol
            };
            self.insert_str_at(at, &text);
            self.set_cursor(at);
        }
    }

    /// Whether joining the current line with the next one puts a space between them.
    fn join_wants_space(&self, eol: usize, next_start: usize, next: usize) -> (r: bool)
        requires
            self.wf(),
            eol == line_end(self.bytes(), self@.buf.cursor),
            next_start == eol + 1,
            next_start <= self.bytes().len(),
            next == skip_white(
                self.bytes(),
                next_start as int,
                line_end(self.bytes(), next_start as int),
            ),
        ensures
            r == join_needs_space(self.bytes(), self@.buf.cursor),
    {
        let bol: usize = self.beginning_of_current_line();
        if eol <= bol || next >= self.end_of_line(next_start) {
            return false;
        }
        proof {
            crate::lines::lemma_line_end(self.bytes(), self@.buf.cursor);
        }
        let before: usize = prev_char(&self.text, eol);
        !is_whitespace(char_from(&self.text, before)) && byte_at(&self.text, next) != 0x29
    }

    /// Join `line_count` lines starting at the cursor line; returns whether anything joined.
    pub fn join_vim_lines(&mut self, line_count: usize) -> (r: bool)
        requires
            old(self).wf(),
        ensures
            (final(self)@, r) == lines_joined(old(self)@, line_count as nat),
            final(self).wf(),
    {
        proof {
            reveal(lines_joined);
        }
        let mut left: usize = if line_count > 0 {
            line_count - 1
        } else {
            0
        };
        let mut joined: Option<usize> = None;
        proof {
            lemma_literals();
        }
        while left > 0
            invariant_except_break
                joined_times(
                    self@,
                    match joined {
                        Some(p) => Some(p as int),
                        None => None,
                    },
                    left as nat,
                ) == joined_times(old(self)@, None, less_one(line_count as nat)),
            invariant
                self.wf(),
                encode_utf8(" "@) == seq![SPACE],
                encode_utf8(""@) == Seq::<u8>::empty(),
            ensures
                (
                    self@,
                    match joined {
                        Some(p) => Some(p as int),
                        None => None,
                    },
                ) == joined_times(old(self)@, None, less_one(line_count as nat)),
            decreases left,
        {
            let eol: usize = self.end_of_current_line();
            if eol >= byte_len(&self.text) {
                break;
            }
            let next_start: usize = eol + 1;
            let next: usize = self.first_non_blank_of_line(next_start);
            let space = self.join_wants_space(eol, next_start, next);
            self.replace_range(
                eol..next,
                if space {
                    " "
                } else {
                    ""
                },
            );
            joined = Some(eol);
            left = left - 1;
        }
        match joined {
            Some(at) => {
                let last: usize = self.vim_line_end_cursor();
                self.set_cursor(
                    if at < last {
                        at
                    } else {
                        last
                    },
                );
                true
            },
            None => false,
        }
    }

    /// Starts of up to `count` lines from the one that starts at `first`.
    fn collect_line_starts(&self, first: usize, count: usize) -> (starts: Vec<usize>)
        requires
            is_pos(self.bytes(), first as int),
        ensures
            positions(starts@) == line_starts(self.bytes(), first as int, count as nat),
    {
        let ghost t = self.bytes();
        let mut starts: Vec<usize> = Vec::new();
        let mut line: usize = first;
        let mut left: usize = count;
        assert(positions(starts@) + line_starts(t, first as int, count as nat) =~= line_starts(
            t,
            first as int,
            count as nat,
        ));
        while left > 0
            invariant_except_break
                positions(starts@) + line_starts(t, line as int, left as nat) == line_starts(
                    t,
                    first as int,
                    count as nat,
                ),
            invariant
                t == self.bytes(),
                is_pos(t, line as int),
            ensures
                positions(starts@) == line_starts(t, first as int, count as nat),
            decreases left,
        {
            let ghost done = positions(starts@);
            starts.push(line);
            assert(positions(starts@) =~= done + seq![line as int]);
            proof {
                reveal_with_fuel(line_steps, 2);
                assert(done + line_starts(t, line as int, left as nat) =~= positions(starts@) + (
                if line_step(t, line as int, true) == line {
                    Seq::<int>::empty()
                } else {
                    line_starts(t, line_step(t, line as int, true), (left - 1) as nat)
                }));
            }
            let next: usize = self.step_logical_lines(line, 1, true);
            if next == line {
                assert(positions(starts@) + Seq::<int>::empty() =~= positions(starts@));
                break;
            }
            line = next;
            left = left - 1;
            proof {
                if left == 0 {
                    assert(line_starts(t, line as int, 0) =~= Seq::<int>::empty());
                    assert(positions(starts@) + Seq::<int>::empty() =~= positions(starts@));
                }
            }
        }
        starts
    }

    /// Where the indentation that one level takes from the line that starts at `start` ends.
    fn end_of_indentation(&self, start: usize) -> (r: usize)
        requires
            is_pos(self.bytes(), start as int),
        ensures
            r == start + dedent_width(self.bytes(), start as int),
            is_pos(self.bytes(), r as int),
    {
        let eol: usize = self.end_of_line(start);
        proof {
            encode_utf8_valid_utf8(self.text@);
        }
        if start >= eol {
            return start;
        }
        let first: u8 = byte_at(&self.text, start);
        if first != TAB && first != SPACE {
            return start;
        }
        proof {
            lemma_ascii(self.bytes(), start as int);
        }
        if first == SPACE && start + 1 < eol && byte_at(&self.text, start + 1) == SPACE {
            proof {
                lemma_ascii(self.bytes(), start + 1);
            }
            return start + 2;
        }
        start + 1
    }

    /// Shift the line that starts at `start` by one level; whether it changed.
    fn shift_line(&mut self, direction: VimIndentDirection, start: usize) -> (r: bool)
        requires
            old(self).wf(),
        ensures
            final(self)@ == shifted(old(self)@, direction, start as int),
            final(self).wf(),
            r == shifts(old(self)@.buf.text, direction, start as int),
    {
        proof {
            lemma_literals();
        }
        if !is_boundary(&self.text, start) {
            return false;
        }
        match direction {
            VimIndentDirection::Increase => {
                if start < self.end_of_line(start) {
                    self.insert_str_at(start, "  ");
                    true
                } else {
                    false
                }
            },
            VimIndentDirection::Decrease => {
                let end: usize = self.end_of_indentation(start);
                if end > start {
                    self.replace_range(start..end, "");
                    true
                } else {
                    false
                }
            },
        }
    }

    /// Shift `count` lines from the cursor line by one indent level; returns whether any changed.
    pub fn indent_vim_lines(&mut self, direction: VimIndentDirection, count: usize) -> (r: bool)
        requires
            old(self).wf(),
        ensures
            (final(self)@, r) == lines_shifted(old(self)@, direction, count as nat),
            final(self).wf(),
    {
        proof {
            reveal(lines_shifted);
        }
        let first: usize = self.beginning_of_current_line();
        let starts: Vec<usize> = self.collect_line_starts(first, count);
        let ghost all = positions(starts@);
        let mut changed = false;
        let mut i: usize = starts.len();
        assert(all.take(i as int) =~= all);
        while i > 0
            invariant
                self.wf(),
                i <= starts.len(),
                all == positions(starts@),
                all_shifted(self@, direction, all.take(i as int), changed) == all_shifted(
                    old(self)@,
                    direction,
                    all,
                    false,
                ),
            decreases i,
        {
            proof {
                assert(all.take(i as int).drop_last() =~= all.take(i - 1));
                assert(all.take(i as int).last() == starts@[i - 1]);
            }
            i = i - 1;
            let one = self.shift_line(direction, starts[i]);
            changed = changed || one;
        }
        let cursor: usize = if is_boundary(&self.text, first) {
            self.first_non_blank_of_line(first)
        } else {
            first
        };
        self.set_cursor(cursor);
        changed
    }
}

} // verus!
