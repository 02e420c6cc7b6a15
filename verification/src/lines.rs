//! Logical lines, and the whitespace within them.

use crate::buffer::{covered, prev_atomic, ElementView};
use crate::text::{
    after_char, before_char, byte_at, byte_len, char_from, is_pos, is_whitespace, lemma_ascii,
    lemma_char, lemma_char_interior, lemma_floor_range, lemma_zero_pos, next_char, plain_text,
    prev_char, white_at,
};
use crate::textarea::TextArea;
use std::ops::Range;
use vstd::prelude::*;
use vstd::utf8::*;

verus! {

/// The byte that ends a line.
pub const NEWLINE: u8 = 10;

/// End of the line that `p` is on: its newline, or the end of the text.
pub open spec fn line_end(t: Seq<u8>, p: int) -> int
    decreases t.len() - p,
{
    if p >= t.len() {
        t.len() as int
    } else if t[p] == NEWLINE {
        p
    } else {
        line_end(t, p + 1)
    }
}

/// Start of the line that `p` is on: right after the newline before it, or the start of the text.
pub open spec fn line_start(t: Seq<u8>, p: int) -> int
    decreases p,
{
    if p <= 0 {
        0
    } else if t[p - 1] == NEWLINE {
        p
    } else {
        line_start(t, p - 1)
    }
}

/// The first position from `p` on that is not whitespace, or `limit`.
pub open spec fn skip_white(t: Seq<u8>, p: int, limit: int) -> int
    decreases
            (if p < limit {
                limit - p
            } else {
                0
            }),
{
    if p >= limit {
        limit
    } else if white_at(t, p) {
        skip_white(t, after_char(t, p), limit)
    } else {
        p
    }
}

/// The first position from `p` on that is whitespace, or `limit`.
pub open spec fn skip_black(t: Seq<u8>, p: int, limit: int) -> int
    decreases
            (if p < limit {
                limit - p
            } else {
                0
            }),
{
    if p >= limit {
        limit
    } else if !white_at(t, p) {
        skip_black(t, after_char(t, p), limit)
    } else {
        p
    }
}

/// Start of the whitespace that ends at `p`.
pub open spec fn white_start(t: Seq<u8>, p: int) -> int
    decreases p,
{
    if p <= 0 {
        0
    } else if white_at(t, before_char(t, p)) {
        proof {
            lemma_floor_range(t, p - 1);
        }
        white_start(t, before_char(t, p))
    } else {
        p
    }
}

/// Start of the stretch without whitespace that ends at `p`.
pub open spec fn black_start(t: Seq<u8>, p: int) -> int
    decreases p,
{
    if p <= 0 {
        0
    } else if !white_at(t, before_char(t, p)) {
        proof {
            lemma_floor_range(t, p - 1);
        }
        black_start(t, before_char(t, p))
    } else {
        p
    }
}

/// The end of the line after its newline, if it has one.
pub open spec fn line_end_with_newline(t: Seq<u8>, p: int) -> int {
    if line_end(t, p) < t.len() {
        line_end(t, p) + 1
    } else {
        line_end(t, p)
    }
}

/// The line start one line down or up, or the same one at the edge of the text.
pub open spec fn line_step(t: Seq<u8>, p: int, down: bool) -> int {
    if down {
        if line_end(t, p) >= t.len() {
            p
        } else {
            line_end(t, p) + 1
        }
    } else if p == 0 {
        0
    } else {
        line_start(t, p - 1)
    }
}

/// The line start `count` lines down or up, as far as there are lines.
pub open spec fn line_steps(t: Seq<u8>, p: int, count: nat, down: bool) -> int
    decreases count,
{
    if count == 0 {
        p
    } else {
        line_steps(t, line_step(t, p, down), (count - 1) as nat, down)
    }
}

/// The last position on the line of `p` where a cursor can stand on a character.
pub open spec fn last_on_line(
    t: Seq<u8>,
    es: Seq<ElementView>,
    p: int,
) -> int {
    let bol = line_start(t, p);
    let eol = line_end(t, p);
    if eol > bol && prev_atomic(t, es, eol) > bol {
        prev_atomic(t, es, eol)
    } else {
        bol
    }
}

/// Where the next newline is, there the line ends.
pub proof fn lemma_line_end_is(t: Seq<u8>, p: int, q: int)
    requires
        0 <= p <= q <= t.len(),
        forall|k: int| p <= k < q ==> t[k] != NEWLINE,
        q < t.len() ==> t[q] == NEWLINE,
    ensures
        line_end(t, p) == q,
    decreases q - p,
{
    if p < q {
        lemma_line_end_is(t, p + 1, q);
    }
}

/// No newline comes before the end of a line.
pub proof fn lemma_line_end_free(t: Seq<u8>, p: int)
    requires
        0 <= p <= t.len(),
    ensures
        p <= line_end(t, p) <= t.len(),
        forall|k: int| p <= k < line_end(t, p) ==> t[k] != NEWLINE,
        line_end(t, p) < t.len() ==> t[line_end(t, p)] == NEWLINE,
    decreases t.len() - p,
{
    if p < t.len() && t[p] != NEWLINE {
        lemma_line_end_free(t, p + 1);
    }
}

pub proof fn lemma_line_end(t: Seq<u8>, p: int)
    requires
        valid_utf8(t),
        0 <= p <= t.len(),
    ensures
        p <= line_end(t, p) <= t.len(),
        is_pos(t, line_end(t, p)),
        line_end(t, p) < t.len() ==> t[line_end(t, p)] == NEWLINE && is_pos(
            t,
            line_end(t, p) + 1,
        ),
        forall|q: int| p <= q < line_end(t, p) ==> t[q] != NEWLINE,
    decreases t.len() - p,
{
    lemma_zero_pos(t);
    if p < t.len() {
        if t[p] == NEWLINE {
            lemma_ascii(t, p);
        } else {
            lemma_line_end(t, p + 1);
        }
    }
}

pub proof fn lemma_line_start(t: Seq<u8>, p: int)
    requires
        valid_utf8(t),
        0 <= p <= t.len(),
    ensures
        0 <= line_start(t, p) <= p,
        is_pos(t, line_start(t, p)),
        line_start(t, p) > 0 ==> t[line_start(t, p) - 1] == NEWLINE,
        forall|q: int| line_start(t, p) <= q < p ==> t[q] != NEWLINE,
    decreases p,
{
    lemma_zero_pos(t);
    if p > 0 {
        if t[p - 1] == NEWLINE {
            lemma_ascii(t, p - 1);
        } else {
            lemma_line_start(t, p - 1);
        }
    }
}

pub proof fn lemma_skip_white(t: Seq<u8>, p: int, limit: int)
    requires
        valid_utf8(t),
        is_pos(t, p),
        is_pos(t, limit),
        p <= limit,
    ensures
        p <= skip_white(t, p, limit) <= limit,
        is_pos(t, skip_white(t, p, limit)),
    decreases limit - p,
{
    if p < limit && white_at(t, p) {
        lemma_char(t, p);
        if after_char(t, p) > limit {
            lemma_char_interior(t, p, limit);
        }
        lemma_skip_white(t, after_char(t, p), limit);
    }
}

pub proof fn lemma_skip_black(t: Seq<u8>, p: int, limit: int)
    requires
        valid_utf8(t),
        is_pos(t, p),
        is_pos(t, limit),
        p <= limit,
    ensures
        p <= skip_black(t, p, limit) <= limit,
        is_pos(t, skip_black(t, p, limit)),
    decreases limit - p,
{
    if p < limit && !white_at(t, p) {
        lemma_char(t, p);
        if after_char(t, p) > limit {
            lemma_char_interior(t, p, limit);
        }
        lemma_skip_black(t, after_char(t, p), limit);
    }
}

pub proof fn lemma_line_step(t: Seq<u8>, p: int, down: bool)
    requires
        valid_utf8(t),
        0 <= p <= t.len(),
    ensures
        0 <= line_step(t, p, down) <= t.len(),
        is_pos(t, p) ==> is_pos(t, line_step(t, p, down)),
        down ==> p <= line_step(t, p, down),
        !down ==> line_step(t, p, down) <= p,
{
    lemma_zero_pos(t);
    lemma_line_end(t, p);
    if !down && p > 0 {
        lemma_line_start(t, p - 1);
    }
}

/// Once a step stays in place, all further steps do.
pub proof fn lemma_line_steps_stuck(t: Seq<u8>, p: int, count: nat, down: bool)
    requires
        line_step(t, p, down) == p,
    ensures
        line_steps(t, p, count, down) == p,
    decreases count,
{
    if count > 0 {
        lemma_line_steps_stuck(t, p, (count - 1) as nat, down);
    }
}

/// A line ends where its start says.
pub proof fn lemma_line_of_start(t: Seq<u8>, c: int)
    requires
        0 <= c <= t.len(),
    ensures
        line_end(t, line_start(t, c)) == line_end(t, c),
        0 <= line_start(t, c) <= c,
    decreases c,
{
    if c > 0 && t[c - 1] != NEWLINE {
        lemma_line_of_start(t, c - 1);
    }
}

/// Going down never comes to an earlier end of line.
pub proof fn lemma_line_steps_down(t: Seq<u8>, p: int, n: nat)
    requires
        valid_utf8(t),
        0 <= p <= t.len(),
    ensures
        line_end(t, p) <= line_end(t, line_steps(t, p, n, true)),
    decreases n,
{
    if n > 0 {
        let q = line_step(t, p, true);
        lemma_line_step(t, p, true);
        lemma_line_end(t, p);
        lemma_line_end(t, q);
        lemma_line_steps_down(t, q, (n - 1) as nat);
    }
}

/// The first position from `p` on that is not whitespace, or `limit`.
pub fn skip_whitespace(s: &str, p: usize, limit: usize) -> (r: usize)
    requires
        is_pos(encode_utf8(s@), p as int),
        is_pos(encode_utf8(s@), limit as int),
        p <= limit,
    ensures
        r == skip_white(encode_utf8(s@), p as int, limit as int),
        is_pos(encode_utf8(s@), r as int),
        p <= r <= limit,
{
    let ghost t = encode_utf8(s@);
    proof {
        encode_utf8_valid_utf8(s@);
        lemma_skip_white(t, p as int, limit as int);
    }
    let mut r: usize = p;
    while r < limit
        invariant
            t == encode_utf8(s@),
            valid_utf8(t),
            is_pos(t, r as int),
            is_pos(t, limit as int),
            p <= r <= limit,
            skip_white(t, r as int, limit as int) == skip_white(t, p as int, limit as int),
        decreases limit - r,
    {
        if !is_whitespace(char_from(s, r)) {
            return r;
        }
        proof {
            lemma_skip_white(t, r as int, limit as int);
            lemma_char(t, r as int);
            if after_char(t, r as int) > limit {
                lemma_char_interior(t, r as int, limit as int);
            }
        }
        r = next_char(s, r);
    }
    r
}

/// The first position from `p` on that is whitespace, or `limit`.
pub fn skip_non_whitespace(s: &str, p: usize, limit: usize) -> (r: usize)
    requires
        is_pos(encode_utf8(s@), p as int),
        is_pos(encode_utf8(s@), limit as int),
        p <= limit,
    ensures
        r == skip_black(encode_utf8(s@), p as int, limit as int),
        is_pos(encode_utf8(s@), r as int),
        p <= r <= limit,
{
    let ghost t = encode_utf8(s@);
    proof {
        encode_utf8_valid_utf8(s@);
        lemma_skip_black(t, p as int, limit as int);
    }
    let mut r: usize = p;
    while r < limit
        invariant
            t == encode_utf8(s@),
            valid_utf8(t),
            is_pos(t, r as int),
            is_pos(t, limit as int),
            p <= r <= limit,
            skip_black(t, r as int, limit as int) == skip_black(t, p as int, limit as int),
        decreases limit - r,
    {
        if is_whitespace(char_from(s, r)) {
            return r;
        }
        proof {
            lemma_char(t, r as int);
            if after_char(t, r as int) > limit {
                lemma_char_interior(t, r as int, limit as int);
            }
        }
        r = next_char(s, r);
    }
    r
}

/// Start of the whitespace that ends at `p`.
pub fn whitespace_start(s: &str, p: usize) -> (r: usize)
    requires
        is_pos(encode_utf8(s@), p as int),
    ensures
        r == white_start(encode_utf8(s@), p as int),
        is_pos(encode_utf8(s@), r as int),
        r <= p,
{
    let ghost t = encode_utf8(s@);
    proof {
        encode_utf8_valid_utf8(s@);
    }
    let mut r: usize = p;
    while r > 0
        invariant
            t == encode_utf8(s@),
            valid_utf8(t),
            is_pos(t, r as int),
            r <= p,
            white_start(t, r as int) == white_start(t, p as int),
        decreases r,
    {
        let q: usize = prev_char(s, r);
        if !is_whitespace(char_from(s, q)) {
            return r;
        }
        r = q;
    }
    r
}

/// Start of the stretch without whitespace that ends at `p`.
pub fn non_whitespace_start(s: &str, p: usize) -> (r: usize)
    requires
        is_pos(encode_utf8(s@), p as int),
    ensures
        r == black_start(encode_utf8(s@), p as int),
        is_pos(encode_utf8(s@), r as int),
        r <= p,
{
    let ghost t = encode_utf8(s@);
    proof {
        encode_utf8_valid_utf8(s@);
    }
    let mut r: usize = p;
    while r > 0
        invariant
            t == encode_utf8(s@),
            valid_utf8(t),
            is_pos(t, r as int),
            r <= p,
            black_start(t, r as int) == black_start(t, p as int),
        decreases r,
    {
        let q: usize = prev_char(s, r);
        if is_whitespace(char_from(s, q)) {
            return r;
        }
        r = q;
    }
    r
}

impl TextArea {
    /// End of the line that `pos` is on.
    pub fn end_of_line(&self, pos: usize) -> (r: usize)
        requires
            pos <= self.bytes().len(),
        ensures
            r == line_end(self.bytes(), pos as int),
            pos <= r <= self.bytes().len(),
            is_pos(self.bytes(), r as int),
            r < self.bytes().len() ==> is_pos(self.bytes(), r + 1),
    {
        proof {
            encode_utf8_valid_utf8(self.text@);
            lemma_line_end(self.bytes(), pos as int);
        }
        let len: usize = byte_len(&self.text);
        let mut r: usize = pos;
        while r < len && byte_at(&self.text, r) != NEWLINE
            invariant
                pos <= r <= len,
                len == self.bytes().len(),
                line_end(self.bytes(), r as int) == line_end(self.bytes(), pos as int),
            decreases len - r,
        {
            r = r + 1;
        }
        r
    }

    /// Start of the line that `pos` is on.
    pub fn beginning_of_line(&self, pos: usize) -> (r: usize)
        requires
            pos <= self.bytes().len(),
        ensures
            r == line_start(self.bytes(), pos as int),
            r <= pos,
            is_pos(self.bytes(), r as int),
    {
        proof {
            encode_utf8_valid_utf8(self.text@);
            lemma_line_start(self.bytes(), pos as int);
        }
        let mut r: usize = pos;
        while r > 0 && byte_at(&self.text, r - 1) != NEWLINE
            invariant
                r <= pos <= self.bytes().len(),
                line_start(self.bytes(), r as int) == line_start(self.bytes(), pos as int),
            decreases r,
        {
            r = r - 1;
        }
        r
    }

    /// End of the line that the cursor is on.
    pub fn end_of_current_line(&self) -> (r: usize)
        requires
            self.wf(),
        ensures
            r == line_end(self.bytes(), self@.buf.cursor),
            self.cursor_pos <= r <= self.bytes().len(),
            is_pos(self.bytes(), r as int),
            r < self.bytes().len() ==> is_pos(self.bytes(), r + 1),
    {
        self.end_of_line(self.cursor_pos)
    }

    /// Start of the line that the cursor is on.
    pub fn beginning_of_current_line(&self) -> (r: usize)
        requires
            self.wf(),
        ensures
            r == line_start(self.bytes(), self@.buf.cursor),
            r <= self.cursor_pos,
            is_pos(self.bytes(), r as int),
    {
        self.beginning_of_line(self.cursor_pos)
    }

    /// The first character of the line from `line_start` on that is not whitespace, or its end.
    pub fn first_non_blank_of_line(&self, line_start: usize) -> (r: usize)
        requires
            is_pos(self.bytes(), line_start as int),
        ensures
            r == skip_white(
                self.bytes(),
                line_start as int,
                line_end(self.bytes(), line_start as int),
            ),
            line_start <= r <= line_end(self.bytes(), line_start as int),
            is_pos(self.bytes(), r as int),
    {
        let eol: usize = self.end_of_line(line_start);
        skip_whitespace(&self.text, line_start, eol)
    }

    /// The first character of the current line that is not whitespace, or its end.
    pub fn first_non_blank_of_current_line(&self) -> (r: usize)
        requires
            self.wf(),
        ensures
            r == first_non_blank(self.bytes(), self@.buf.cursor),
            is_pos(self.bytes(), r as int),
    {
        self.first_non_blank_of_line(self.beginning_of_current_line())
    }

    /// The last position on the current line where the cursor can stand on a character.
    pub fn vim_line_end_cursor(&self) -> (r: usize)
        requires
            self.wf(),
        ensures
            r == last_on_line(self.bytes(), self.marks(), self@.buf.cursor),
            is_pos(self.bytes(), r as int),
            ({
                let bol = line_start(self.bytes(), self@.buf.cursor);
                let eol = line_end(self.bytes(), self@.buf.cursor);
                plain_text(self.bytes()) && bol < eol && !covered(self.marks(), eol - 1) ==> r
                    == eol - 1
            }),
    {
        self.line_end_cursor_from(self.cursor_pos)
    }

    /// The last position on the line of `pos` where the cursor can stand on a character.
    pub fn line_end_cursor_from(&self, pos: usize) -> (r: usize)
        requires
            self.wf(),
            pos <= self.bytes().len(),
        ensures
            r == last_on_line(self.bytes(), self.marks(), pos as int),
            is_pos(self.bytes(), r as int),
            ({
                let bol = line_start(self.bytes(), pos as int);
                let eol = line_end(self.bytes(), pos as int);
                plain_text(self.bytes()) && bol < eol && !covered(self.marks(), eol - 1) ==> r
                    == eol - 1
            }),
    {
        let bol: usize = self.beginning_of_line(pos);
        let eol: usize = self.end_of_line(pos);
        if eol > bol {
            let last: usize = self.prev_atomic_boundary(eol);
            if last > bol {
                last
            } else {
                bol
            }
        } else {
            bol
        }
    }

    /// Byte range of the logical line starting at `line_start`, with its newline.
    pub fn line_range_with_newline(&self, line_start: usize) -> (r: Range<usize>)
        requires
            line_start <= self.bytes().len(),
        ensures
            r.start == line_start,
            r.end == line_end_with_newline(self.bytes(), line_start as int),
            r.start <= r.end <= self.bytes().len(),
            is_pos(self.bytes(), r.end as int),
    {
        let len: usize = byte_len(&self.text);
        let eol: usize = self.end_of_line(line_start);
        let end: usize = if eol < len {
            eol + 1
        } else {
            eol
        };
        line_start..end
    }

    /// Walk `count` logical lines from `line_start`, stopping at the buffer edge.
    pub fn step_logical_lines(&self, line_start: usize, count: usize, down: bool) -> (r: usize)
        requires
            line_start <= self.bytes().len(),
        ensures
            r == line_steps(self.bytes(), line_start as int, count as nat, down),
            r <= self.bytes().len(),
            is_pos(self.bytes(), line_start as int) ==> is_pos(self.bytes(), r as int),
            down ==> line_start <= r,
            !down ==> r <= line_start,
    {
        proof {
            encode_utf8_valid_utf8(self.text@);
        }
        let len: usize = byte_len(&self.text);
        let mut at: usize = line_start;
        let mut i: usize = 0;
        while i < count
            invariant
                i <= count,
                len == self.bytes().len(),
                valid_utf8(self.bytes()),
                at <= len,
                is_pos(self.bytes(), line_start as int) ==> is_pos(self.bytes(), at as int),
                down ==> line_start <= at,
                !down ==> at <= line_start,
                line_steps(self.bytes(), at as int, (count - i) as nat, down) == line_steps(
                    self.bytes(),
                    line_start as int,
                    count as nat,
                    down,
                ),
            decreases count - i,
        {
            proof {
                lemma_line_step(self.bytes(), at as int, down);
            }
            let next: usize = if down {
                let eol: usize = self.end_of_line(at);
                if eol >= len {
                    at
                } else {
                    eol + 1
                }
            } else if at == 0 {
                0
            } else {
                self.beginning_of_line(at - 1)
            };
            if next == at {
                proof {
                    lemma_line_steps_stuck(self.bytes(), at as int, (count - i) as nat, down);
                }
                return at;
            }
            at = next;
            i = i + 1;
        }
        at
    }

    /// The current line through `count - 1` lines below it, newlines included.
    pub fn counted_line_range(&self, count: usize) -> (r: Range<usize>)
        requires
            self.wf(),
        ensures
            r.start == line_start(self.bytes(), self@.buf.cursor),
            r.end == counted_lines_end(self.bytes(), self@.buf.cursor, count as nat),
            r.start <= r.end <= self.bytes().len(),
            is_pos(self.bytes(), r.start as int),
            is_pos(self.bytes(), r.end as int),
    {
        let start: usize = self.beginning_of_current_line();
        let steps: usize = if count > 0 {
            count - 1
        } else {
            0
        };
        let last: usize = self.step_logical_lines(start, steps, true);
        let end: usize = self.line_range_with_newline(last).end;
        start..end
    }
}

/// The first character of the line of `p` that is not whitespace, or the end of the line.
pub open spec fn first_non_blank(t: Seq<u8>, p: int) -> int {
    let bol = line_start(t, p);
    skip_white(t, bol, line_end(t, bol))
}

/// `count - 1`, at least 0.
pub open spec fn less_one(count: nat) -> nat {
    if count > 0 {
        (count - 1) as nat
    } else {
        0
    }
}

/// Where `count` lines from the line of `p` end, newline included.
pub open spec fn counted_lines_end(t: Seq<u8>, p: int, count: nat) -> int {
    line_end_with_newline(t, line_steps(t, line_start(t, p), less_one(count), true))
}

} // verus!
