//! What commands on lines promise.

use crate::actions::line_units;
use crate::buffer::{
    buffer_ok, elements_ok, inside, inside_at, next_atomic, snap_nearest, ElementView,
};
use crate::line_edits::{
    can_paste, lines_joined, paste_unit, pasted, without_newline, MAX_VIM_PASTE_BYTES,
};
use crate::lines::{line_end, line_start, line_step, line_steps, NEWLINE};
use crate::text::{floor_pos, lemma_repeated_len, repeated};
use crate::textarea::{inserted_at, raw_edit, with_cursor, AreaView, KillBufferKind};
use crate::vim::VimMode;
use vstd::prelude::*;

verus! {

/// Stepping over lines adds up.
pub proof fn law_line_steps_add_up(t: Seq<u8>, p: int, a: nat, b: nat, down: bool)
    ensures
        line_steps(t, p, a + b, down) == line_steps(t, line_steps(t, p, a, down), b, down),
    decreases a,
{
    if a > 0 {
        law_line_steps_add_up(t, line_step(t, p, down), (a - 1) as nat, b, down);
    }
}

/// Characters are counted up to the end of the line: `x` and `r` never cross it.
pub proof fn law_counted_characters_stay_on_the_line(
    t: Seq<u8>,
    es: Seq<ElementView>,
    p: int,
    n: nat,
    eol: int,
)
    requires
        p <= eol,
    ensures
        line_units(t, es, p, n, eol).0 <= eol,
        line_units(t, es, p, n, eol).1 > 0 ==> line_units(t, es, p, n, eol).0 == eol,
    decreases n,
{
    if n > 0 && p < eol {
        let q = next_atomic(t, es, p);
        law_counted_characters_stay_on_the_line(
            t,
            es,
            if q < eol {
                q
            } else {
                eol
            },
            (n - 1) as nat,
            eol,
        );
    }
}

/// Joining on the last line changes nothing.
pub proof fn law_join_on_the_last_line(m: AreaView, count: nat)
    requires
        line_end(m.buf.text, m.buf.cursor) >= m.buf.text.len(),
    ensures
        lines_joined(m, count) == (m, false),
{
    reveal(lines_joined);
}

/// A paste in Normal mode either leaves the text as it is, or leaves no more in it than the cap.
pub proof fn law_paste_is_bounded(m: AreaView, after: bool, count: nat)
    requires
        m.mode == VimMode::Normal,
        count >= 1,
        buffer_ok(m.buf),
    ensures
        pasted(m, after, count).buf.text == m.buf.text || pasted(m, after, count).buf.text.len()
            <= MAX_VIM_PASTE_BYTES,
{
    reveal(pasted);
    reveal(next_atomic);
    if can_paste(m, count) {
        let unit = paste_unit(m);
        let text = repeated(unit, count);
        lemma_repeated_len(unit, count);
        assert(unit.len() * count >= 1) by (nonlinear_arith)
            requires
                unit.len() >= 1,
                count >= 1,
        ;
        if m.register_kind == KillBufferKind::Linewise {
            let t = m.buf.text;
            let bol = line_start(t, m.buf.cursor);
            let eol = line_end(t, m.buf.cursor);
            lemma_line_bounds(t, m.buf.cursor);
            lemma_repeated_last(unit, count);
            assert(text.last() == NEWLINE);
            let payload = without_newline(text);
            lemma_inserted_len(m, bol, payload.push(NEWLINE));
            lemma_inserted_len(m, eol, seq![NEWLINE] + payload);
            if eol < t.len() {
                lemma_inserted_len(m, eol + 1, payload.push(NEWLINE));
            }
        } else {
            let at = if after {
                next_atomic(m.buf.text, m.buf.elements, m.buf.cursor)
            } else {
                m.buf.cursor
            };
            let there = with_cursor(m, at);
            lemma_cursor_range(m, at);
            lemma_inserted_len(there, there.buf.cursor, text);
        }
    }
}

/// The last byte of repeated text is the last byte of the unit.
proof fn lemma_repeated_last(unit: Seq<u8>, n: nat)
    requires
        unit.len() > 0,
        n > 0,
    ensures
        repeated(unit, n).len() > 0,
        repeated(unit, n).last() == unit.last(),
{
    assert(repeated(unit, n) == repeated(unit, (n - 1) as nat) + unit);
}

proof fn lemma_line_bounds(t: Seq<u8>, p: int)
    requires
        0 <= p <= t.len(),
    ensures
        0 <= line_start(t, p) <= p <= line_end(t, p) <= t.len(),
    decreases t.len() - p,
{
    crate::lines::lemma_line_of_start(t, p);
    if p < t.len() && t[p] != NEWLINE {
        lemma_line_bounds(t, p + 1);
    }
}

/// Snapping stays within the text.
proof fn lemma_snap_range(m: AreaView, p: int)
    requires
        0 <= p <= m.buf.text.len(),
        elements_ok(m.buf.text, m.buf.elements),
    ensures
        0 <= snap_nearest(m.buf.elements, p) <= m.buf.text.len(),
{
    if inside(m.buf.elements, p) {
        let i = choose|i: int| inside_at(m.buf.elements, i, p);
        assert(inside_at(m.buf.elements, i, p));
    }
}

proof fn lemma_cursor_range(m: AreaView, p: int)
    requires
        0 <= p,
        elements_ok(m.buf.text, m.buf.elements),
    ensures
        0 <= with_cursor(m, p).buf.cursor <= m.buf.text.len(),
{
    let capped = if p > m.buf.text.len() {
        m.buf.text.len() as int
    } else {
        p
    };
    crate::text::lemma_floor_range(m.buf.text, capped);
    lemma_snap_range(m, floor_pos(m.buf.text, capped));
}

/// An insertion makes the text longer by what is inserted.
proof fn lemma_inserted_len(m: AreaView, p: int, ins: Seq<u8>)
    requires
        0 <= p <= m.buf.text.len(),
        elements_ok(m.buf.text, m.buf.elements),
    ensures
        inserted_at(m, p, ins).buf.text.len() == m.buf.text.len() + ins.len(),
{
    reveal(raw_edit);
    lemma_snap_range(m, p);
}

} // verus!
