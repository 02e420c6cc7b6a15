//! What editing commands do to the characters and lines of a text.

use crate::actions::{acted, insert_entered, line_units, target_acted, target_applied};
use crate::block_laws::{
    lemma_block_above, lemma_block_below, lemma_line_start_free, lemma_newlines_concat,
    lemma_no_newlines, lemma_one_newline, lines_of, newlines,
};
use crate::buffer::{
    buffer_ok, covered, covers_at, edited, elements_ok, inside, inside_at, lemma_cover,
    lemma_edges, lemma_edited_ok, lemma_snap, next_atomic, ElementView,
};
use crate::editing::killed;
use crate::line_edits::lemma_literals;
use crate::lines::{
    lemma_line_end, lemma_line_end_free, lemma_line_end_is, lemma_line_start, lemma_skip_white,
    line_end, line_start, skip_white, NEWLINE,
};
use crate::motion_laws::{lemma_walk, lemma_walk_on, walk};
use crate::text::{
    after_char, is_pos, lemma_ascii, lemma_char, lemma_char_interior, lemma_zero_pos, spliced,
    white_at,
};
use crate::textarea::{lemma_cursor_there, lemma_len_outside, raw_edit, AreaView, KillBufferKind};
use crate::vim::{VimMode, VimOperator};
use crate::vim_commands::{steps_cleared, VimAction, VimEditTarget, VimInsertPosition};
use vstd::prelude::*;
use vstd::utf8::*;

verus! {

/// A line lies between newlines: it holds none, and one is right before and right behind it unless
/// the text starts or ends there.
pub proof fn law_lines_lie_between_newlines(t: Seq<u8>, p: int)
    requires
        0 <= p <= t.len(),
    ensures
        0 <= line_start(t, p) <= p <= line_end(t, p) <= t.len(),
        forall|k: int| line_start(t, p) <= k < line_end(t, p) ==> t[k] != NEWLINE,
        line_start(t, p) > 0 ==> t[line_start(t, p) - 1] == NEWLINE,
        line_end(t, p) < t.len() ==> t[line_end(t, p)] == NEWLINE,
{
    lemma_line_start_free(t, p);
    lemma_line_end_free(t, p);
}

/// Skipping whitespace goes over whitespace only, and over all of it.
pub proof fn law_whitespace_is_skipped(t: Seq<u8>, p: int, limit: int)
    requires
        valid_utf8(t),
        is_pos(t, p),
        is_pos(t, limit),
        p <= limit,
    ensures
        p <= skip_white(t, p, limit) <= limit,
        forall|q: int|
            p <= q < skip_white(t, p, limit) && #[trigger] is_pos(t, q) ==> white_at(t, q),
        skip_white(t, p, limit) < limit ==> !white_at(t, skip_white(t, p, limit)),
    decreases limit - p,
{
    lemma_skip_white(t, p, limit);
    if p < limit && white_at(t, p) {
        lemma_char(t, p);
        let n = after_char(t, p);
        if n > limit {
            lemma_char_interior(t, p, limit);
        }
        law_whitespace_is_skipped(t, n, limit);
        assert forall|q: int|
            p <= q < skip_white(t, p, limit) && #[trigger] is_pos(t, q) implies white_at(t, q) by {
            if p < q < n {
                lemma_char_interior(t, p, q);
            }
        }
    }
}

/// Where a new line goes: in front of the line of the cursor, or behind it.
pub open spec fn opening_place(t: Seq<u8>, c: int, above: bool) -> int {
    if above {
        line_start(t, c)
    } else if line_end(t, c) < t.len() {
        line_end(t, c) + 1
    } else {
        t.len() as int
    }
}

/// `O` puts one empty line in front of the line of the cursor, `o` one behind it. Every other line
/// stays, the cursor is on the new line, and Insert mode is entered.
pub proof fn law_opening_adds_one_empty_line(m: AreaView, above: bool)
    requires
        buffer_ok(m.buf),
        !inside(m.buf.elements, opening_place(m.buf.text, m.buf.cursor, above)),
    ensures
        ({
            let t = m.buf.text;
            let position = if above {
                VimInsertPosition::OpenAbove
            } else {
                VimInsertPosition::OpenBelow
            };
            let after = insert_entered(m, position);
            let u = after.buf.text;
            let d = after.buf.cursor;
            let k = newlines(t.subrange(0, m.buf.cursor)) + if above {
                0int
            } else {
                1
            };
            &&& 0 <= k <= lines_of(t).len()
            &&& lines_of(u) == lines_of(t).take(k) + seq![Seq::<u8>::empty()] + lines_of(t).skip(k)
            &&& 0 <= d <= u.len()
            &&& newlines(u.subrange(0, d)) == k
            &&& line_start(u, d) == d == line_end(u, d)
            &&& after.mode == VimMode::Insert
        }),
{
    let t = m.buf.text;
    let c = m.buf.cursor;
    let len = t.len() as int;
    let position = if above {
        VimInsertPosition::OpenAbove
    } else {
        VimInsertPosition::OpenBelow
    };
    let p = opening_place(t, c, above);
    let nl = seq![NEWLINE];
    let none = Seq::<u8>::empty();
    let after = insert_entered(m, position);
    let u = spliced(t, p, p, nl);
    lemma_line_start(t, c);
    lemma_line_start_free(t, c);
    lemma_line_end(t, c);
    lemma_line_end_free(t, c);
    lemma_zero_pos(t);
    if !above && line_end(t, c) < len {
        lemma_ascii(t, line_end(t, c));
    }
    lemma_literals();
    encode_utf8_valid_utf8("\n"@);
    lemma_edited_ok(m.buf, p, p, nl);
    assert(none.push(NEWLINE) =~= nl);
    assert(lines_of(none) =~= seq![none]);
    let d = if !above && line_end(t, c) >= len {
        p + 1
    } else {
        p
    };
    let there = AreaView { buf: edited(m.buf, p, p, nl), ..m };
    lemma_cursor_there(there, d);
    assert(after.buf.text == u && after.buf.cursor == d && after.mode == VimMode::Insert) by {
        reveal(insert_entered);
        reveal(raw_edit);
    }
    if above {
        assert(u =~= t.subrange(0, p) + none.push(NEWLINE) + t.subrange(p, len));
        lemma_block_above(t, c, none);
        lemma_newlines_concat(t.subrange(0, p), t.subrange(p, c));
        assert(t.subrange(0, p) + t.subrange(p, c) =~= t.subrange(0, c));
        lemma_no_newlines(t.subrange(p, c));
        assert(u.subrange(0, d) =~= t.subrange(0, p));
    } else {
        let eol = line_end(t, c);
        lemma_block_below(t, c, none);
        if eol < len {
            assert(u =~= t.subrange(0, eol + 1) + none.push(NEWLINE) + t.subrange(eol + 1, len));
        } else {
            assert(u =~= t + nl + none);
        }
        lemma_newlines_concat(t.subrange(0, c), t.subrange(c, eol));
        assert(t.subrange(0, c) + t.subrange(c, eol) =~= t.subrange(0, eol));
        lemma_no_newlines(t.subrange(c, eol));
        assert(u.subrange(0, d) =~= t.subrange(0, eol) + nl);
        lemma_newlines_concat(t.subrange(0, eol), nl);
        lemma_one_newline();
    }
    assert(d < u.len() ==> u[d] == NEWLINE);
    assert(d > 0 ==> u[d - 1] == NEWLINE);
}

/// `i`, `a`, `I` and `A` enter Insert mode and keep the text. `i` keeps the cursor; `a` steps over
/// what is at the cursor; `I` goes to the first character of the line that is not whitespace; `A`
/// goes to the end of the line.
pub proof fn law_insert_positions(m: AreaView, position: VimInsertPosition)
    requires
        buffer_ok(m.buf),
        !(position is OpenAbove) && !(position is OpenBelow),
    ensures
        ({
            let t = m.buf.text;
            let c = m.buf.cursor;
            let bol = line_start(t, c);
            let eol = line_end(t, c);
            let after = insert_entered(m, position);
            let d = after.buf.cursor;
            &&& after.mode == VimMode::Insert
            &&& after.buf.text == t
            &&& after.buf.elements == m.buf.elements
            &&& position is Cursor ==> d == c
            &&& position is AfterCursor && is_pos(t, walk(t, m.buf.elements, c, 1)) ==> d == walk(
                t,
                m.buf.elements,
                c,
                1,
            )
            &&& position is LineEnd && !inside(m.buf.elements, eol) ==> d == eol
            &&& position is LineStart && m.buf.elements.len() == 0 ==> {
                &&& bol <= d <= eol
                &&& forall|q: int| bol <= q < d && #[trigger] is_pos(t, q) ==> white_at(t, q)
                &&& d < eol ==> !white_at(t, d)
            }
        }),
{
    let t = m.buf.text;
    let c = m.buf.cursor;
    let es = m.buf.elements;
    lemma_line_start(t, c);
    lemma_line_end(t, c);
    let bol = line_start(t, c);
    reveal(insert_entered);
    match position {
        VimInsertPosition::AfterCursor => {
            reveal_with_fuel(walk, 2);
            let q = next_atomic(t, es, c);
            lemma_step_outside(t, es, c);
            if is_pos(t, q) {
                lemma_cursor_there(m, q);
            }
        },
        VimInsertPosition::LineStart => {
            crate::lines::lemma_line_of_start(t, c);
            lemma_line_end(t, bol);
            lemma_line_start_free(t, c);
            lemma_line_end_free(t, c);
            lemma_line_end_is(t, bol, line_end(t, c));
            law_whitespace_is_skipped(t, bol, line_end(t, bol));
            lemma_skip_white(t, bol, line_end(t, bol));
            let q = skip_white(t, bol, line_end(t, bol));
            if es.len() == 0 {
                assert(!inside(es, q));
                lemma_cursor_there(m, q);
            }
        },
        VimInsertPosition::LineEnd => {
            if !inside(es, line_end(t, c)) {
                lemma_cursor_there(m, line_end(t, c));
            }
        },
        _ => {},
    }
}

/// A step from outside every element ends outside every element.
pub proof fn lemma_step_outside(t: Seq<u8>, es: Seq<ElementView>, p: int)
    requires
        elements_ok(t, es),
    ensures
        !inside(es, next_atomic(t, es, p)),
{
    reveal(next_atomic);
    lemma_len_outside(t, es);
    if covered(es, p) {
        let i = choose|i: int| covers_at(es, i, p);
        assert(covers_at(es, i, p));
        lemma_cover(t, es, i, p);
        lemma_edges(t, es, i);
    } else {
        match crate::segment::next_grapheme(decode_utf8(t), p) {
            Some(q) => {
                let q = q as int;
                if inside(es, q) {
                    let i = choose|i: int| inside_at(es, i, q);
                    assert(inside_at(es, i, q));
                    lemma_snap(t, es, i, q);
                    lemma_edges(t, es, i);
                }
            },
            None => {},
        }
    }
}

/// Steps can be counted from the first one on.
proof fn lemma_walk_first(t: Seq<u8>, es: Seq<ElementView>, p: int, k: nat)
    ensures
        walk(t, es, next_atomic(t, es, p), k) == walk(t, es, p, k + 1),
    decreases k,
{
    if k > 0 {
        lemma_walk_first(t, es, p, (k - 1) as nat);
    } else {
        reveal_with_fuel(walk, 2);
    }
}

/// The smaller of two places.
pub open spec fn nearer(p: int, q: int) -> int {
    if p < q {
        p
    } else {
        q
    }
}

/// `n` steps along a line lead as far as `n` steps do, but not behind its end; they all fit exactly
/// when the last one starts before it.
pub proof fn lemma_line_units(t: Seq<u8>, es: Seq<ElementView>, p: int, n: nat, eol: int)
    requires
        0 <= p <= eol <= t.len(),
    ensures
        line_units(t, es, p, n, eol).0 == nearer(walk(t, es, p, n), eol),
        (line_units(t, es, p, n, eol).1 == 0) == (n == 0 || walk(t, es, p, (n - 1) as nat) < eol),
    decreases n,
{
    if n > 0 {
        let q = next_atomic(t, es, p);
        lemma_walk(t, es, p, 0);
        lemma_walk(t, es, p, n);
        lemma_walk_on(t, es, p, 0, n);
        lemma_walk_on(t, es, p, 0, (n - 1) as nat);
        assert(walk(t, es, p, 0) == p);
        assert(walk(t, es, p, 1) == q);
        if p < eol {
            lemma_walk_first(t, es, p, (n - 1) as nat);
            if n > 1 {
                lemma_walk_first(t, es, p, (n - 2) as nat);
            }
            if q < eol {
                lemma_line_units(t, es, q, (n - 1) as nat, eol);
            } else {
                lemma_line_units(t, es, eol, (n - 1) as nat, eol);
                lemma_walk_on(t, es, p, 1, n);
                lemma_walk_on(t, es, eol, 0, (n - 1) as nat);
                assert(walk(t, es, eol, 0) == eol);
                if n > 1 {
                    lemma_walk_on(t, es, p, 1, (n - 1) as nat);
                    lemma_walk_on(t, es, eol, 0, (n - 2) as nat);
                }
            }
        }
    }
}

/// How many times a count asks for: at least once.
pub open spec fn asked(count: Option<usize>) -> nat {
    match count {
        Some(n) => if n == 0 {
            1
        } else {
            n as nat
        },
        None => 1,
    }
}

/// `n` steps from outside every element end outside every element.
pub proof fn lemma_walk_outside(t: Seq<u8>, es: Seq<ElementView>, p: int, n: nat)
    requires
        elements_ok(t, es),
        !inside(es, p),
    ensures
        !inside(es, walk(t, es, p, n)),
{
    if n > 0 {
        lemma_step_outside(t, es, walk(t, es, p, (n - 1) as nat));
    }
}

/// The text from the cursor up to `e` moved to the register.
pub open spec fn taken_from_cursor(m: AreaView, after: AreaView, e: int) -> bool {
    let t = m.buf.text;
    let c = m.buf.cursor;
    &&& after.buf.text == t.subrange(0, c) + t.subrange(e, t.len() as int)
    &&& after.buf.cursor == c
    &&& if c < e {
        after.register == t.subrange(c, e) && after.register_kind == KillBufferKind::Characterwise
    } else {
        after.register == m.register && after.register_kind == m.register_kind
    }
}

/// What killing from the cursor on does.
pub proof fn lemma_taken(m: AreaView, e: int)
    requires
        buffer_ok(m.buf),
        m.buf.cursor <= e <= m.buf.text.len(),
        !inside(m.buf.elements, e),
    ensures
        taken_from_cursor(
            m,
            killed(m, m.buf.cursor, e, KillBufferKind::Characterwise),
            e,
        ),
        killed(m, m.buf.cursor, e, KillBufferKind::Characterwise).mode == m.mode,
        killed(m, m.buf.cursor, e, KillBufferKind::Characterwise).buf.text.len()
            == m.buf.text.len() - (e - m.buf.cursor),
{
    reveal(raw_edit);
    let t = m.buf.text;
    let c = m.buf.cursor;
    assert(spliced(t, c, e, Seq::empty()) =~= t.subrange(0, c) + t.subrange(e, t.len() as int));
    if c == e {
        assert(t.subrange(0, c) + t.subrange(e, t.len() as int) =~= t);
    }
}

/// `x` and `s` take as many characters from the cursor on as are counted, but none behind the end
/// of the line, into the register. `s` then enters Insert mode, `x` stays in its mode.
pub proof fn law_counted_characters_are_taken(m: AreaView, change: bool, count: Option<usize>)
    requires
        buffer_ok(m.buf),
        !inside(m.buf.elements, line_end(m.buf.text, m.buf.cursor)),
    ensures
        ({
            let t = m.buf.text;
            let c = m.buf.cursor;
            let e = nearer(walk(t, m.buf.elements, c, asked(count)), line_end(t, c));
            let action = if change {
                VimAction::Change(VimEditTarget::Character)
            } else {
                VimAction::Delete(VimEditTarget::Character)
            };
            let (after, done) = acted(m, action, count);
            &&& taken_from_cursor(m, after, e)
            &&& after.mode == if change {
                VimMode::Insert
            } else {
                m.mode
            }
            &&& done == (change || c < e)
        }),
{
    let t = m.buf.text;
    let es = m.buf.elements;
    let c = m.buf.cursor;
    let eol = line_end(t, c);
    let n = asked(count);
    lemma_line_end(t, c);
    lemma_line_units(t, es, c, n, eol);
    lemma_walk_outside(t, es, c, n);
    lemma_walk(t, es, c, n);
    let e = nearer(walk(t, es, c, n), eol);
    lemma_taken(steps_cleared(m), e);
    lemma_target(m, change, VimEditTarget::Character, count);
}

/// A delete or change carried out on its target.
pub proof fn lemma_target(m: AreaView, change: bool, target: VimEditTarget, count: Option<usize>)
    ensures
        ({
            let operator = if change {
                VimOperator::Change
            } else {
                VimOperator::Delete
            };
            let action = if change {
                VimAction::Change(target)
            } else {
                VimAction::Delete(target)
            };
            let (after, there) = target_applied(steps_cleared(m), operator, target, count);
            acted(m, action, count) == (
                after,
                there && if change {
                    after.mode == VimMode::Insert
                } else {
                    after.buf.text.len() != m.buf.text.len()
                },
            )
        }),
{
    let operator = if change {
        VimOperator::Change
    } else {
        VimOperator::Delete
    };
    let action = if change {
        VimAction::Change(target)
    } else {
        VimAction::Delete(target)
    };
    assert(acted(m, action, count) == target_acted(steps_cleared(m), operator, target, count)) by {
        reveal(acted);
    }
    reveal(target_acted);
}

/// `D` and `C` take the rest of the line from the cursor on into the register. `C` then enters
/// Insert mode, `D` stays in its mode.
pub proof fn law_rest_of_the_line_is_taken(m: AreaView, change: bool, count: Option<usize>)
    requires
        buffer_ok(m.buf),
        !inside(m.buf.elements, line_end(m.buf.text, m.buf.cursor)),
    ensures
        ({
            let action = if change {
                VimAction::Change(VimEditTarget::LineEnd)
            } else {
                VimAction::Delete(VimEditTarget::LineEnd)
            };
            let (after, done) = acted(m, action, count);
            let e = line_end(m.buf.text, m.buf.cursor);
            &&& taken_from_cursor(m, after, e)
            &&& after.mode == if change {
                VimMode::Insert
            } else {
                m.mode
            }
            &&& done == (change || m.buf.cursor < e)
        }),
{
    lemma_line_end(m.buf.text, m.buf.cursor);
    lemma_taken(steps_cleared(m), line_end(m.buf.text, m.buf.cursor));
    lemma_target(m, change, VimEditTarget::LineEnd, count);
}

} // verus!
