//! What commands on characters promise: replacing, pasting, typing over, and operators over
//! motions.

use crate::actions::{acted, characters_replaced};
use crate::buffer::{buffer_ok, covered, edited, inside, lemma_edited_ok};
use crate::edit_laws::{asked, lemma_line_units, lemma_step_outside, lemma_walk_outside, nearer};
use crate::line_edits::{can_paste, pasted};
use crate::lines::{lemma_line_end, lemma_line_end_free, line_end, NEWLINE};
use crate::motion_laws::{lemma_walk, walk};
use crate::operators::{
    hops, motion_applied, operated, operator_applied, operator_end, operator_range, reaches,
};
use crate::paste_burst::burst_retracted;
use crate::text::{
    char_width, is_pos, lemma_repeated_len, lemma_splice_pos, lemma_zero_pos, repeated, spliced,
    white_at,
};
use crate::textarea::{lemma_cursor_there, raw_edit, with_cursor, AreaView, KillBufferKind};
use crate::typing::{inserted, overtype, overtype_end, past_elements};
use crate::vim::{VimMode, VimMotion, VimOperator};
use crate::vim_commands::{steps_cleared, VimAction};
use vstd::prelude::*;
use vstd::utf8::*;

verus! {

/// `r` writes its character over as many characters as are counted, and the cursor is on the last
/// of them. It does nothing if fewer are left on the line.
pub proof fn law_characters_are_replaced(m: AreaView, ch: char, count: Option<usize>)
    requires
        buffer_ok(m.buf),
        !inside(m.buf.elements, line_end(m.buf.text, m.buf.cursor)),
    ensures
        ({
            let t = m.buf.text;
            let c = m.buf.cursor;
            let n = asked(count);
            let eol = line_end(t, c);
            let e = nearer(walk(t, m.buf.elements, c, n), eol);
            let (after, done) = acted(m, VimAction::Replace(ch), count);
            &&& done <==> walk(t, m.buf.elements, c, (n - 1) as nat) < eol
            &&& done ==> after.buf.text == t.subrange(0, c) + repeated(encode_scalar(ch as u32), n)
                + t.subrange(e, t.len() as int)
            &&& !done ==> after.buf == m.buf
            &&& done && m.buf.elements.len() == 0 && is_pos(t, e) ==> after.buf.cursor == c
                + char_width(ch) * if ch == '\n' {
                n as int
            } else {
                n - 1
            }
            &&& after.mode == m.mode
        }),
{
    let s = steps_cleared(m);
    let t = m.buf.text;
    let es = m.buf.elements;
    let c = m.buf.cursor;
    let n = asked(count);
    let eol = line_end(t, c);
    let e = nearer(walk(t, es, c, n), eol);
    let unit = encode_scalar(ch as u32);
    let text = repeated(unit, n);
    lemma_line_end(t, c);
    lemma_line_units(t, es, c, n, eol);
    lemma_walk(t, es, c, n);
    lemma_walk_outside(t, es, c, n);
    lemma_repeated_len(unit, n);
    lemma_unit(ch);
    assert(unit.len() * n >= 1) by (nonlinear_arith)
        requires
            unit.len() >= 1,
            n >= 1,
    ;
    assert(acted(m, VimAction::Replace(ch), count) == characters_replaced(s, ch, n)) by {
        reveal(acted);
    }
    reveal(characters_replaced);
    reveal(raw_edit);
    if walk(t, es, c, (n - 1) as nat) < eol {
        let u = spliced(t, c, e, text);
        if es.len() == 0 && is_pos(t, e) {
            lemma_repeated_units(unit, n);
            lemma_repeated_valid(ch, n);
            lemma_splice_pos(t, c, e, text);
            let w = unit.len() as int;
            let d = if ch == '\n' {
                c + text.len()
            } else {
                c + text.len() - w
            };
            assert(w * n - w == w * (n - 1)) by (nonlinear_arith);
            if ch != '\n' {
                assert(u[d] == text[text.len() - w]);
            }
            assert(is_pos(u, d));
            assert(!inside(es, d));
            let there = crate::textarea::range_replaced(s, c, e, text);
            assert(there.buf.text == u && there.buf.elements.len() == 0);
            assert(!inside(there.buf.elements, d));
            lemma_cursor_there(there, d);
        }
    }
}

/// A character has at least one byte, and its first one continues none.
proof fn lemma_unit(ch: char)
    ensures
        encode_scalar(ch as u32).len() >= 1,
        valid_utf8(encode_scalar(ch as u32)),
        !is_continuation_byte(encode_scalar(ch as u32)[0]),
{
    let s = seq![ch];
    encode_utf8_valid_utf8(s);
    encode_utf8_first_scalar(s);
    assert(s.drop_first() =~= Seq::<char>::empty());
    assert(encode_utf8(s.drop_first()) =~= Seq::<u8>::empty());
    assert(encode_utf8(s) =~= encode_scalar(ch as u32));
    lemma_zero_pos(encode_utf8(s));
}

proof fn lemma_repeated_units(unit: Seq<u8>, n: nat)
    requires
        n > 0,
        unit.len() > 0,
    ensures
        repeated(unit, n).len() >= unit.len(),
        repeated(unit, n)[repeated(unit, n).len() - unit.len()] == unit[0],
{
    assert(repeated(unit, n) == repeated(unit, (n - 1) as nat) + unit);
}

proof fn lemma_repeated_valid(ch: char, n: nat)
    ensures
        valid_utf8(repeated(encode_scalar(ch as u32), n)),
    decreases n,
{
    if n > 0 {
        lemma_unit(ch);
        lemma_repeated_valid(ch, (n - 1) as nat);
        valid_utf8_concat(
            repeated(encode_scalar(ch as u32), (n - 1) as nat),
            encode_scalar(ch as u32),
        );
    }
}

/// Repeating adds up: so many copies and so many more are that many together, and one copy is the
/// text itself.
pub proof fn law_copies_add_up(unit: Seq<u8>, a: nat, b: nat)
    ensures
        repeated(unit, a + b) == repeated(unit, a) + repeated(unit, b),
        repeated(unit, 1) == unit,
        repeated(unit, 0).len() == 0,
    decreases b,
{
    assert(repeated(unit, 0) =~= Seq::empty());
    assert(repeated(unit, 1) =~= unit) by {
        reveal_with_fuel(repeated, 2);
    }
    if b > 0 {
        law_copies_add_up(unit, a, (b - 1) as nat);
        assert(repeated(unit, a + b) == repeated(unit, (a + b - 1) as nat) + unit);
        assert(repeated(unit, b) == repeated(unit, (b - 1) as nat) + unit);
        assert((a + b - 1) as nat == a + (b - 1) as nat);
        assert(repeated(unit, a) + repeated(unit, (b - 1) as nat) + unit =~= repeated(unit, a) + (
        repeated(unit, (b - 1) as nat) + unit));
    } else {
        assert(repeated(unit, a) + Seq::<u8>::empty() =~= repeated(unit, a));
    }
}

/// A paste is refused exactly when the register is empty or the text would get past the cap. A
/// register of lines that ends without a newline is pasted with one.
pub proof fn law_pastes_are_refused_beyond_the_cap(m: AreaView, after: bool, count: nat)
    ensures
        ({
            let extra: int = if m.register_kind == KillBufferKind::Linewise && m.register.last()
                != NEWLINE {
                1
            } else {
                0
            };
            let refused = m.register.len() == 0 || m.buf.text.len() + (m.register.len() + extra)
                * count > 4 * 1_048_576;
            &&& can_paste(m, count) <==> !refused
            &&& refused ==> pasted(m, after, count) == m
        }),
{
    reveal(pasted);
}

/// Pasting a register of characters puts as many copies of it as are counted behind the character
/// at the cursor, or before it, and the cursor behind them.
pub proof fn law_characters_are_pasted(m: AreaView, after: bool, count: nat)
    requires
        buffer_ok(m.buf),
        m.mode == VimMode::Normal,
        m.register_kind == KillBufferKind::Characterwise,
        can_paste(m, count),
        count > 0,
        after ==> is_pos(m.buf.text, walk(m.buf.text, m.buf.elements, m.buf.cursor, 1)),
    ensures
        ({
            let t = m.buf.text;
            let at = if after {
                walk(t, m.buf.elements, m.buf.cursor, 1)
            } else {
                m.buf.cursor
            };
            let text = repeated(m.register, count);
            let then = pasted(m, after, count);
            &&& then.buf.text == t.subrange(0, at) + text + t.subrange(at, t.len() as int)
            &&& then.buf.cursor == at + text.len()
            &&& then.mode == VimMode::Normal
        }),
{
    let t = m.buf.text;
    let es = m.buf.elements;
    let c = m.buf.cursor;
    reveal_with_fuel(walk, 2);
    let at = if after {
        walk(t, es, c, 1)
    } else {
        c
    };
    lemma_step_outside(t, es, c);
    assert(!inside(es, at));
    lemma_cursor_there(m, at);
    let there = with_cursor(m, at);
    let text = repeated(m.register, count);
    lemma_repeated_len(m.register, count);
    assert(m.register.len() * count >= 1) by (nonlinear_arith)
        requires
            m.register.len() >= 1,
            count >= 1,
    ;
    assert(pasted(m, after, count) == inserted(there, text)) by {
        reveal(pasted);
    }
    reveal(raw_edit);
}

/// In Replace mode a typed grapheme is written over the one at the cursor, and the cursor goes
/// behind it. A newline, and anything at the end of a line, is written between.
pub proof fn law_typing_over_replaces_one(m: AreaView, typed: Seq<u8>)
    requires
        buffer_ok(m.buf),
        typed.len() > 0,
        !covered(m.buf.elements, m.buf.cursor),
    ensures
        ({
            let t = m.buf.text;
            let c = m.buf.cursor;
            let e = if c == t.len() || t[c] == NEWLINE || typed == seq![NEWLINE] {
                c
            } else {
                walk(t, m.buf.elements, c, 1)
            };
            let after = overtype(m, typed);
            &&& after.buf.text == t.subrange(0, c) + typed + t.subrange(e, t.len() as int)
            &&& after.buf.cursor == c + typed.len()
            &&& after.mode == m.mode
        }),
{
    let t = m.buf.text;
    let es = m.buf.elements;
    let c = m.buf.cursor;
    reveal(raw_edit);
    reveal_with_fuel(walk, 2);
    lemma_step_outside(t, es, c);
    lemma_walk(t, es, c, 0);
    lemma_walk(t, es, c, 1);
    lemma_line_end_free(t, c);
    assert(c >= line_end(t, c) <==> c == t.len() || t[c] == NEWLINE);
    let e = overtype_end(t, es, c, typed);
    assert(past_elements(es, c, t.len() as int) == c);
    assert(!inside(es, e) && c <= e <= t.len());
    assert(overtype(m, typed).buf == edited(m.buf, c, e, typed));
}

/// Outside Replace mode what was typed from `start` up to the cursor is taken out of the text
/// again.
pub proof fn law_bursts_are_taken_out(m: AreaView, start: int)
    requires
        buffer_ok(m.buf),
        m.mode != VimMode::Replace || !m.enabled,
        0 <= start <= m.buf.cursor,
        !inside(m.buf.elements, start),
    ensures
        ({
            let t = m.buf.text;
            let (after, done) = burst_retracted(m, start);
            &&& done
            &&& after.buf.text == t.subrange(0, start) + t.subrange(m.buf.cursor, t.len() as int)
            &&& after.buf.cursor == start
        }),
{
    reveal(raw_edit);
    let t = m.buf.text;
    assert(spliced(t, start, m.buf.cursor, Seq::empty()) =~= t.subrange(0, start) + t.subrange(
        m.buf.cursor,
        t.len() as int,
    ));
    if start == m.buf.cursor {
        assert(t.subrange(0, start) + t.subrange(m.buf.cursor, t.len() as int) =~= t);
    }
}

/// The motion goes from place to place, and an operator over it works up to where it goes.
pub open spec fn is_exclusive(motion: VimMotion) -> bool {
    match motion {
        VimMotion::WordForward
        | VimMotion::WordBackward
        | VimMotion::BigWordForward
        | VimMotion::BigWordBackward
        | VimMotion::Left => true,
        _ => false,
    }
}

proof fn lemma_reaches_are_hops(
    t: Seq<u8>,
    es: Seq<crate::buffer::ElementView>,
    motion: VimMotion,
    p: int,
    n: nat,
)
    requires
        is_exclusive(motion),
    ensures
        reaches(t, es, motion, p, n) == hops(t, es, motion, p, n),
    decreases n,
{
    if n > 0 {
        lemma_reaches_are_hops(
            t,
            es,
            motion,
            crate::operators::hop(t, es, motion, p),
            (n - 1) as nat,
        );
    }
}

/// A delete or yank over `h`, `w`, `b`, `W` or `B` takes what lies between the cursor and where the
/// motion with the same count goes, and the cursor ends at the start of it. So does a change over
/// those that go back, which then enters Insert mode.
pub proof fn law_operators_reach_where_motions_go(
    m: AreaView,
    operator: VimOperator,
    motion: VimMotion,
    n: nat,
)
    requires
        buffer_ok(m.buf),
        is_exclusive(motion),
        operator == VimOperator::Change ==> !(motion is WordForward) && !(
        motion is BigWordForward),
        ({
            let d = hops(m.buf.text, m.buf.elements, motion, m.buf.cursor, n);
            is_pos(m.buf.text, d) && !inside(m.buf.elements, d)
        }),
    ensures
        ({
            let t = m.buf.text;
            let c = m.buf.cursor;
            let d = motion_applied(m, motion, n).buf.cursor;
            let a = nearer(c, d);
            let z = if c < d {
                d
            } else {
                c
            };
            let after = operator_applied(m, operator, motion, n);
            &&& d == hops(t, m.buf.elements, motion, c, n)
            &&& after.buf.text == if operator == VimOperator::Yank {
                t
            } else {
                t.subrange(0, a) + t.subrange(z, t.len() as int)
            }
            &&& a < z ==> after.register == t.subrange(a, z) && after.register_kind
                == KillBufferKind::Characterwise
            &&& after.buf.cursor == a
            &&& after.mode == if operator == VimOperator::Change {
                VimMode::Insert
            } else {
                m.mode
            }
        }),
{
    let t = m.buf.text;
    let es = m.buf.elements;
    let c = m.buf.cursor;
    let d = hops(t, es, motion, c, n);
    lemma_reaches_are_hops(t, es, motion, c, n);
    lemma_cursor_there(m, d);
    let a = nearer(c, d);
    let z = if c < d {
        d
    } else {
        c
    };
    assert(operator_range(t, es, c, operator, motion, n) == (a, z, false));
    lemma_operated_between(m, operator, a, z);
    reveal(operator_applied);
}

/// What an operator on a range of characters does.
pub proof fn lemma_operated_between(m: AreaView, operator: VimOperator, a: int, z: int)
    requires
        buffer_ok(m.buf),
        is_pos(m.buf.text, a),
        is_pos(m.buf.text, z),
        !inside(m.buf.elements, a),
        !inside(m.buf.elements, z),
        a <= z,
    ensures
        ({
            let t = m.buf.text;
            let after = operated(m, operator, a, z);
            &&& after.buf.text == if operator == VimOperator::Yank {
                t
            } else {
                t.subrange(0, a) + t.subrange(z, t.len() as int)
            }
            &&& a < z ==> after.register == t.subrange(a, z) && after.register_kind
                == KillBufferKind::Characterwise
            &&& if operator == VimOperator::Yank {
                after.buf == m.buf && with_cursor(after, a).buf.cursor == a && with_cursor(
                    after,
                    a,
                ).buf.text == t
            } else {
                after.buf.cursor == a
            }
            &&& after.mode == if operator == VimOperator::Change {
                VimMode::Insert
            } else {
                m.mode
            }
        }),
{
    reveal(raw_edit);
    let t = m.buf.text;
    let none = Seq::<u8>::empty();
    assert(spliced(t, a, z, none) =~= t.subrange(0, a) + t.subrange(z, t.len() as int));
    if a == z {
        assert(t.subrange(0, a) + t.subrange(z, t.len() as int) =~= t);
    }
    crate::line_edits::lemma_literals();
    encode_utf8_valid_utf8(""@);
    lemma_edited_ok(m.buf, a, z, none);
    lemma_cursor_there(m, a);
    let cut = AreaView { buf: edited(m.buf, a, z, none), ..m };
    lemma_cursor_there(cut, a);
    lemma_cursor_there(operated(m, VimOperator::Yank, a, z), a);
}

/// Changing words from a word on takes what changing up to the end of the words takes: the
/// whitespace behind the last one stays.
pub proof fn law_change_word_stops_at_its_end(
    t: Seq<u8>,
    es: Seq<crate::buffer::ElementView>,
    c: int,
    n: nat,
)
    requires
        n > 0,
        !covered(es, c),
        !white_at(t, c),
    ensures
        operator_end(t, es, VimOperator::Change, VimMotion::WordForward, c, n) == operator_end(
            t,
            es,
            VimOperator::Change,
            VimMotion::WordEnd,
            c,
            n,
        ),
        operator_end(t, es, VimOperator::Change, VimMotion::BigWordForward, c, n) == operator_end(
            t,
            es,
            VimOperator::Change,
            VimMotion::BigWordEnd,
            c,
            n,
        ),
{
}

/// Stepping by a motion adds up.
pub proof fn law_hops_add_up(
    t: Seq<u8>,
    es: Seq<crate::buffer::ElementView>,
    motion: VimMotion,
    p: int,
    a: nat,
    b: nat,
)
    ensures
        hops(t, es, motion, p, a + b) == hops(t, es, motion, hops(t, es, motion, p, a), b),
        reaches(t, es, motion, p, a + b) == reaches(t, es, motion, reaches(t, es, motion, p, a), b),
    decreases a,
{
    if a > 0 {
        law_hops_add_up(
            t,
            es,
            motion,
            crate::operators::hop(t, es, motion, p),
            (a - 1) as nat,
            b,
        );
        law_hops_add_up(
            t,
            es,
            motion,
            crate::operators::reach(t, es, motion, p),
            (a - 1) as nat,
            b,
        );
        assert((a + b - 1) as nat == (a - 1) as nat + b);
    }
}

} // verus!
