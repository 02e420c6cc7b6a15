//! What joining, shifting, undoing and filling a text area do.

use crate::buffer::{
    buffer_ok, edited, edited_elements, inside, inside_at, lemma_edited_source, range_ok,
    Buffer, ElementView,
};
use crate::edit_laws::law_whitespace_is_skipped;
use crate::jump_laws::fewer;
use crate::line_edits::{
    all_shifted, dedent_width, indent_text, joined_once, joined_times, line_starts,
    lines_joined, lines_shifted, shifted, shifts, SPACE,
};
use crate::lines::{
    last_on_line, lemma_line_end_free, less_one, line_end, line_start, skip_white, NEWLINE,
};
use crate::text::{before_char, is_pos, lemma_ascii, spliced, white_at};
use crate::textarea::{
    element_index, element_inserted, lemma_cursor_there, raw_edit, text_set, AreaView,
};
use crate::typing::unmarked;
use crate::typing_laws::{lemma_line_end_at, lemma_line_start_is, on_one_line};
use crate::vim::{change_committed, undone, VimIndentDirection, VimMode, VIM_UNDO_LIMIT};
use crate::word_laws::all_white;
use vstd::prelude::*;
use vstd::utf8::*;

verus! {

/// Where two lines meet at the newline at `e`, and the second one begins at `n` behind its
/// indentation, joining them leaves neither the newline nor the indentation. A space comes in
/// between unless a line is empty or blank there, whitespace is there already, or the second one
/// opens with a closing parenthesis.
pub proof fn law_joined_lines_are_spaced(m: AreaView, a: int, e: int, n: int)
    requires
        buffer_ok(m.buf),
        m.buf.elements.len() == 0,
        a <= m.buf.cursor <= e,
        a == 0 || m.buf.text[a - 1] == NEWLINE,
        on_one_line(m.buf.text, a, e),
        e < m.buf.text.len(),
        m.buf.text[e] == NEWLINE,
        on_one_line(m.buf.text, e + 1, n),
        is_pos(m.buf.text, n),
        all_white(m.buf.text, e + 1, n, true),
        n == m.buf.text.len() || m.buf.text[n] == NEWLINE || !white_at(m.buf.text, n),
    ensures
        ({
            let t = m.buf.text;
            let len = t.len() as int;
            let spaced = a < e && !white_at(t, before_char(t, e)) && n < len && t[n] != NEWLINE
                && t[n] != ')' as u8;
            let after = joined_once(m);
            &&& after.buf.text == t.subrange(0, e) + (if spaced {
                seq![' ' as u8]
            } else {
                Seq::empty()
            }) + t.subrange(n, len)
            &&& m.buf.cursor < e ==> after.buf.cursor == m.buf.cursor
            &&& lines_joined(m, 2).1
            &&& lines_joined(m, 2).0.buf.text == after.buf.text
        }),
{
    let t = m.buf.text;
    let c = m.buf.cursor;
    let len = t.len() as int;
    lemma_line_start_is(t, a, c);
    lemma_line_end_at(t, c, e);
    lemma_ascii(t, e);
    lemma_line_end_free(t, e + 1);
    let z = line_end(t, e + 1);
    crate::lines::lemma_line_end(t, e + 1);
    assert(n <= z) by {
        if z < n {
            assert(t[z] == NEWLINE);
        }
    }
    law_whitespace_is_skipped(t, e + 1, z);
    crate::lines::lemma_skip_white(t, e + 1, z);
    let s = skip_white(t, e + 1, z);
    assert(s == n) by {
        if s < n {
            assert(is_pos(t, s));
        }
        if n < s {
            assert(is_pos(t, n));
            assert(t[n] != NEWLINE);
        }
    }
    let ins = if crate::line_edits::join_needs_space(t, c) {
        seq![SPACE]
    } else {
        Seq::<u8>::empty()
    };
    assert(' ' as u8 == SPACE);
    assert(n == z <==> n == len || t[n] == NEWLINE);
    reveal(raw_edit);
    assert(!inside(m.buf.elements, e) && !inside(m.buf.elements, n));
    assert(spliced(t, e, n, ins) =~= t.subrange(0, e) + ins + t.subrange(n, len));
    reveal(lines_joined);
    reveal_with_fuel(joined_times, 2);
}

/// Joining adds up: more lines are joined one after the other, and the cursor ends on the last
/// join.
pub proof fn law_joins_add_up(m: AreaView, at: Option<int>, a: nat, b: nat)
    ensures
        ({
            let (mid, there) = joined_times(m, at, a);
            joined_times(m, at, a + b) == joined_times(mid, there, b)
        }),
    decreases a,
{
    let eol = line_end(m.buf.text, m.buf.cursor);
    if a > 0 && eol < m.buf.text.len() {
        law_joins_add_up(joined_once(m), Some(eol), (a - 1) as nat, b);
    }
}

/// Joining `n` lines, two at least, is joining once and then joining what is left, with the cursor
/// on the last place at which lines were joined, or on the last character of the line.
pub proof fn law_joins_end_on_the_last_join(m: AreaView, n: nat)
    ensures
        ({
            let (after, joined) = lines_joined(m, n);
            let (texts, at) = joined_times(m, None, less_one(n));
            let last = last_on_line(texts.buf.text, texts.buf.elements, texts.buf.cursor);
            &&& joined <==> n >= 2 && line_end(m.buf.text, m.buf.cursor) < m.buf.text.len()
            &&& after.buf.text == texts.buf.text
            &&& joined && is_pos(texts.buf.text, fewer(at->0, last)) && !inside(
                texts.buf.elements,
                fewer(at->0, last),
            ) ==> after.buf.cursor == fewer(at->0, last)
        }),
{
    reveal(lines_joined);
    let (texts, at) = joined_times(m, None, less_one(n));
    if n >= 2 {
        lemma_joined_somewhere(m, None, (n - 1) as nat);
    }
    if at is Some {
        let last = last_on_line(texts.buf.text, texts.buf.elements, texts.buf.cursor);
        let p = fewer(at->0, last);
        if is_pos(texts.buf.text, p) && !inside(texts.buf.elements, p) {
            lemma_cursor_there(texts, p);
        }
    }
}

proof fn lemma_joined_somewhere(m: AreaView, at: Option<int>, n: nat)
    requires
        n > 0,
    ensures
        line_end(m.buf.text, m.buf.cursor) < m.buf.text.len() ==> joined_times(m, at, n).1 is Some,
        line_end(m.buf.text, m.buf.cursor) >= m.buf.text.len() ==> joined_times(m, at, n) == (
            m,
            at,
        ),
        at is Some ==> joined_times(m, at, n).1 is Some,
    decreases n,
{
    if n > 1 {
        lemma_joined_somewhere(
            joined_once(m),
            Some(line_end(m.buf.text, m.buf.cursor)),
            (n - 1) as nat,
        );
    } else {
        reveal_with_fuel(joined_times, 2);
    }
}

proof fn lemma_all_shifted(
    m: AreaView,
    direction: VimIndentDirection,
    starts: Seq<int>,
    changed: bool,
)
    requires
        m.buf.elements.len() == 0,
    ensures
        ({
            let (after, r) = all_shifted(m, direction, starts, changed);
            let grown = after.buf.text.len() - m.buf.text.len();
            &&& direction is Increase ==> grown >= 0
            &&& direction is Decrease ==> grown <= 0
            &&& r == (changed || grown != 0)
            &&& !r ==> after.buf.text == m.buf.text
            &&& after.buf.elements.len() == 0
        }),
    decreases starts.len(),
{
    reveal(raw_edit);
    let t = m.buf.text;
    if starts.len() > 0 {
        let p = starts.last();
        if shifts(t, direction, p) {
            lemma_line_end_free(t, p);
            let z = p + dedent_width(t, p);
            assert(!inside(m.buf.elements, p) && !inside(m.buf.elements, z));
            assert(spliced(t, p, p, indent_text()).len() == t.len() + 2);
            if direction is Decrease {
                assert(spliced(t, p, z, Seq::empty()).len() == t.len() - (z - p));
            }
        }
        lemma_all_shifted(
            shifted(m, direction, p),
            direction,
            starts.drop_last(),
            changed || shifts(t, direction, p),
        );
    }
}

/// Shifting lines says whether it changed the text: indenting made it longer then, dedenting
/// shorter.
pub proof fn law_shifts_tell_whether_they_changed(
    m: AreaView,
    direction: VimIndentDirection,
    count: nat,
)
    requires
        m.buf.elements.len() == 0,
    ensures
        ({
            let (after, changed) = lines_shifted(m, direction, count);
            &&& changed <==> after.buf.text != m.buf.text
            &&& changed && direction is Increase ==> after.buf.text.len() > m.buf.text.len()
            &&& changed && direction is Decrease ==> after.buf.text.len() < m.buf.text.len()
        }),
{
    reveal(lines_shifted);
    let first = line_start(m.buf.text, m.buf.cursor);
    lemma_all_shifted(m, direction, line_starts(m.buf.text, first, count), false);
}

/// One change of the text, ended.
pub open spec fn changed_once(m: AreaView, a: int, z: int, ins: Seq<u8>) -> AreaView {
    change_committed(raw_edit(m, a, z, ins))
}

/// Changes are undone in reverse: one undo takes back the last change, text, elements and cursor, a
/// second one the change before.
pub proof fn law_undo_goes_back_in_order(
    m: AreaView,
    a: int,
    z: int,
    ins: Seq<u8>,
    b: int,
    y: int,
    more: Seq<u8>,
)
    requires
        m.enabled,
        m.undo.active is None,
        m.undo.history.len() <= VIM_UNDO_LIMIT,
        changed_once(m, a, z, ins).buf.text != m.buf.text,
        changed_once(changed_once(m, a, z, ins), b, y, more).buf.text != changed_once(
            m,
            a,
            z,
            ins,
        ).buf.text,
    ensures
        ({
            let first = changed_once(m, a, z, ins);
            let second = changed_once(first, b, y, more);
            &&& undone(first).buf == m.buf
            &&& undone(second).buf == first.buf
            &&& undone(undone(second)).buf == m.buf
            &&& undone(second).mode == VimMode::Normal
            &&& undone(second).pending is Idle
        }),
{
    reveal(raw_edit);
}

/// Undoing without a history changes nothing.
pub proof fn law_nothing_to_undo(m: AreaView)
    requires
        m.undo.history.len() == 0,
    ensures
        undone(m) == m,
{
}

/// A new text is the whole text, without elements, without anything to undo or to repeat by keys,
/// and the cursor stays where it is if that is a place in it.
pub proof fn law_new_text_starts_afresh(m: AreaView, text: Seq<u8>)
    ensures
        ({
            let after = text_set(m, text);
            &&& after.buf.text == text
            &&& after.buf.elements.len() == 0
            &&& undone(after) == after
            &&& after.pending is Idle
            &&& after.keys.count is None
            &&& after.keys.last_change.len() == 0
            &&& after.register == m.register
            &&& after.mode == m.mode
            &&& is_pos(text, m.buf.cursor) ==> after.buf.cursor == m.buf.cursor
            &&& m.buf.cursor > text.len() && is_pos(text, text.len() as int) ==> after.buf.cursor
                == text.len()
        }),
{
    let es = Seq::<ElementView>::empty();
    assert(forall|p: int| !inside(es, p));
    assert(crate::text::floor_pos(text, text.len() as int) == text.len());
}

proof fn lemma_element_index(es: Seq<ElementView>, p: int, i: int)
    requires
        0 <= i <= es.len(),
    ensures
        i <= element_index(es, p, i) <= es.len(),
        forall|k: int| i <= k < element_index(es, p, i) ==> (#[trigger] es[k]).start < p,
    decreases es.len() - i,
{
    if i < es.len() && es[i].start < p {
        lemma_element_index(es, p, i + 1);
    }
}

/// An element comes in at the cursor: its text stands there, the element covers it and has the next
/// number, and the cursor is behind it.
pub proof fn law_elements_come_in_at_the_cursor(m: AreaView, text: Seq<u8>)
    requires
        buffer_ok(m.buf),
        text.len() > 0,
    ensures
        ({
            let t = m.buf.text;
            let c = m.buf.cursor;
            let after = element_inserted(m, text);
            let e = ElementView { id: m.next_id, start: c, end: c + text.len() };
            &&& after.buf.text == t.subrange(0, c) + text + t.subrange(c, t.len() as int)
            &&& after.buf.elements.contains(e)
            &&& after.buf.cursor == c + text.len()
            &&& m.next_id < u64::MAX ==> after.next_id == m.next_id + 1
        }),
{
    reveal(raw_edit);
    let t = m.buf.text;
    let c = m.buf.cursor;
    assert(spliced(t, c, c, text) =~= t.subrange(0, c) + text + t.subrange(c, t.len() as int));
    let es = crate::textarea::inserted_at(m, c, text).buf.elements;
    let e = ElementView { id: m.next_id, start: c, end: c + text.len() };
    lemma_element_index(es, c, 0);
    let i = element_index(es, c, 0);
    assert(es.insert(i, e)[i] == e);
}

/// An element with the number of `e` covers the same text in `u` as `e` in `t`.
pub open spec fn same_marked(t: Seq<u8>, e: ElementView, u: Seq<u8>, o: ElementView) -> bool {
    o.id == e.id && u.subrange(o.start, o.end) == t.subrange(e.start, e.end)
}

/// An edit that cuts no element leaves every element in front of it and behind it on its text.
pub proof fn law_elements_stay_on_their_text(b: Buffer, a: int, z: int, ins: Seq<u8>, i: int)
    requires
        buffer_ok(b),
        range_ok(b, a, z),
        0 <= i < b.elements.len(),
        b.elements[i].end <= a || z <= b.elements[i].start,
    ensures
        exists|k: int|
            0 <= k < edited(b, a, z, ins).elements.len() && same_marked(
                b.text,
                b.elements[i],
                edited(b, a, z, ins).text,
                #[trigger] edited(b, a, z, ins).elements[k],
            ),
{
    let t = b.text;
    let n = ins.len() as int;
    let u = spliced(t, a, z, ins);
    let e = b.elements[i];
    lemma_kept(b.elements, a, z, n, i);
    let k = choose|k: int|
        0 <= k < edited_elements(b.elements, a, z, n).len() && #[trigger] edited_elements(
            b.elements,
            a,
            z,
            n,
        )[k] == moved_element(e, a, z, n);
    let o = edited_elements(b.elements, a, z, n)[k];
    assert(u.subrange(o.start, o.end) =~= t.subrange(e.start, e.end));
    assert(edited(b, a, z, ins).elements[k] == o);
}

/// Where an edit takes an element.
spec fn moved_element(e: ElementView, a: int, z: int, n: int) -> ElementView {
    if e.start >= z {
        ElementView { id: e.id, start: e.start - (z - a) + n, end: e.end - (z - a) + n }
    } else {
        e
    }
}

proof fn lemma_kept(es: Seq<ElementView>, a: int, z: int, n: int, i: int)
    requires
        0 <= i < es.len(),
        es[i].start < es[i].end,
        a <= z,
        es[i].end <= a || z <= es[i].start,
    ensures
        exists|k: int|
            0 <= k < edited_elements(es, a, z, n).len() && #[trigger] edited_elements(
                es,
                a,
                z,
                n,
            )[k] == moved_element(es[i], a, z, n),
    decreases es.len(),
{
    let init = es.drop_last();
    let all = edited_elements(es, a, z, n);
    let rest = edited_elements(init, a, z, n);
    if i < init.len() {
        lemma_kept(init, a, z, n, i);
        let k = choose|k: int|
            0 <= k < rest.len() && #[trigger] rest[k] == moved_element(init[i], a, z, n);
        assert(all[k] == rest[k]);
    } else {
        assert(all[all.len() - 1] == moved_element(es[i], a, z, n));
    }
}

/// An edit that cuts no element makes none up and takes out those that lie in its range: each one
/// left was there before, outside the range, and is on its text.
pub proof fn law_edits_take_out_elements(b: Buffer, a: int, z: int, ins: Seq<u8>, k: int)
    requires
        buffer_ok(b),
        range_ok(b, a, z),
        0 <= k < edited(b, a, z, ins).elements.len(),
    ensures
        exists|i: int|
            0 <= i < b.elements.len() && (b.elements[i].end <= a || z <= b.elements[i].start)
                && same_marked(
                b.text,
                #[trigger] b.elements[i],
                edited(b, a, z, ins).text,
                edited(b, a, z, ins).elements[k],
            ),
{
    let t = b.text;
    let es = b.elements;
    let n = ins.len() as int;
    let u = spliced(t, a, z, ins);
    let o = edited_elements(es, a, z, n)[k];
    lemma_edited_source(es, a, z, n, k);
    let i = choose|i: int|
        0 <= i < es.len() && {
            let e = #[trigger] es[i];
            &&& o.id == e.id
            &&& !(a <= e.start && e.end <= z)
            &&& if e.start >= z {
                o.start == e.start - (z - a) + n && o.end == e.end - (z - a) + n
            } else {
                o == e
            }
        };
    let e = es[i];
    assert(!inside_at(es, i, a) && !inside_at(es, i, z));
    assert(e.end <= a || z <= e.start);
    assert(u.subrange(o.start, o.end) =~= t.subrange(e.start, e.end));
}

/// Unmarking a range keeps the elements that lie outside it, and no others.
pub proof fn law_unmarking_keeps_the_others(es: Seq<ElementView>, a: int, z: int, e: ElementView)
    ensures
        unmarked(es, a, z).contains(e) <==> es.contains(e) && (e.end <= a || z <= e.start),
    decreases es.len(),
{
    if es.len() > 0 {
        let init = es.drop_last();
        law_unmarking_keeps_the_others(init, a, z, e);
        assert(es =~= init.push(es.last()));
        let rest = unmarked(init, a, z);
        if es.contains(e) {
            let i = es.index_of(e);
            if i < init.len() {
                assert(init[i] == e);
            }
        }
        if init.contains(e) {
            let i = init.index_of(e);
            assert(es[i] == e);
        }
        if rest.contains(e) {
            let i = rest.index_of(e);
            assert(rest.push(es.last())[i] == e);
        }
        assert(es[es.len() - 1] == es.last());
        assert(rest.push(es.last())[rest.len() as int] == es.last());
        if rest.push(es.last()).contains(e) {
            let i = rest.push(es.last()).index_of(e);
            if i < rest.len() {
                assert(rest[i] == e);
            }
        }
    }
}

} // verus!
