//! What editing and moving do outside Normal mode.

use crate::actions::acted;
use crate::block_laws::{lemma_line_start_free, lemma_one_newline, newlines};
use crate::buffer::{
    buffer_ok, inside, inside_at, lemma_edges, lemma_snap, next_atomic, prev_atomic, range_ok,
    Buffer,
};
use crate::dot_laws::{alike, lemma_acted_alike};
use crate::edit_laws::law_whitespace_is_skipped;
use crate::editing::{chars_between, chars_on, kept_column, moved_vertically};
use crate::jump_laws::{
    at_least_zero, fewer, law_line_steps_count_lines, lemma_line_number, lemma_newlines_split,
    line_number, starts_line,
};
use crate::lines::{
    lemma_line_end, lemma_line_end_free, lemma_skip_white, line_end, line_start, line_steps,
    skip_white, NEWLINE,
};
use crate::operators::motion_applied;
use crate::text::{
    after_char, is_pos, lemma_ascii, lemma_char, lemma_char_interior, lemma_zero_pos,
    plain_text, spliced, white_at,
};
use crate::textarea::{
    lemma_cursor_there, range_replaced, raw_edit, with_cursor, AreaView, KillBufferKind,
};
use crate::typing::inserted;
use crate::vim::{VimMode, VimMotion};
use crate::vim_commands::{change_opened, edit_started, insert_left, steps_cleared, VimAction};
use crate::words::{word_end_from, word_start_before};
use vstd::prelude::*;
use vstd::utf8::*;

verus! {

/// `a..z` is gone from the text, and the cursor is where it was.
pub open spec fn taken_out(m: AreaView, after: AreaView, a: int, z: int) -> bool {
    let t = m.buf.text;
    &&& after.buf.text == t.subrange(0, a) + t.subrange(z, t.len() as int)
    &&& after.buf.cursor == a
    &&& after.mode == m.mode
}

/// `a..z` is gone from the text to the register, unless it is empty.
pub open spec fn taken_to_register(m: AreaView, after: AreaView, a: int, z: int) -> bool {
    &&& taken_out(m, after, a, z)
    &&& if a < z {
        after.register == m.buf.text.subrange(a, z) && after.register_kind
            == KillBufferKind::Characterwise
    } else {
        after.register == m.register && after.register_kind == m.register_kind
    }
}

/// No newline lies in `a..z`.
pub open spec fn on_one_line(t: Seq<u8>, a: int, z: int) -> bool {
    &&& 0 <= a <= z <= t.len()
    &&& forall|i: int| a <= i < z ==> #[trigger] t[i] != NEWLINE
}

proof fn lemma_taken_out(m: AreaView, a: int, z: int)
    requires
        buffer_ok(m.buf),
        range_ok(m.buf, a, z),
        a <= m.buf.cursor <= z,
    ensures
        taken_out(m, range_replaced(m, a, z, Seq::empty()), a, z),
        range_replaced(m, a, z, Seq::empty()).register == m.register,
        range_replaced(m, a, z, Seq::empty()).register_kind == m.register_kind,
{
    reveal(raw_edit);
    let t = m.buf.text;
    assert(spliced(t, a, z, Seq::empty()) =~= t.subrange(0, a) + t.subrange(z, t.len() as int));
    if a == z {
        assert(t.subrange(0, a) + t.subrange(z, t.len() as int) =~= t);
    }
}

/// Backspace takes the character before the cursor, Delete the one at it. The register stays.
pub proof fn law_one_character_is_deleted(m: AreaView, count: Option<usize>)
    requires
        buffer_ok(m.buf),
    ensures
        ({
            let c = m.buf.cursor;
            let p = prev_atomic(m.buf.text, m.buf.elements, c);
            let n = next_atomic(m.buf.text, m.buf.elements, c);
            let back = acted(m, VimAction::DeleteBackward, count).0;
            let forth = acted(m, VimAction::DeleteForward, count).0;
            &&& range_ok(m.buf, p, c) ==> taken_out(m, back, p, c) && back.register == m.register
            &&& range_ok(m.buf, c, n) ==> taken_out(m, forth, c, n) && forth.register == m.register
        }),
{
    reveal(acted);
    let c = m.buf.cursor;
    let p = prev_atomic(m.buf.text, m.buf.elements, c);
    let n = next_atomic(m.buf.text, m.buf.elements, c);
    let s = steps_cleared(m);
    if range_ok(m.buf, p, c) {
        lemma_taken_out(s, p, c);
    }
    if range_ok(m.buf, c, n) {
        lemma_taken_out(s, c, n);
    }
}

proof fn lemma_killed(m: AreaView, a: int, z: int)
    requires
        buffer_ok(m.buf),
        range_ok(m.buf, a, z),
        a <= m.buf.cursor <= z,
    ensures
        taken_to_register(
            m,
            crate::editing::killed(m, a, z, KillBufferKind::Characterwise),
            a,
            z,
        ),
{
    let t = m.buf.text;
    let y = crate::editing::yanked(m, a, z, KillBufferKind::Characterwise);
    if a < z {
        lemma_taken_out(y, a, z);
    } else {
        assert(t.subrange(0, a) + t.subrange(z, t.len() as int) =~= t);
    }
}

/// Deleting a word back takes what a step back over a word goes over, deleting one forward what is
/// up to the end of the word. It is kept in the register.
pub proof fn law_words_are_deleted(m: AreaView, count: Option<usize>)
    requires
        buffer_ok(m.buf),
    ensures
        ({
            let c = m.buf.cursor;
            let p = word_start_before(m.buf.text, m.buf.elements, c);
            let n = word_end_from(m.buf.text, m.buf.elements, c);
            let back = acted(m, VimAction::DeleteBackwardWord, count).0;
            let forth = acted(m, VimAction::DeleteForwardWord, count).0;
            &&& range_ok(m.buf, p, c) ==> taken_to_register(m, back, p, c)
            &&& range_ok(m.buf, c, n) ==> taken_to_register(m, forth, c, n)
        }),
{
    reveal(acted);
    let c = m.buf.cursor;
    let p = word_start_before(m.buf.text, m.buf.elements, c);
    let n = word_end_from(m.buf.text, m.buf.elements, c);
    let s = steps_cleared(m);
    if range_ok(m.buf, p, c) {
        lemma_killed(s, p, c);
    }
    if range_ok(m.buf, c, n) {
        lemma_killed(s, c, n);
    }
}

pub proof fn lemma_line_start_is(t: Seq<u8>, a: int, p: int)
    requires
        on_one_line(t, a, p),
        a == 0 || t[a - 1] == NEWLINE,
    ensures
        line_start(t, p) == a,
    decreases p - a,
{
    if p > a {
        assert(t[p - 1] != NEWLINE);
        lemma_line_start_is(t, a, p - 1);
    }
}

pub proof fn lemma_line_end_at(t: Seq<u8>, p: int, z: int)
    requires
        on_one_line(t, p, z),
        z == t.len() || t[z] == NEWLINE,
    ensures
        line_end(t, p) == z,
    decreases z - p,
{
    if p < z {
        assert(t[p] != NEWLINE);
        lemma_line_end_at(t, p + 1, z);
    }
}

/// The ends of the line `a..z` around `c`, and the places beside its newlines, are positions.
proof fn lemma_line_around(t: Seq<u8>, a: int, c: int, z: int)
    requires
        valid_utf8(t),
        on_one_line(t, a, z),
        a <= c <= z,
        a == 0 || t[a - 1] == NEWLINE,
        z == t.len() || t[z] == NEWLINE,
    ensures
        line_start(t, c) == a,
        line_end(t, c) == z,
        line_end(t, a) == z,
        is_pos(t, a),
        is_pos(t, z),
        a > 0 ==> is_pos(t, a - 1),
        z < t.len() ==> is_pos(t, z + 1),
{
    lemma_line_start_is(t, a, c);
    lemma_line_end_at(t, c, z);
    lemma_line_end_at(t, a, z);
    lemma_zero_pos(t);
    if a > 0 {
        lemma_ascii(t, a - 1);
    }
    if z < t.len() {
        lemma_ascii(t, z);
    }
}

/// Killing to the start of the line takes what is before the cursor on its line `a..z`, or where
/// there is nothing, the newline before.
pub proof fn law_line_starts_are_killed(m: AreaView, a: int, z: int, count: Option<usize>)
    requires
        buffer_ok(m.buf),
        m.buf.elements.len() == 0,
        on_one_line(m.buf.text, a, z),
        a <= m.buf.cursor <= z,
        a == 0 || m.buf.text[a - 1] == NEWLINE,
        z == m.buf.text.len() || m.buf.text[z] == NEWLINE,
    ensures
        ({
            let c = m.buf.cursor;
            let after = acted(m, VimAction::KillLineStart, count).0;
            &&& a < c ==> taken_to_register(m, after, a, c)
            &&& a == c && a > 0 ==> taken_to_register(m, after, c - 1, c)
            &&& a == c && a == 0 ==> after.buf == m.buf && after.register == m.register
        }),
{
    let c = m.buf.cursor;
    lemma_line_around(m.buf.text, a, c, z);
    let s = steps_cleared(m);
    if a < c {
        lemma_killed(s, a, c);
    } else if a > 0 {
        lemma_killed(s, a - 1, a);
    }
    reveal(acted);
}

/// Killing to the end of the line takes what is from the cursor on on its line `a..z`, or where
/// there is nothing, the newline behind.
pub proof fn law_line_ends_are_killed(m: AreaView, a: int, z: int, count: Option<usize>)
    requires
        buffer_ok(m.buf),
        m.buf.elements.len() == 0,
        on_one_line(m.buf.text, a, z),
        a <= m.buf.cursor <= z,
        a == 0 || m.buf.text[a - 1] == NEWLINE,
        z == m.buf.text.len() || m.buf.text[z] == NEWLINE,
    ensures
        ({
            let c = m.buf.cursor;
            let after = acted(m, VimAction::KillLineEnd, count).0;
            &&& c < z ==> taken_to_register(m, after, c, z)
            &&& c == z && z < m.buf.text.len() ==> taken_to_register(m, after, c, c + 1)
            &&& c == z && z == m.buf.text.len() ==> after.buf == m.buf && after.register
                == m.register
        }),
{
    let c = m.buf.cursor;
    lemma_line_around(m.buf.text, a, c, z);
    let s = steps_cleared(m);
    if c < z {
        lemma_killed(s, c, z);
    } else if z < m.buf.text.len() {
        lemma_killed(s, z, z + 1);
    }
    reveal(acted);
}

/// Killing the line takes the line `a..z` of the cursor with its newline.
pub proof fn law_lines_are_killed(m: AreaView, a: int, z: int, count: Option<usize>)
    requires
        buffer_ok(m.buf),
        m.buf.elements.len() == 0,
        on_one_line(m.buf.text, a, z),
        a <= m.buf.cursor <= z,
        a == 0 || m.buf.text[a - 1] == NEWLINE,
        z == m.buf.text.len() || m.buf.text[z] == NEWLINE,
    ensures
        ({
            let after = acted(m, VimAction::KillLine, count).0;
            &&& z < m.buf.text.len() ==> taken_to_register(m, after, a, z + 1)
            &&& z == m.buf.text.len() ==> taken_to_register(m, after, a, z)
        }),
{
    lemma_line_around(m.buf.text, a, m.buf.cursor, z);
    let s = steps_cleared(m);
    if z < m.buf.text.len() {
        lemma_killed(s, a, z + 1);
    } else {
        lemma_killed(s, a, z);
    }
    reveal(acted);
}

/// Moving a character or a word to the side puts the cursor there and keeps the text.
pub proof fn law_cursor_moves_to_the_side(m: AreaView, count: Option<usize>)
    ensures
        ({
            let t = m.buf.text;
            let es = m.buf.elements;
            let c = m.buf.cursor;
            forall|action: VimAction, p: int|
                #![trigger acted(m, action, count), is_pos(t, p)]
                {
                    ||| action is MoveLeft && p == prev_atomic(t, es, c)
                    ||| action is MoveRight && p == next_atomic(t, es, c)
                    ||| action is MoveWordLeft && p == word_start_before(t, es, c)
                    ||| action is MoveWordRight && p == word_end_from(t, es, c)
                } && is_pos(t, p) && !inside(es, p) ==> acted(m, action, count).0.buf == (Buffer {
                    cursor: p,
                    ..m.buf
                })
        }),
{
    reveal(acted);
    let t = m.buf.text;
    let es = m.buf.elements;
    assert forall|p: int| #[trigger] is_pos(t, p) && !inside(es, p) implies with_cursor(
        steps_cleared(m),
        p,
    ).buf == (Buffer { cursor: p, ..m.buf }) by {
        lemma_cursor_there(steps_cleared(m), p);
    }
}

/// The cursor goes to the start or the end of its line `a..z`. Where it is there already it stays,
/// or goes on to the start of the line before or the end of the line behind if that is asked for.
pub proof fn law_cursor_moves_along_the_line(m: AreaView, a: int, z: int, count: Option<usize>)
    requires
        buffer_ok(m.buf),
        m.buf.elements.len() == 0,
        on_one_line(m.buf.text, a, z),
        a <= m.buf.cursor <= z,
        a == 0 || m.buf.text[a - 1] == NEWLINE,
        z == m.buf.text.len() || m.buf.text[z] == NEWLINE,
    ensures
        ({
            let t = m.buf.text;
            let c = m.buf.cursor;
            let len = t.len() as int;
            let start = acted(m, VimAction::MoveLineStart { move_up_at_bol: false }, count).0;
            let up = acted(m, VimAction::MoveLineStart { move_up_at_bol: true }, count).0;
            let end = acted(m, VimAction::MoveLineEnd { move_down_at_eol: false }, count).0;
            let down = acted(m, VimAction::MoveLineEnd { move_down_at_eol: true }, count).0;
            &&& start.buf == (Buffer { cursor: a, ..m.buf })
            &&& end.buf == (Buffer { cursor: z, ..m.buf })
            &&& a < c || a == 0 ==> up.buf == start.buf
            &&& c < z || z == len ==> down.buf == end.buf
            &&& forall|b: int|
                c == a && a > 0 && #[trigger] on_one_line(t, b, a - 1) && (b == 0 || t[b - 1]
                    == NEWLINE) ==> up.buf == (Buffer { cursor: b, ..m.buf })
            &&& forall|y: int|
                c == z && z < len && #[trigger] on_one_line(t, z + 1, y) && (y == len || t[y]
                    == NEWLINE) ==> down.buf == (Buffer { cursor: y, ..m.buf })
        }),
{
    reveal(acted);
    let t = m.buf.text;
    let c = m.buf.cursor;
    let len = t.len() as int;
    let es = m.buf.elements;
    lemma_line_start_is(t, a, c);
    lemma_line_end_at(t, c, z);
    lemma_zero_pos(t);
    if a > 0 {
        lemma_ascii(t, a - 1);
    }
    if z < len {
        lemma_ascii(t, z);
    }
    assert forall|p: int| !inside(es, p) by {}
    let s = steps_cleared(m);
    lemma_cursor_there(s, a);
    lemma_cursor_there(s, z);
    assert forall|b: int|
        a > 0 && #[trigger] on_one_line(t, b, a - 1) && (b == 0 || t[b - 1]
            == NEWLINE) implies line_start(t, a - 1) == b && with_cursor(s, b).buf == (Buffer {
        cursor: b,
        ..m.buf
    }) by {
        lemma_line_start_is(t, b, a - 1);
        if b > 0 {
            lemma_ascii(t, b - 1);
        }
        lemma_cursor_there(s, b);
    }
    assert forall|y: int|
        z < len && #[trigger] on_one_line(t, z + 1, y) && (y == len || t[y]
            == NEWLINE) implies line_end(t, z + 1) == y && with_cursor(s, y).buf == (Buffer {
        cursor: y,
        ..m.buf
    }) by {
        lemma_line_end_at(t, z + 1, y);
        if y < len {
            lemma_ascii(t, y);
        }
        lemma_cursor_there(s, y);
    }
}

/// Typed text stands where the cursor was, and the cursor behind it; nothing else changes in the
/// text.
pub proof fn law_typed_text_is_inserted(m: AreaView, text: Seq<u8>)
    requires
        buffer_ok(m.buf),
        m.mode == VimMode::Insert || !m.enabled,
    ensures
        ({
            let t = m.buf.text;
            let c = m.buf.cursor;
            let after = inserted(m, text);
            &&& after.buf.text == t.subrange(0, c) + text + t.subrange(c, t.len() as int)
            &&& after.buf.cursor == c + text.len()
            &&& after.mode == m.mode
            &&& after.register == m.register
        }),
{
    reveal(raw_edit);
    let t = m.buf.text;
    let c = m.buf.cursor;
    assert(spliced(t, c, c, text) =~= t.subrange(0, c) + text + t.subrange(c, t.len() as int));
    if text.len() == 0 {
        assert(t.subrange(0, c) + text + t.subrange(c, t.len() as int) =~= t);
    }
}

/// Leaving Insert or Replace mode keeps the text and steps back one character, unless the cursor is
/// at the start of its line.
pub proof fn law_leaving_steps_back(m: AreaView)
    requires
        buffer_ok(m.buf),
    ensures
        ({
            let t = m.buf.text;
            let c = m.buf.cursor;
            let p = prev_atomic(t, m.buf.elements, c);
            let after = insert_left(m);
            &&& after.mode == VimMode::Normal
            &&& after.buf.text == t
            &&& after.buf.elements == m.buf.elements
            &&& c == 0 || t[c - 1] == NEWLINE ==> after.buf.cursor == c
            &&& c > 0 && t[c - 1] != NEWLINE && is_pos(t, p) && !inside(m.buf.elements, p)
                ==> after.buf.cursor == p
        }),
{
    let t = m.buf.text;
    let c = m.buf.cursor;
    let p = prev_atomic(t, m.buf.elements, c);
    lemma_line_start_free(t, c);
    if c > 0 && t[c - 1] != NEWLINE {
        lemma_line_start_free(t, c - 1);
    }
    if is_pos(t, p) && !inside(m.buf.elements, p) {
        let ended = steps_cleared(
            crate::vim_commands::pending_finished(crate::vim::change_committed(m)),
        );
        lemma_cursor_there(AreaView { mode: VimMode::Normal, ..ended }, p);
    }
}

/// The cursor is put where it is wanted, or, where an element is in the way, at the nearest place
/// outside.
pub proof fn law_cursor_goes_to_the_nearest_place(m: AreaView, p: int, q: int)
    requires
        buffer_ok(m.buf),
        is_pos(m.buf.text, p),
        !inside(m.buf.elements, q),
    ensures
        ({
            let d = with_cursor(m, p).buf.cursor;
            &&& !inside(m.buf.elements, d)
            &&& p - d <= q - p || p - d <= p - q
            &&& d - p <= q - p || d - p <= p - q
            &&& with_cursor(m, p).buf.text == m.buf.text
            &&& with_cursor(m, p).buf.elements == m.buf.elements
        }),
{
    let t = m.buf.text;
    let es = m.buf.elements;
    assert(crate::text::floor_pos(t, p) == p);
    if inside(es, p) {
        let i = choose|i: int| inside_at(es, i, p);
        assert(inside_at(es, i, p));
        lemma_snap(t, es, i, p);
        lemma_edges(t, es, i);
        assert(!inside_at(es, i, q));
    }
}

/// A started edit does to the text, the register and the mode what its action does by itself.
pub proof fn law_started_edits_do_their_action(
    m: AreaView,
    action: VimAction,
    count: Option<usize>,
)
    ensures
        alike(edit_started(m, action, count).0, acted(m, action, count).0),
        edit_started(m, action, count).1 == acted(m, action, count).1,
{
    reveal(edit_started);
    lemma_acted_alike(change_opened(m, action, count), m, action, count);
}

proof fn lemma_columns(t: Seq<u8>, p: int, n: nat, limit: int)
    requires
        valid_utf8(t),
        is_pos(t, p),
        is_pos(t, limit),
        p <= limit,
    ensures
        ({
            let d = chars_on(t, p, n, limit);
            &&& p <= d <= limit
            &&& is_pos(t, d)
            &&& chars_between(t, p, d) == fewer(n as int, chars_between(t, p, limit) as int)
        }),
    decreases n,
{
    if n > 0 && p < limit {
        lemma_char(t, p);
        let q = after_char(t, p);
        if q > limit {
            lemma_char_interior(t, p, limit);
        }
        lemma_columns(t, q, (n - 1) as nat, limit);
    } else if p < limit {
        assert(chars_between(t, p, p) == 0);
    }
}

/// In plain text a column is a number of bytes.
pub proof fn law_columns_of_plain_text(t: Seq<u8>, a: int, b: int)
    requires
        valid_utf8(t),
        plain_text(t),
        0 <= a <= b <= t.len(),
    ensures
        chars_between(t, a, b) == b - a,
    decreases b - a,
{
    if a < b {
        assert(t[a] < 0x80);
        lemma_ascii(t, a);
        law_columns_of_plain_text(t, a + 1, b);
    }
}

/// A vertical move goes up or down as many lines as are asked for, as far as there are lines. The
/// cursor keeps its column, or is at the end of a line that is too short, and the column is kept
/// for the next vertical move. On the first and on the last line nothing happens.
pub proof fn law_vertical_moves_keep_the_column(m: AreaView, n: nat, down: bool)
    requires
        buffer_ok(m.buf),
        m.buf.elements.len() == 0,
        kept_column(m) <= usize::MAX,
    ensures
        ({
            let t = m.buf.text;
            let k = line_number(t, m.buf.cursor);
            let i = if down {
                fewer(k + n, newlines(t) as int)
            } else {
                at_least_zero(k - n)
            };
            let after = moved_vertically(m, n, down);
            let d = after.buf.cursor;
            let p = line_start(t, d);
            &&& after.buf.text == t
            &&& line_number(t, d) == i
            &&& i == k ==> after == m
            &&& i != k ==> {
                &&& chars_between(t, p, d) == fewer(
                    kept_column(m) as int,
                    chars_between(t, p, line_end(t, p)) as int,
                )
                &&& after.column == Some(kept_column(m) as usize)
                &&& kept_column(after) == kept_column(m)
            }
        }),
{
    let t = m.buf.text;
    let c = m.buf.cursor;
    let bol = line_start(t, c);
    let k = line_number(t, c);
    lemma_line_number(t, c);
    law_line_steps_count_lines(t, bol, k, n, down);
    let p = line_steps(t, bol, n, down);
    let i = if down {
        fewer(k + n, newlines(t) as int)
    } else {
        at_least_zero(k - n)
    };
    lemma_newlines_split(t, c, t.len() as int);
    assert(t.subrange(0, t.len() as int) =~= t);
    if p != bol {
        lemma_zero_pos(t);
        if p > 0 {
            lemma_ascii(t, p - 1);
        }
        let z = line_end(t, p);
        lemma_line_end(t, p);
        lemma_line_end_free(t, p);
        lemma_columns(t, p, kept_column(m), z);
        let d = chars_on(t, p, kept_column(m), z);
        lemma_cursor_there(m, d);
        lemma_line_start_is(t, p, d);
        lemma_line_number(t, d);
        lemma_line_number(t, p);
        assert(i != k) by {
            if i == k {
                lemma_same_line(t, bol, p);
            }
        }
    } else {
        assert(i == k);
    }
}

/// A line has one start.
proof fn lemma_same_line(t: Seq<u8>, p: int, q: int)
    requires
        starts_line(t, p),
        starts_line(t, q),
        newlines(t.subrange(0, p)) == newlines(t.subrange(0, q)),
    ensures
        p == q,
{
    if p < q {
        lemma_newlines_split(t, q - 1, q);
        lemma_newlines_split(t, p, q - 1);
        assert(t.subrange(q - 1, q) =~= seq![NEWLINE]);
        lemma_one_newline();
    } else if q < p {
        lemma_newlines_split(t, p - 1, p);
        lemma_newlines_split(t, q, p - 1);
        assert(t.subrange(p - 1, p) =~= seq![NEWLINE]);
        lemma_one_newline();
    }
}

/// `0` goes to the start of the line `a..z` of the cursor, `^` to its first character that is not
/// whitespace, and `$` to its last one. On an empty line they stay. The text stays too.
pub proof fn law_motions_along_the_line(m: AreaView, a: int, z: int, n: nat)
    requires
        buffer_ok(m.buf),
        m.buf.elements.len() == 0,
        on_one_line(m.buf.text, a, z),
        a <= m.buf.cursor <= z,
        a == 0 || m.buf.text[a - 1] == NEWLINE,
        z == m.buf.text.len() || m.buf.text[z] == NEWLINE,
        n <= 1,
    ensures
        ({
            let t = m.buf.text;
            let start = motion_applied(m, VimMotion::LineStart, n);
            let first = motion_applied(m, VimMotion::FirstNonBlank, n);
            let end = motion_applied(m, VimMotion::LineEnd, n);
            let q = prev_atomic(t, m.buf.elements, z);
            &&& start.buf == (Buffer { cursor: a, ..m.buf })
            &&& first.buf == (Buffer { cursor: first.buf.cursor, ..m.buf })
            &&& a <= first.buf.cursor <= z
            &&& forall|p: int|
                a <= p < first.buf.cursor && #[trigger] is_pos(t, p) ==> white_at(t, p)
            &&& first.buf.cursor < z ==> !white_at(t, first.buf.cursor)
            &&& a == z ==> end.buf == (Buffer { cursor: a, ..m.buf })
            &&& a < z && a <= q && is_pos(t, q) ==> end.buf == (Buffer { cursor: q, ..m.buf })
        }),
{
    let t = m.buf.text;
    let c = m.buf.cursor;
    lemma_line_around(t, a, c, z);
    lemma_line_around(t, a, a, z);
    law_whitespace_is_skipped(t, a, z);
    lemma_skip_white(t, a, z);
    lemma_cursor_there(m, a);
    lemma_cursor_there(m, skip_white(t, a, z));
    let q = prev_atomic(t, m.buf.elements, z);
    if is_pos(t, q) {
        lemma_cursor_there(m, q);
    }
    assert(line_steps(t, a, 0, true) == a);
}

/// With a count, `$` goes to the end of the line that is one fewer lines down.
pub proof fn law_line_ends_are_counted(m: AreaView, n: nat)
    requires
        n > 0,
    ensures
        ({
            let t = m.buf.text;
            let p = line_steps(t, line_start(t, m.buf.cursor), (n - 1) as nat, true);
            let z = line_end(t, p);
            let q = prev_atomic(t, m.buf.elements, z);
            line_start(t, p) <= q && is_pos(t, q) && !inside(m.buf.elements, q) && line_start(t, p)
                < z ==> motion_applied(m, VimMotion::LineEnd, n).buf == (Buffer {
                cursor: q,
                ..m.buf
            })
        }),
{
    let t = m.buf.text;
    let p = line_steps(t, line_start(t, m.buf.cursor), (n - 1) as nat, true);
    let q = prev_atomic(t, m.buf.elements, line_end(t, p));
    if is_pos(t, q) && !inside(m.buf.elements, q) {
        lemma_cursor_there(m, q);
    }
}

} // verus!
