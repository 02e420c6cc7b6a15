//! What commands on counted lines, and jumps to lines, promise.

use crate::actions::{acted, before_newline};
use crate::block_laws::{
    lemma_line_start_free, lemma_lines_concat, lemma_lines_count, lemma_newlines_behind,
    lemma_newlines_concat, lemma_no_newlines, lemma_one_newline, lines_of, newlines,
};
use crate::buffer::{buffer_ok, inside, ElementView};
use crate::edit_laws::{asked, law_whitespace_is_skipped, lemma_target};
use crate::editing::{killed, yanked};
use crate::finds::{jump_range, jump_target, jumped};
use crate::input::lines_yanked;
use crate::lines::{
    counted_lines_end, lemma_line_end, lemma_line_end_free, lemma_line_end_is, lemma_skip_white,
    line_end, line_end_with_newline, line_start, line_step, line_steps, skip_white, NEWLINE,
};
use crate::operators::{lines_changed, operator_applied, operator_range, other_line};
use crate::text::{is_pos, lemma_ascii, lemma_zero_pos, white_at};
use crate::textarea::{lemma_cursor_there, raw_edit, AreaView, KillBufferKind};
use crate::vim::{VimMode, VimMotion, VimOperator};
use crate::vim_commands::{steps_cleared, VimAction, VimEditTarget};
use vstd::prelude::*;
use vstd::utf8::*;

verus! {

/// A line starts at `p`.
pub open spec fn starts_line(t: Seq<u8>, p: int) -> bool {
    0 <= p <= t.len() && (p == 0 || t[p - 1] == NEWLINE)
}

/// Line `i` starts at `p`, where the first line is line 0.
pub open spec fn line_at(t: Seq<u8>, i: int, p: int) -> bool {
    starts_line(t, p) && newlines(t.subrange(0, p)) == i
}

/// Line `i` starts at `p`, or `p` is the end of the text and there is no line `i`.
pub open spec fn line_or_end(t: Seq<u8>, i: int, p: int) -> bool {
    if i <= newlines(t) {
        line_at(t, i, p)
    } else {
        p == t.len()
    }
}

/// The line that `p` is on, where the first line is line 0.
pub open spec fn line_number(t: Seq<u8>, p: int) -> int {
    newlines(t.subrange(0, p)) as int
}

/// A number of lines at least 0.
pub open spec fn at_least_zero(n: int) -> int {
    if n < 0 {
        0
    } else {
        n
    }
}

/// The smaller of two numbers of lines.
pub open spec fn fewer(a: int, b: int) -> int {
    if a < b {
        a
    } else {
        b
    }
}

/// The larger of two numbers of lines.
pub open spec fn more(a: int, b: int) -> int {
    if a < b {
        b
    } else {
        a
    }
}

pub proof fn lemma_newlines_split(t: Seq<u8>, a: int, z: int)
    requires
        0 <= a <= z <= t.len(),
    ensures
        newlines(t.subrange(0, z)) == newlines(t.subrange(0, a)) + newlines(t.subrange(a, z)),
{
    assert(t.subrange(0, a) + t.subrange(a, z) =~= t.subrange(0, z));
    lemma_newlines_concat(t.subrange(0, a), t.subrange(a, z));
}

/// The line that `p` is on starts at its start.
pub proof fn lemma_line_number(t: Seq<u8>, p: int)
    requires
        0 <= p <= t.len(),
    ensures
        line_at(t, line_number(t, p), line_start(t, p)),
        line_number(t, p) <= newlines(t),
        line_number(t, line_end(t, p)) == line_number(t, p),
{
    let bol = line_start(t, p);
    let eol = line_end(t, p);
    lemma_line_start_free(t, p);
    lemma_line_end_free(t, p);
    lemma_newlines_split(t, bol, p);
    lemma_no_newlines(t.subrange(bol, p));
    lemma_newlines_split(t, p, eol);
    lemma_no_newlines(t.subrange(p, eol));
    lemma_newlines_split(t, p, t.len() as int);
    assert(t.subrange(0, t.len() as int) =~= t);
}

/// Behind a line comes the next one, or the text ends.
proof fn lemma_next_line(t: Seq<u8>, p: int, i: int)
    requires
        line_at(t, i, p),
    ensures
        line_or_end(t, i + 1, line_end_with_newline(t, p)),
        i <= newlines(t),
        line_end(t, p) < t.len() <==> i < newlines(t),
{
    let e = line_end(t, p);
    lemma_line_end_free(t, p);
    lemma_newlines_split(t, p, t.len() as int);
    assert(t.subrange(0, t.len() as int) =~= t);
    lemma_newlines_behind(t, p);
    if e < t.len() {
        lemma_newlines_split(t, p, e + 1);
        assert(t.subrange(p, e + 1) =~= t.subrange(p, e) + seq![NEWLINE]);
        lemma_newlines_concat(t.subrange(p, e), seq![NEWLINE]);
        lemma_no_newlines(t.subrange(p, e));
        lemma_one_newline();
    }
}

/// Stepping `n` lines down from line `i` leads to the start of line `i + n`, or of the last one;
/// stepping up leads to the start of line `i - n`, or of the first one.
pub proof fn law_line_steps_count_lines(t: Seq<u8>, p: int, i: int, n: nat, down: bool)
    requires
        line_at(t, i, p),
    ensures
        line_at(
            t,
            if down {
                fewer(i + n, newlines(t) as int)
            } else {
                at_least_zero(i - n)
            },
            line_steps(t, p, n, down),
        ),
    decreases n,
{
    lemma_next_line(t, p, i);
    if n > 0 {
        let q = line_step(t, p, down);
        if down {
            if line_end(t, p) < t.len() {
                law_line_steps_count_lines(t, q, i + 1, (n - 1) as nat, down);
            } else {
                law_line_steps_count_lines(t, p, i, (n - 1) as nat, down);
            }
        } else if p == 0 {
            assert(t.subrange(0, 0) =~= Seq::<u8>::empty());
            law_line_steps_count_lines(t, 0, 0, (n - 1) as nat, down);
        } else {
            lemma_line_number(t, p - 1);
            lemma_newlines_split(t, p - 1, p);
            assert(t.subrange(p - 1, p) =~= seq![NEWLINE]);
            lemma_one_newline();
            law_line_steps_count_lines(t, q, i - 1, (n - 1) as nat, down);
        }
    }
}

/// `n` counted lines end where line `k + n` starts, if the first of them is line `k`, or where the
/// text ends.
pub proof fn law_counted_lines_end(t: Seq<u8>, c: int, n: nat)
    requires
        0 <= c <= t.len(),
        n > 0,
    ensures
        line_or_end(t, line_number(t, c) + n, counted_lines_end(t, c, n)),
        line_start(t, c) <= counted_lines_end(t, c, n) <= t.len(),
{
    let bol = line_start(t, c);
    let k = line_number(t, c);
    lemma_line_number(t, c);
    law_line_steps_count_lines(t, bol, k, (n - 1) as nat, true);
    let s = line_steps(t, bol, (n - 1) as nat, true);
    lemma_next_line(t, s, fewer(k + (n - 1), newlines(t) as int));
    lemma_line_end_free(t, s);
    lemma_steps_not_before(t, bol, (n - 1) as nat);
}

proof fn lemma_steps_not_before(t: Seq<u8>, p: int, n: nat)
    requires
        0 <= p <= t.len(),
    ensures
        p <= line_steps(t, p, n, true) <= t.len(),
    decreases n,
{
    if n > 0 {
        lemma_line_end_free(t, p);
        lemma_steps_not_before(t, line_step(t, p, true), (n - 1) as nat);
    }
}

/// The lines before a line are the lines of the text before it, whatever comes behind.
proof fn lemma_lines_cut(t: Seq<u8>, p: int, i: int, v: Seq<u8>)
    requires
        line_at(t, i, p),
    ensures
        i <= lines_of(t).len(),
        lines_of(t.subrange(0, p) + v) == lines_of(t).take(i) + lines_of(v),
        lines_of(t).skip(i) == lines_of(t.subrange(p, t.len() as int)),
{
    let tail = t.subrange(p, t.len() as int);
    if p == 0 {
        assert(t.subrange(0, 0) =~= Seq::<u8>::empty());
        assert(t.subrange(0, p) + v =~= v);
        assert(tail =~= t);
        assert(lines_of(t).take(0) + lines_of(v) =~= lines_of(v));
        assert(lines_of(t).skip(0) =~= lines_of(t));
    } else {
        let head = t.subrange(0, p - 1);
        assert(t.subrange(0, p) =~= head + seq![NEWLINE]);
        lemma_newlines_concat(head, seq![NEWLINE]);
        lemma_one_newline();
        lemma_lines_count(head);
        lemma_lines_concat(head, v);
        lemma_lines_concat(head, tail);
        assert(t =~= head + seq![NEWLINE] + tail);
        assert(t.subrange(0, p) + v =~= head + seq![NEWLINE] + v);
        assert(lines_of(t).take(i) =~= lines_of(head));
        assert(lines_of(t).skip(i) =~= lines_of(tail));
    }
}

/// The lines from line `j` on, or one empty line where there is no line `j`.
pub open spec fn lines_from(t: Seq<u8>, j: int) -> Seq<Seq<u8>> {
    if j <= newlines(t) {
        lines_of(t).skip(j)
    } else {
        seq![Seq::<u8>::empty()]
    }
}

/// The lines left when those from line `i` to before line `j` go.
proof fn lemma_lines_gone(t: Seq<u8>, a: int, z: int, i: int, j: int)
    requires
        line_at(t, i, a),
        line_or_end(t, j, z),
        a <= z <= t.len(),
    ensures
        lines_of(t.subrange(0, a) + t.subrange(z, t.len() as int)) == lines_of(t).take(i)
            + lines_from(t, j),
{
    let tail = t.subrange(z, t.len() as int);
    lemma_lines_cut(t, a, i, tail);
    if j <= newlines(t) {
        lemma_lines_cut(t, z, j, tail);
    } else {
        assert(tail =~= Seq::<u8>::empty());
        assert(lines_of(tail) =~= seq![Seq::<u8>::empty()]);
    }
}

/// The lines left when those from line `i` to before line `j` are emptied into one.
proof fn lemma_lines_emptied(t: Seq<u8>, a: int, e: int, i: int, j: int)
    requires
        line_at(t, i, a),
        a <= e <= t.len(),
        e < t.len() ==> t[e] == NEWLINE && line_at(t, j, e + 1),
        e == t.len() ==> j > newlines(t),
    ensures
        lines_of(t.subrange(0, a) + t.subrange(e, t.len() as int)) == lines_of(t).take(i) + seq![
            Seq::<u8>::empty(),
        ] + if j <= newlines(t) {
            lines_of(t).skip(j)
        } else {
            Seq::empty()
        },
        j <= newlines(t) <==> e < t.len(),
{
    let len = t.len() as int;
    let none = Seq::<u8>::empty();
    let tail = t.subrange(e, len);
    lemma_lines_cut(t, a, i, tail);
    assert(lines_of(none) =~= seq![none]);
    if e < len {
        lemma_newlines_split(t, e + 1, len);
        assert(t.subrange(0, len) =~= t);
        let rest = t.subrange(e + 1, len);
        assert(tail =~= none + seq![NEWLINE] + rest);
        lemma_lines_concat(none, rest);
        lemma_lines_cut(t, e + 1, j, rest);
        assert(lines_of(t).take(i) + (seq![none] + lines_of(rest)) =~= lines_of(t).take(i) + seq![
            none,
        ] + lines_of(rest));
    } else {
        assert(tail =~= none);
        assert(lines_of(t).take(i) + seq![none] + Seq::<Seq<u8>>::empty() =~= lines_of(t).take(i)
            + seq![none]);
    }
}

/// Lines `i` to before `j` moved to the register, and their place closed up.
pub open spec fn lines_gone(m: AreaView, after: AreaView, i: int, j: int) -> bool {
    let t = m.buf.text;
    &&& lines_of(after.buf.text) == lines_of(t).take(i) + lines_from(t, j)
    &&& after.buf.text.len() < t.len() ==> lines_in_register(m, after, i, j)
}

/// The register holds the lines `i` to before `j`, as lines.
pub open spec fn lines_in_register(m: AreaView, after: AreaView, i: int, j: int) -> bool {
    let t = m.buf.text;
    &&& after.register_kind == KillBufferKind::Linewise
    &&& exists|a: int, z: int|
        #![trigger line_at(t, i, a), line_or_end(t, j, z)]
        line_at(t, i, a) && line_or_end(t, j, z) && a <= z && after.register == t.subrange(a, z)
}

proof fn lemma_killed_lines(m: AreaView, a: int, z: int, i: int, j: int)
    requires
        buffer_ok(m.buf),
        a <= z <= m.buf.text.len(),
        !inside(m.buf.elements, a),
        !inside(m.buf.elements, z),
        line_at(m.buf.text, i, a),
        line_or_end(m.buf.text, j, z),
    ensures
        lines_gone(m, killed(m, a, z, KillBufferKind::Linewise), i, j),
        killed(m, a, z, KillBufferKind::Linewise).mode == m.mode,
        lines_in_register(m, yanked(m, a, z, KillBufferKind::Linewise), i, j),
        killed(m, a, z, KillBufferKind::Linewise).buf.text.len() == m.buf.text.len() - (z - a),
{
    reveal(raw_edit);
    let t = m.buf.text;
    let after = killed(m, a, z, KillBufferKind::Linewise);
    lemma_lines_gone(t, a, z, i, j);
    assert(t.subrange(0, a) + Seq::<u8>::empty() + t.subrange(z, t.len() as int) =~= t.subrange(
        0,
        a,
    ) + t.subrange(z, t.len() as int));
    if a == z {
        assert(t.subrange(0, a) + t.subrange(z, t.len() as int) =~= t);
    }
}

/// `dd` takes as many whole lines as are counted from the line of the cursor on, into the register,
/// and leaves every other line as it was.
pub proof fn law_counted_lines_are_deleted(m: AreaView, count: Option<usize>)
    requires
        buffer_ok(m.buf),
        !inside(m.buf.elements, line_start(m.buf.text, m.buf.cursor)),
        !inside(
            m.buf.elements,
            counted_lines_end(m.buf.text, m.buf.cursor, asked(count)),
        ),
    ensures
        ({
            let k = line_number(m.buf.text, m.buf.cursor);
            let after = acted(m, VimAction::Delete(VimEditTarget::Line), count).0;
            lines_gone(m, after, k, k + asked(count)) && after.mode == m.mode
        }),
{
    let t = m.buf.text;
    let c = m.buf.cursor;
    lemma_line_number(t, c);
    law_counted_lines_end(t, c, asked(count));
    lemma_target(m, false, VimEditTarget::Line, count);
    lemma_killed_lines(
        steps_cleared(m),
        line_start(t, c),
        counted_lines_end(t, c, asked(count)),
        line_number(t, c),
        line_number(t, c) + asked(count),
    );
}

/// `yy` puts as many whole lines as are counted into the register and changes nothing else.
pub proof fn law_counted_lines_are_yanked(m: AreaView, count: Option<usize>)
    requires
        buffer_ok(m.buf),
        !inside(m.buf.elements, line_start(m.buf.text, m.buf.cursor)),
        !inside(
            m.buf.elements,
            counted_lines_end(m.buf.text, m.buf.cursor, asked(count)),
        ),
    ensures
        ({
            let k = line_number(m.buf.text, m.buf.cursor);
            let after = lines_yanked(m, count);
            &&& lines_in_register(m, after, k, k + asked(count))
            &&& after.buf == m.buf
            &&& after.mode == m.mode
        }),
{
    let t = m.buf.text;
    let c = m.buf.cursor;
    lemma_line_number(t, c);
    law_counted_lines_end(t, c, asked(count));
    lemma_killed_lines(
        m,
        line_start(t, c),
        counted_lines_end(t, c, asked(count)),
        line_number(t, c),
        line_number(t, c) + asked(count),
    );
}

/// Lines `i` to before `j` in the register, one empty line in their place with the cursor on it,
/// and Insert mode entered.
pub open spec fn lines_emptied(m: AreaView, after: AreaView, i: int, j: int) -> bool {
    let t = m.buf.text;
    &&& lines_of(after.buf.text) == lines_of(t).take(i) + seq![Seq::<u8>::empty()] + if j
        <= newlines(t) {
        lines_of(t).skip(j)
    } else {
        Seq::empty()
    }
    &&& lines_in_register(m, after, i, j)
    &&& line_at(t, i, after.buf.cursor)
    &&& after.mode == VimMode::Insert
}

/// Changing lines: `e` is where the last of them ends.
proof fn lemma_changed_lines(m: AreaView, a: int, z: int, e: int, i: int, j: int)
    requires
        buffer_ok(m.buf),
        a <= z <= m.buf.text.len(),
        !inside(m.buf.elements, a),
        !inside(m.buf.elements, z),
        !inside(m.buf.elements, e),
        line_at(m.buf.text, i, a),
        i < j,
        line_or_end(m.buf.text, j, z),
        a <= m.buf.cursor <= e <= m.buf.text.len(),
        j <= newlines(m.buf.text) ==> z == e + 1,
        j > newlines(m.buf.text) ==> e == m.buf.text.len(),
    ensures
        lines_emptied(m, lines_changed(m, a, z, e), i, j),
{
    reveal(raw_edit);
    let t = m.buf.text;
    let len = t.len() as int;
    let after = lines_changed(m, a, z, e);
    lemma_killed_lines(m, a, z, i, j);
    if j <= newlines(t) {
        assert(t[z - 1] == NEWLINE) by {
            if z == 0 {
                assert(t.subrange(0, 0) =~= Seq::<u8>::empty());
            }
        }
    }
    lemma_lines_emptied(t, a, e, i, j);
    assert(t.subrange(0, a) + Seq::<u8>::empty() + t.subrange(e, len) =~= t.subrange(0, a)
        + t.subrange(e, len));
    if a == e {
        assert(t.subrange(0, a) + t.subrange(e, len) =~= t);
    }
}

/// `cc` puts as many whole lines as are counted into the register and leaves one empty line in
/// their place, with the cursor on it, in Insert mode. An empty last line behind a newline is left
/// as it is when the lines before it are changed.
pub proof fn law_counted_lines_are_changed(m: AreaView, count: Option<usize>)
    requires
        buffer_ok(m.buf),
        m.buf.elements.len() == 0,
        ({
            let t = m.buf.text;
            let k = line_number(t, m.buf.cursor);
            k + asked(count) <= newlines(t) || k == newlines(t) || t.last() != NEWLINE
        }),
    ensures
        ({
            let k = line_number(m.buf.text, m.buf.cursor);
            let (after, done) = acted(m, VimAction::Change(VimEditTarget::Line), count);
            lines_emptied(m, after, k, k + asked(count)) && done
        }),
{
    let s = steps_cleared(m);
    let t = m.buf.text;
    let c = m.buf.cursor;
    let n = asked(count);
    let k = line_number(t, c);
    let a = line_start(t, c);
    let z = counted_lines_end(t, c, n);
    lemma_line_number(t, c);
    lemma_line_start_free(t, c);
    lemma_line_end_free(t, c);
    law_counted_lines_end(t, c, n);
    lemma_next_line(t, a, k);
    lemma_target(m, true, VimEditTarget::Line, count);
    let e = before_newline(t, z);
    assert(!inside(m.buf.elements, a) && !inside(m.buf.elements, z) && !inside(m.buf.elements, e));
    lemma_line_end_is(t, a, line_end(t, c));
    if k + n <= newlines(t) {
        lemma_behind_line(t, c, k, z, k + n);
        lemma_changed_lines(s, a, z, e, k, k + n);
    } else if k == newlines(t) {
        assert(z == t.len());
        if e < a {
            lemma_changed_lines(s, a, z, a, k, k + n);
            assert(lines_changed(s, a, z, e) == lines_changed(s, a, z, a));
        } else {
            assert(line_end(t, c) == t.len());
            assert(e == t.len()) by {
                if t.len() > 0 && t.last() == NEWLINE {
                    assert(a <= t.len() - 1 ==> t[t.len() - 1] != NEWLINE);
                }
            }
            lemma_changed_lines(s, a, z, e, k, k + n);
        }
    } else {
        lemma_changed_lines(s, a, z, e, k, k + n);
    }
}

/// A later line starts behind the end of an earlier one.
proof fn lemma_behind_line(t: Seq<u8>, c: int, k: int, z: int, j: int)
    requires
        0 <= c <= t.len(),
        k == line_number(t, c),
        line_at(t, j, z),
        k < j,
    ensures
        line_end(t, c) < z,
        z > 0,
        t[z - 1] == NEWLINE,
{
    lemma_line_number(t, c);
    lemma_line_end_free(t, c);
    if z <= line_end(t, c) {
        lemma_newlines_split(t, z, line_end(t, c));
    }
    if z == 0 {
        assert(t.subrange(0, 0) =~= Seq::<u8>::empty());
    }
}

/// The line that a jump asks for: line `count`, where the first line is line 1, but none behind the
/// last one; without a count the last line or the first one.
pub open spec fn asked_line(t: Seq<u8>, last: bool, count: Option<usize>) -> int {
    match count {
        Some(n) => if n == 0 {
            0
        } else {
            fewer(n - 1, newlines(t) as int)
        },
        None => if last {
            newlines(t) as int
        } else {
            0
        },
    }
}

/// A jump goes to the line that it asks for.
pub proof fn law_jumps_go_to_the_asked_line(t: Seq<u8>, last: bool, count: Option<usize>)
    ensures
        line_at(t, asked_line(t, last, count), jump_target(t, last, count)),
{
    let len = t.len() as int;
    assert(t.subrange(0, 0) =~= Seq::<u8>::empty());
    match count {
        Some(n) => {
            law_line_steps_count_lines(t, 0, 0, crate::lines::less_one(n as nat), true);
        },
        None => {
            if last {
                lemma_line_number(t, len);
                assert(t.subrange(0, len) =~= t);
            }
        },
    }
}

/// A jump puts the cursor on the first character of the asked line that is not whitespace, and
/// keeps the text.
pub proof fn law_jumps_land_on_the_first_character(m: AreaView, last: bool, count: Option<usize>)
    requires
        buffer_ok(m.buf),
        m.buf.elements.len() == 0,
    ensures
        ({
            let t = m.buf.text;
            let after = jumped(m, last, None, count);
            let d = after.buf.cursor;
            let p = line_start(t, d);
            &&& after.buf.text == t
            &&& line_at(t, asked_line(t, last, count), p)
            &&& p <= d <= line_end(t, p)
            &&& forall|q: int| p <= q < d && #[trigger] is_pos(t, q) ==> white_at(t, q)
            &&& d < line_end(t, p) ==> !white_at(t, d)
        }),
{
    let t = m.buf.text;
    let p = jump_target(t, last, count);
    law_jumps_go_to_the_asked_line(t, last, count);
    lemma_zero_pos(t);
    if p > 0 {
        lemma_ascii(t, p - 1);
    }
    lemma_cursor_there(m, p);
    assert(line_start(t, p) == p);
    lemma_line_end(t, p);
    lemma_line_end_free(t, p);
    lemma_skip_white(t, p, line_end(t, p));
    law_whitespace_is_skipped(t, p, line_end(t, p));
    let d = skip_white(t, p, line_end(t, p));
    assert(!inside(m.buf.elements, d) && !inside(m.buf.elements, p));
    let there = crate::textarea::with_cursor(m, p);
    assert(there.buf.cursor == p);
    lemma_cursor_there(there, d);
    lemma_line_start_from(t, p, d);
    reveal(jumped);
}

/// A place on the line that starts at `p` is on that line.
proof fn lemma_line_start_from(t: Seq<u8>, p: int, d: int)
    requires
        starts_line(t, p),
        p <= d <= line_end(t, p),
    ensures
        line_start(t, d) == p,
    decreases d - p,
{
    lemma_line_end_free(t, p);
    if p < d {
        lemma_line_start_from(t, p, d - 1);
    }
}

/// An operator with a jump takes whole lines: from the line of the cursor to the asked one, both
/// included. A delete and a change take them from the text, and a change enters Insert mode; a yank
/// keeps the text.
pub proof fn law_operators_take_lines_up_to_a_jump(
    m: AreaView,
    last: bool,
    operator: VimOperator,
    count: Option<usize>,
)
    requires
        buffer_ok(m.buf),
        m.buf.elements.len() == 0,
    ensures
        ({
            let t = m.buf.text;
            let k = line_number(t, m.buf.cursor);
            let j = asked_line(t, last, count);
            let i = fewer(k, j);
            let z = more(k, j) + 1;
            let after = jumped(m, last, Some(operator), count);
            match operator {
                VimOperator::Delete => lines_gone(m, after, i, z) && after.mode == m.mode,
                VimOperator::Change => lines_gone(m, after, i, z) && after.mode == VimMode::Insert,
                VimOperator::Yank => {
                    &&& lines_in_register(m, after, i, z)
                    &&& after.buf == m.buf
                    &&& after.mode == m.mode
                },
            }
        }),
{
    let t = m.buf.text;
    let c = m.buf.cursor;
    let len = t.len() as int;
    let k = line_number(t, c);
    let j = asked_line(t, last, count);
    let (a, z) = jump_range(t, c, last, count);
    let p = jump_target(t, last, count);
    let bol = line_start(t, c);
    lemma_line_number(t, c);
    lemma_line_start_free(t, c);
    lemma_line_end_free(t, c);
    law_jumps_go_to_the_asked_line(t, last, count);
    lemma_next_line(t, bol, k);
    lemma_next_line(t, p, j);
    lemma_line_end_free(t, p);
    lemma_line_end_free(t, bol);
    if bol < p {
        lemma_newlines_split(t, bol, p);
        assert(newlines(t.subrange(bol, p)) > 0) by {
            lemma_newlines_split(t, p - 1, p);
            assert(t.subrange(p - 1, p) =~= seq![NEWLINE]);
            lemma_one_newline();
            lemma_newlines_split(t, bol, p - 1);
        }
    } else if p < bol {
        lemma_newlines_split(t, p, bol - 1);
        lemma_newlines_split(t, bol - 1, bol);
        assert(t.subrange(bol - 1, bol) =~= seq![NEWLINE]);
        lemma_one_newline();
    }
    assert(!inside(m.buf.elements, a) && !inside(m.buf.elements, z));
    lemma_killed_lines(m, a, z, fewer(k, j), more(k, j) + 1);
    reveal(jumped);
}

/// An operator over `j` takes the line of the cursor and as many below it as are counted, one over
/// `k` as many above it, as whole lines.
pub proof fn law_operators_take_lines_up_and_down(
    m: AreaView,
    down: bool,
    operator: VimOperator,
    n: nat,
)
    requires
        buffer_ok(m.buf),
        m.buf.elements.len() == 0,
    ensures
        ({
            let t = m.buf.text;
            let k = line_number(t, m.buf.cursor);
            let i = if down {
                k
            } else {
                at_least_zero(k - n)
            };
            let j = if down {
                k + n + 1
            } else {
                k + 1
            };
            let motion = if down {
                VimMotion::Down
            } else {
                VimMotion::Up
            };
            let after = operator_applied(m, operator, motion, n);
            match operator {
                VimOperator::Delete => lines_gone(m, after, i, j) && after.mode == m.mode,
                VimOperator::Change => lines_emptied(m, after, i, j),
                VimOperator::Yank => {
                    &&& lines_in_register(m, after, i, j)
                    &&& after.buf == m.buf
                    &&& after.mode == m.mode
                },
            }
        }),
{
    let t = m.buf.text;
    let c = m.buf.cursor;
    let k = line_number(t, c);
    let bol = line_start(t, c);
    let s = other_line(t, c, n, down);
    let motion = if down {
        VimMotion::Down
    } else {
        VimMotion::Up
    };
    let (a, z, whole) = operator_range(t, m.buf.elements, c, operator, motion, n);
    let i = if down {
        k
    } else {
        at_least_zero(k - n)
    };
    let j = if down {
        k + n + 1
    } else {
        k + 1
    };
    lemma_line_number(t, c);
    lemma_line_start_free(t, c);
    lemma_line_end_free(t, c);
    law_line_steps_count_lines(t, bol, k, n, down);
    let last = if down {
        s
    } else {
        bol
    };
    let at = if down {
        fewer(k + n, newlines(t) as int)
    } else {
        k
    };
    lemma_next_line(t, last, at);
    lemma_line_end_free(t, last);
    lemma_line_end_is(t, bol, line_end(t, c));
    if down {
        lemma_steps_not_before(t, bol, n);
    } else {
        lemma_steps_not_behind(t, bol, n);
    }
    assert(line_end(t, c) <= line_end(t, last)) by {
        if bol < last && last <= line_end(t, c) {
            assert(t[last - 1] == NEWLINE);
        }
    }
    assert(line_or_end(t, j, z));
    let e = line_end(t, last);
    assert(!inside(m.buf.elements, a) && !inside(m.buf.elements, z) && !inside(m.buf.elements, e));
    lemma_killed_lines(m, a, z, i, j);
    lemma_changed_lines(m, a, z, e, i, j);
    reveal(operator_applied);
}

proof fn lemma_steps_not_behind(t: Seq<u8>, p: int, n: nat)
    requires
        0 <= p <= t.len(),
    ensures
        0 <= line_steps(t, p, n, false) <= p,
    decreases n,
{
    if n > 0 {
        let q = line_step(t, p, false);
        if p > 0 {
            lemma_line_start_free(t, p - 1);
        }
        lemma_steps_not_behind(t, q, (n - 1) as nat);
    }
}

/// An operator over `$` works up to the end of the line; with a count up to that of a line further
/// down.
pub proof fn law_line_end_motion_reaches_the_counted_line(
    t: Seq<u8>,
    es: Seq<ElementView>,
    c: int,
    operator: VimOperator,
    n: nat,
)
    requires
        0 <= c <= t.len(),
        n > 0,
    ensures
        ({
            let (a, z, whole) = operator_range(t, es, c, operator, VimMotion::LineEnd, n);
            &&& a == c
            &&& !whole
            &&& 0 <= z <= t.len()
            &&& z < t.len() ==> t[z] == NEWLINE
            &&& line_number(t, z) == fewer(line_number(t, c) + n - 1, newlines(t) as int)
        }),
{
    let bol = line_start(t, c);
    lemma_line_number(t, c);
    law_line_steps_count_lines(t, bol, line_number(t, c), (n - 1) as nat, true);
    let s = line_steps(t, bol, (n - 1) as nat, true);
    lemma_line_number(t, s);
    lemma_line_end_free(t, s);
}

} // verus!
