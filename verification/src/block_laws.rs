//! What pasting and joining do to the lines of a text.

use crate::buffer::{buffer_ok, edited, inside, lemma_edited_ok, moved};
use crate::line_edits::{
    can_paste, join_needs_space, joined_once, joined_times, lemma_literals, lines_joined,
    lines_pasted, paste_unit, pasted, without_newline, SPACE,
};
use crate::lines::{
    lemma_line_end, lemma_line_end_free, lemma_line_end_is, lemma_skip_white, less_one, line_end,
    line_start, skip_white, NEWLINE,
};
use crate::text::{
    after_char, char_at, is_pos, is_white_space, lemma_ascii, lemma_char, lemma_char_interior,
    lemma_pos_is_boundary, repeated, spliced, white_at,
};
use crate::textarea::{raw_edit, AreaView, KillBufferKind};
use vstd::prelude::*;
use vstd::utf8::*;

verus! {

/// How many newlines a text has.
pub open spec fn newlines(t: Seq<u8>) -> nat
    decreases t.len(),
{
    if t.len() == 0 {
        0
    } else {
        newlines(t.drop_last()) + if t.last() == NEWLINE {
            1nat
        } else {
            0
        }
    }
}

/// The lines of a text, without their newlines.
pub open spec fn lines_of(t: Seq<u8>) -> Seq<Seq<u8>>
    decreases t.len(),
{
    let e = line_end(t, 0);
    if 0 <= e < t.len() {
        seq![t.subrange(0, e)] + lines_of(t.subrange(e + 1, t.len() as int))
    } else {
        seq![t]
    }
}

/// `n` copies of some lines, one after the other.
pub open spec fn copies(lines: Seq<Seq<u8>>, n: nat) -> Seq<Seq<u8>>
    decreases n,
{
    if n == 0 {
        Seq::empty()
    } else {
        copies(lines, (n - 1) as nat) + lines
    }
}

pub proof fn lemma_newlines_concat(a: Seq<u8>, b: Seq<u8>)
    ensures
        newlines(a + b) == newlines(a) + newlines(b),
    decreases b.len(),
{
    if b.len() == 0 {
        assert(a + b =~= a);
    } else {
        assert((a + b).drop_last() =~= a + b.drop_last());
        assert((a + b).last() == b.last());
        lemma_newlines_concat(a, b.drop_last());
    }
}

pub proof fn lemma_no_newlines(t: Seq<u8>)
    requires
        forall|i: int| 0 <= i < t.len() ==> t[i] != NEWLINE,
    ensures
        newlines(t) == 0,
    decreases t.len(),
{
    if t.len() > 0 {
        let init = t.drop_last();
        assert forall|i: int| 0 <= i < init.len() implies init[i] != NEWLINE by {
            assert(init[i] == t[i]);
        }
        lemma_no_newlines(init);
    }
}

pub proof fn lemma_one_newline()
    ensures
        newlines(seq![NEWLINE]) == 1,
        newlines(Seq::<u8>::empty()) == 0,
        newlines(seq![SPACE]) == 0,
{
    assert(seq![NEWLINE].drop_last() =~= Seq::<u8>::empty());
    assert(seq![NEWLINE].last() == NEWLINE);
    assert(newlines(seq![NEWLINE].drop_last()) == 0);
    lemma_no_newlines(seq![SPACE]);
}

/// No newline comes between the start of a line and a place on it.
pub proof fn lemma_line_start_free(t: Seq<u8>, c: int)
    requires
        0 <= c <= t.len(),
    ensures
        0 <= line_start(t, c) <= c,
        forall|k: int| line_start(t, c) <= k < c ==> t[k] != NEWLINE,
        line_start(t, c) > 0 ==> t[line_start(t, c) - 1] == NEWLINE,
    decreases c,
{
    if c > 0 && t[c - 1] != NEWLINE {
        lemma_line_start_free(t, c - 1);
    }
}

/// A newline between two texts parts their lines.
pub proof fn lemma_lines_concat(x: Seq<u8>, y: Seq<u8>)
    ensures
        lines_of(x + seq![NEWLINE] + y) == lines_of(x) + lines_of(y),
    decreases x.len(),
{
    let t = x + seq![NEWLINE] + y;
    let e = line_end(x, 0);
    lemma_line_end_free(x, 0);
    if e < x.len() {
        assert(forall|k: int| 0 <= k < x.len() ==> t[k] == x[k]);
        lemma_line_end_is(t, 0, e);
        let rest = x.subrange(e + 1, x.len() as int);
        lemma_lines_concat(rest, y);
        assert(t.subrange(0, e) =~= x.subrange(0, e));
        assert(t.subrange(e + 1, t.len() as int) =~= rest + seq![NEWLINE] + y);
        assert(lines_of(t) =~= lines_of(x) + lines_of(y));
    } else {
        assert(forall|k: int| 0 <= k < x.len() ==> t[k] == x[k]);
        assert(t[x.len() as int] == NEWLINE);
        lemma_line_end_is(t, 0, x.len() as int);
        assert(t.subrange(0, x.len() as int) =~= x);
        assert(t.subrange(x.len() as int + 1, t.len() as int) =~= y);
        assert(lines_of(t) =~= lines_of(x) + lines_of(y));
    }
}

/// There is one line more than there are newlines.
pub proof fn lemma_lines_count(t: Seq<u8>)
    ensures
        lines_of(t).len() == newlines(t) + 1,
    decreases t.len(),
{
    let e = line_end(t, 0);
    lemma_line_end_free(t, 0);
    if e < t.len() {
        let head = t.subrange(0, e);
        let rest = t.subrange(e + 1, t.len() as int);
        lemma_lines_count(rest);
        assert(t =~= head + seq![NEWLINE] + rest);
        lemma_newlines_concat(head + seq![NEWLINE], rest);
        lemma_newlines_concat(head, seq![NEWLINE]);
        lemma_one_newline();
        lemma_no_newlines(head);
    } else {
        lemma_no_newlines(t);
    }
}

/// Lines put above the line of `c`.
pub proof fn lemma_block_above(t: Seq<u8>, c: int, payload: Seq<u8>)
    requires
        0 <= c <= t.len(),
    ensures
        ({
            let bol = line_start(t, c);
            let u = t.subrange(0, bol) + payload.push(NEWLINE) + t.subrange(bol, t.len() as int);
            let k = newlines(t.subrange(0, c)) as int;
            &&& k <= lines_of(t).len()
            &&& lines_of(u) == lines_of(t).take(k) + lines_of(payload) + lines_of(t).skip(k)
        }),
{
    let len = t.len() as int;
    let bol = line_start(t, c);
    lemma_line_start_free(t, c);
    let tail = t.subrange(bol, len);
    let rest = payload + seq![NEWLINE] + tail;
    let u = t.subrange(0, bol) + payload.push(NEWLINE) + tail;
    lemma_lines_concat(payload, tail);
    assert(newlines(t.subrange(0, c)) == newlines(t.subrange(0, bol))) by {
        lemma_newlines_concat(t.subrange(0, bol), t.subrange(bol, c));
        assert(t.subrange(0, bol) + t.subrange(bol, c) =~= t.subrange(0, c));
        lemma_no_newlines(t.subrange(bol, c));
    }
    if bol > 0 {
        let head = t.subrange(0, bol - 1);
        assert(newlines(t.subrange(0, bol)) == newlines(head) + 1) by {
            assert(t.subrange(0, bol) =~= head + seq![NEWLINE]);
            lemma_newlines_concat(head, seq![NEWLINE]);
            lemma_one_newline();
        }
        lemma_lines_count(head);
        assert(t =~= head + seq![NEWLINE] + tail);
        assert(u =~= head + seq![NEWLINE] + rest);
        lemma_lines_concat(head, tail);
        lemma_lines_concat(head, rest);
        lemma_cut(lines_of(head), lines_of(payload), lines_of(tail));
    } else {
        assert(newlines(t.subrange(0, bol)) == 0);
        assert(tail =~= t);
        assert(u =~= rest);
        lemma_cut(Seq::empty(), lines_of(payload), lines_of(t));
        assert(Seq::<Seq<u8>>::empty() + lines_of(t) =~= lines_of(t));
        assert(Seq::<Seq<u8>>::empty() + (lines_of(payload) + lines_of(t)) =~= lines_of(payload)
            + lines_of(t));
    }
}

/// Lines put below the line of `c`.
pub proof fn lemma_block_below(t: Seq<u8>, c: int, payload: Seq<u8>)
    requires
        0 <= c <= t.len(),
    ensures
        ({
            let eol = line_end(t, c);
            let len = t.len() as int;
            let u = if eol < len {
                t.subrange(0, eol + 1) + payload.push(NEWLINE) + t.subrange(eol + 1, len)
            } else {
                t + seq![NEWLINE] + payload
            };
            let k = newlines(t.subrange(0, c)) as int + 1;
            &&& k <= lines_of(t).len()
            &&& lines_of(u) == lines_of(t).take(k) + lines_of(payload) + lines_of(t).skip(k)
        }),
{
    let len = t.len() as int;
    let eol = line_end(t, c);
    lemma_line_end_free(t, c);
    let head = t.subrange(0, eol);
    assert(newlines(t.subrange(0, c)) == newlines(head)) by {
        lemma_newlines_concat(t.subrange(0, c), t.subrange(c, eol));
        assert(t.subrange(0, c) + t.subrange(c, eol) =~= head);
        lemma_no_newlines(t.subrange(c, eol));
    }
    lemma_lines_count(head);
    if eol < len {
        let tail = t.subrange(eol + 1, len);
        let rest = payload + seq![NEWLINE] + tail;
        let u = t.subrange(0, eol + 1) + payload.push(NEWLINE) + tail;
        assert(t =~= head + seq![NEWLINE] + tail);
        assert(u =~= head + seq![NEWLINE] + rest);
        lemma_lines_concat(head, tail);
        lemma_lines_concat(payload, tail);
        lemma_lines_concat(head, rest);
        lemma_cut(lines_of(head), lines_of(payload), lines_of(tail));
    } else {
        let none = Seq::<Seq<u8>>::empty();
        assert(head =~= t);
        lemma_lines_concat(t, payload);
        lemma_cut(lines_of(t), lines_of(payload), none);
        assert(lines_of(t) + none =~= lines_of(t));
        assert(lines_of(t) + (lines_of(payload) + none) =~= lines_of(t) + lines_of(payload));
    }
}

/// Lines pasted stand as one block above or below the line of the cursor, and all other lines stay
/// as they were, where no element holds the place between those lines inside.
pub proof fn law_lines_are_pasted_as_a_block(m: AreaView, after: bool, text: Seq<u8>)
    requires
        buffer_ok(m.buf),
        ({
            let t = m.buf.text;
            let c = m.buf.cursor;
            let eol = line_end(t, c);
            !inside(
                m.buf.elements,
                if !after {
                    line_start(t, c)
                } else if eol < t.len() {
                    eol + 1
                } else {
                    eol
                },
            )
        }),
    ensures
        ({
            let old_lines = lines_of(m.buf.text);
            let above = newlines(m.buf.text.subrange(0, m.buf.cursor));
            let k = if after {
                above + 1
            } else {
                above
            } as int;
            &&& 0 <= k <= old_lines.len()
            &&& lines_of(lines_pasted(m, after, text).buf.text) == old_lines.take(k) + lines_of(
                without_newline(text),
            ) + old_lines.skip(k)
        }),
{
    let t = m.buf.text;
    let c = m.buf.cursor;
    let len = t.len() as int;
    let payload = without_newline(text);
    let eol = line_end(t, c);
    lemma_line_start_free(t, c);
    lemma_line_end_free(t, c);
    let u = lines_pasted(m, after, text).buf.text;
    if !after {
        let bol = line_start(t, c);
        assert(u =~= t.subrange(0, bol) + payload.push(NEWLINE) + t.subrange(bol, len)) by {
            reveal(raw_edit);
        }
        lemma_block_above(t, c, payload);
    } else {
        if eol < len {
            assert(u =~= t.subrange(0, eol + 1) + payload.push(NEWLINE) + t.subrange(
                eol + 1,
                len,
            )) by {
                reveal(raw_edit);
            }
        } else {
            assert(u =~= t + seq![NEWLINE] + payload) by {
                reveal(raw_edit);
            }
        }
        lemma_block_below(t, c, payload);
    }
}

/// Lines put between two parts of some lines.
proof fn lemma_cut(a: Seq<Seq<u8>>, b: Seq<Seq<u8>>, z: Seq<Seq<u8>>)
    ensures
        a + (b + z) == (a + z).take(a.len() as int) + b + (a + z).skip(a.len() as int),
{
    assert((a + z).take(a.len() as int) =~= a);
    assert((a + z).skip(a.len() as int) =~= z);
    assert(a + (b + z) =~= a + b + z);
}

/// The lines of copies of some lines are copies of the lines.
proof fn lemma_repeated_lines(unit: Seq<u8>, n: nat)
    requires
        unit.len() > 0,
        unit.last() == NEWLINE,
        n > 0,
    ensures
        lines_of(without_newline(repeated(unit, n))) == copies(lines_of(without_newline(unit)), n),
        repeated(unit, n).len() > 0,
        repeated(unit, n).last() == NEWLINE,
    decreases n,
{
    let all = repeated(unit, n);
    let before = repeated(unit, (n - 1) as nat);
    let one = without_newline(unit);
    assert(all == before + unit);
    assert(unit =~= one + seq![NEWLINE]);
    if n == 1 {
        assert(before =~= Seq::<u8>::empty());
        assert(all =~= unit);
        assert(copies(lines_of(one), 0) =~= Seq::empty());
        assert(copies(lines_of(one), 1) =~= lines_of(one));
    } else {
        lemma_repeated_lines(unit, (n - 1) as nat);
        let head = without_newline(before);
        assert(before =~= head + seq![NEWLINE]);
        assert(without_newline(all) =~= head + seq![NEWLINE] + one);
        lemma_lines_concat(head, one);
    }
}

/// Pasting a register of lines puts `count` copies of its lines as one block above or below the
/// line of the cursor, and all other lines stay as they were, where no element holds the place
/// between those lines inside.
pub proof fn law_linewise_paste_adds_whole_lines(m: AreaView, after: bool, count: nat)
    requires
        buffer_ok(m.buf),
        m.register_kind == KillBufferKind::Linewise,
        can_paste(m, count),
        count > 0,
        ({
            let t = m.buf.text;
            let c = m.buf.cursor;
            let eol = line_end(t, c);
            !inside(
                m.buf.elements,
                if !after {
                    line_start(t, c)
                } else if eol < t.len() {
                    eol + 1
                } else {
                    eol
                },
            )
        }),
    ensures
        ({
            let old_lines = lines_of(m.buf.text);
            let above = newlines(m.buf.text.subrange(0, m.buf.cursor));
            let k = if after {
                above + 1
            } else {
                above
            } as int;
            &&& 0 <= k <= old_lines.len()
            &&& lines_of(pasted(m, after, count).buf.text) == old_lines.take(k) + copies(
                lines_of(without_newline(m.register)),
                count,
            ) + old_lines.skip(k)
        }),
{
    reveal(pasted);
    let unit = paste_unit(m);
    assert(unit.last() == NEWLINE);
    assert(without_newline(unit) =~= without_newline(m.register)) by {
        if m.register.last() != NEWLINE {
            assert(m.register.push(NEWLINE).drop_last() =~= m.register);
        }
    }
    lemma_repeated_lines(unit, count);
    law_lines_are_pasted_as_a_block(m, after, repeated(unit, count));
}

/// The characters that are not whitespace, in order.
pub open spec fn without_white(chars: Seq<char>) -> Seq<char>
    decreases chars.len(),
{
    if chars.len() == 0 {
        Seq::empty()
    } else if is_white_space(chars[0]) {
        without_white(chars.drop_first())
    } else {
        seq![chars[0]] + without_white(chars.drop_first())
    }
}

/// The characters of a text that are not whitespace, in order.
pub open spec fn blacks(t: Seq<u8>) -> Seq<char> {
    without_white(decode_utf8(t))
}

/// No element holds an end of what one of `n` joins replaces inside.
pub open spec fn joins_clear(m: AreaView, n: nat) -> bool
    decreases n,
{
    let t = m.buf.text;
    let eol = line_end(t, m.buf.cursor);
    n > 0 && eol < t.len() ==> {
        &&& !inside(m.buf.elements, eol)
        &&& !inside(m.buf.elements, skip_white(t, eol + 1, line_end(t, eol + 1)))
        &&& joins_clear(joined_once(m), (n - 1) as nat)
    }
}

proof fn lemma_without_white_concat(a: Seq<char>, b: Seq<char>)
    ensures
        without_white(a + b) == without_white(a) + without_white(b),
    decreases a.len(),
{
    if a.len() == 0 {
        assert(a + b =~= b);
        assert(without_white(a) + without_white(b) =~= without_white(b));
    } else {
        assert((a + b).drop_first() =~= a.drop_first() + b);
        lemma_without_white_concat(a.drop_first(), b);
        assert(without_white(a + b) =~= without_white(a) + without_white(b));
    }
}

/// A text can be taken apart at a boundary.
proof fn lemma_blacks_split(t: Seq<u8>, p: int)
    requires
        valid_utf8(t),
        is_pos(t, p),
    ensures
        valid_utf8(t.subrange(0, p)),
        valid_utf8(t.subrange(p, t.len() as int)),
        blacks(t) == blacks(t.subrange(0, p)) + blacks(t.subrange(p, t.len() as int)),
{
    lemma_pos_is_boundary(t, p);
    valid_utf8_split(t, p);
    decode_utf8_split(t, p);
    lemma_without_white_concat(
        decode_utf8(t.subrange(0, p)),
        decode_utf8(t.subrange(p, t.len() as int)),
    );
}

/// A whitespace character in front adds nothing.
proof fn lemma_white_in_front(t: Seq<u8>, p: int)
    requires
        valid_utf8(t),
        is_pos(t, p),
        white_at(t, p),
    ensures
        blacks(t.subrange(p, t.len() as int)) == blacks(
            t.subrange(after_char(t, p), t.len() as int),
        ),
{
    let len = t.len() as int;
    let w = t.subrange(p, len);
    lemma_char(t, p);
    lemma_pos_is_boundary(t, p);
    valid_utf8_split(t, p);
    let rest = pop_first_scalar(w);
    assert(rest =~= t.subrange(after_char(t, p), len));
    decode_utf8_first_scalar(w);
    assert(decode_utf8(w).drop_first() =~= decode_utf8(rest));
    assert(decode_utf8(w)[0] == char_at(t, p));
}

/// Skipped whitespace adds nothing.
proof fn lemma_skipped_white(t: Seq<u8>, p: int, limit: int)
    requires
        valid_utf8(t),
        is_pos(t, p),
        is_pos(t, limit),
        p <= limit,
    ensures
        blacks(t.subrange(p, t.len() as int)) == blacks(
            t.subrange(skip_white(t, p, limit), t.len() as int),
        ),
    decreases limit - p,
{
    if p < limit && white_at(t, p) {
        lemma_char(t, p);
        if after_char(t, p) > limit {
            lemma_char_interior(t, p, limit);
        }
        lemma_white_in_front(t, p);
        lemma_skipped_white(t, after_char(t, p), limit);
    }
}

/// Between `a` and `z` whitespace is replaced by a space or by nothing.
proof fn lemma_replaced_white(t: Seq<u8>, a: int, z: int, ins: Seq<u8>)
    requires
        valid_utf8(t),
        is_pos(t, a),
        is_pos(t, z),
        a <= z,
        ins == seq![SPACE] || ins == Seq::<u8>::empty(),
        blacks(t.subrange(a, t.len() as int)) == blacks(t.subrange(z, t.len() as int)),
    ensures
        valid_utf8(spliced(t, a, z, ins)),
        blacks(spliced(t, a, z, ins)) == blacks(t),
{
    let len = t.len() as int;
    let u = spliced(t, a, z, ins);
    let head = t.subrange(0, a);
    let tail = t.subrange(z, len);
    lemma_blacks_split(t, a);
    lemma_blacks_split(t, z);
    lemma_literals();
    encode_utf8_valid_utf8(" "@);
    encode_utf8_valid_utf8(""@);
    assert(u =~= head + ins + tail);
    valid_utf8_concat(head, ins);
    valid_utf8_concat(head + ins, tail);
    assert(u.subrange(0, a) =~= head);
    if ins.len() > 0 {
        assert(u[a] == SPACE);
        lemma_ascii(u, a);
        lemma_blacks_split(u, a);
        assert(white_at(u, a));
        lemma_white_in_front(u, a);
        assert(u.subrange(a + 1, u.len() as int) =~= tail);
    } else {
        assert(is_pos(u, a)) by {
            if a < u.len() {
                assert(u[a] == t[z]);
            }
        }
        lemma_blacks_split(u, a);
        assert(u.subrange(a, u.len() as int) =~= tail);
    }
}

/// One join: a newline goes, whitespace aside nothing else does.
proof fn lemma_joined_once(m: AreaView)
    requires
        buffer_ok(m.buf),
        line_end(m.buf.text, m.buf.cursor) < m.buf.text.len(),
        joins_clear(m, 1),
    ensures
        ({
            let t = m.buf.text;
            let u = joined_once(m).buf.text;
            &&& buffer_ok(joined_once(m).buf)
            &&& blacks(u) == blacks(t)
            &&& newlines(u) + 1 == newlines(t)
            &&& newlines(u.subrange(joined_once(m).buf.cursor, u.len() as int)) + 1 == newlines(
                t.subrange(m.buf.cursor, t.len() as int),
            )
        }),
{
    let t = m.buf.text;
    let c = m.buf.cursor;
    let len = t.len() as int;
    let eol = line_end(t, c);
    let limit = line_end(t, eol + 1);
    let next = skip_white(t, eol + 1, limit);
    let ins = if join_needs_space(t, c) {
        seq![SPACE]
    } else {
        Seq::empty()
    };
    let after = joined_once(m);
    let u = spliced(t, eol, next, ins);
    lemma_line_end(t, c);
    lemma_line_end_free(t, c);
    lemma_ascii(t, eol);
    lemma_line_end(t, eol + 1);
    lemma_line_end_free(t, eol + 1);
    lemma_skip_white(t, eol + 1, limit);
    assert(after.buf == edited(m.buf, eol, next, ins)) by {
        reveal(raw_edit);
    }
    assert(white_at(t, eol));
    lemma_white_in_front(t, eol);
    lemma_skipped_white(t, eol + 1, limit);
    lemma_replaced_white(t, eol, next, ins);
    lemma_literals();
    encode_utf8_valid_utf8(" "@);
    encode_utf8_valid_utf8(""@);
    lemma_edited_ok(m.buf, eol, next, ins);
    lemma_one_newline();
    lemma_join_newlines(t, c, eol, next, ins);
}

/// How many newlines are left, and how many behind the cursor, when the one at `a` goes.
proof fn lemma_join_newlines(t: Seq<u8>, c: int, a: int, z: int, ins: Seq<u8>)
    requires
        0 <= c <= a < z <= t.len(),
        t[a] == NEWLINE,
        forall|k: int| c <= k < a ==> t[k] != NEWLINE,
        forall|k: int| a < k < z ==> t[k] != NEWLINE,
        newlines(ins) == 0,
    ensures
        ({
            let u = spliced(t, a, z, ins);
            let d = moved(c, a, z, ins.len() as int);
            &&& newlines(u) + 1 == newlines(t)
            &&& newlines(u.subrange(d, u.len() as int)) + 1 == newlines(
                t.subrange(c, t.len() as int),
            )
        }),
{
    let len = t.len() as int;
    let u = spliced(t, a, z, ins);
    let n = ins.len() as int;
    let before = t.subrange(0, c);
    let line = t.subrange(c, a);
    let gap = t.subrange(a + 1, z);
    let tail = t.subrange(z, len);
    lemma_one_newline();
    lemma_no_newlines(line);
    lemma_no_newlines(gap);
    assert(t.subrange(c, len) =~= line + seq![NEWLINE] + gap + tail);
    lemma_newlines_concat(line + seq![NEWLINE] + gap, tail);
    lemma_newlines_concat(line + seq![NEWLINE], gap);
    lemma_newlines_concat(line, seq![NEWLINE]);
    assert(t =~= before + t.subrange(c, len));
    lemma_newlines_concat(before, t.subrange(c, len));
    assert(u.subrange(c, u.len() as int) =~= line + ins + tail);
    lemma_newlines_concat(line + ins, tail);
    lemma_newlines_concat(line, ins);
    assert(u =~= before + u.subrange(c, u.len() as int));
    lemma_newlines_concat(before, u.subrange(c, u.len() as int));
    if c == a {
        assert(u.subrange(a + n, u.len() as int) =~= tail);
    }
}

/// On the last line there is no newline behind the cursor, on any other there is.
pub proof fn lemma_newlines_behind(t: Seq<u8>, c: int)
    requires
        0 <= c <= t.len(),
    ensures
        (newlines(t.subrange(c, t.len() as int)) == 0) == (line_end(t, c) >= t.len()),
{
    let len = t.len() as int;
    let e = line_end(t, c);
    lemma_line_end_free(t, c);
    if e < len {
        let head = t.subrange(c, e);
        let tail = t.subrange(e + 1, len);
        assert(t.subrange(c, len) =~= head + seq![NEWLINE] + tail);
        lemma_newlines_concat(head + seq![NEWLINE], tail);
        lemma_newlines_concat(head, seq![NEWLINE]);
        lemma_one_newline();
    } else {
        lemma_no_newlines(t.subrange(c, len));
    }
}

/// The smaller of two numbers.
pub open spec fn at_most(a: nat, b: nat) -> nat {
    if a < b {
        a
    } else {
        b
    }
}

proof fn lemma_joined_times(m: AreaView, at: Option<int>, n: nat)
    requires
        buffer_ok(m.buf),
        joins_clear(m, n),
    ensures
        ({
            let t = m.buf.text;
            let (after, last) = joined_times(m, at, n);
            let k = at_most(n, newlines(t.subrange(m.buf.cursor, t.len() as int)));
            &&& newlines(after.buf.text) + k == newlines(t)
            &&& blacks(after.buf.text) == blacks(t)
            &&& last is Some <==> at is Some || k > 0
        }),
    decreases n,
{
    let t = m.buf.text;
    let eol = line_end(t, m.buf.cursor);
    lemma_newlines_behind(t, m.buf.cursor);
    if n > 0 && eol < t.len() {
        assert(joins_clear(m, 1)) by {
            assert(joins_clear(joined_once(m), 0));
        }
        lemma_joined_once(m);
        lemma_joined_times(joined_once(m), Some(eol), (n - 1) as nat);
    }
}

/// Without elements none is in the way of a join.
proof fn lemma_joins_clear(m: AreaView, n: nat)
    requires
        m.buf.elements.len() == 0,
    ensures
        joins_clear(m, n),
    decreases n,
{
    if n > 0 {
        assert(joined_once(m).buf.elements.len() == 0) by {
            reveal(raw_edit);
        }
        lemma_joins_clear(joined_once(m), (n - 1) as nat);
    }
}

/// Joining takes away as many newlines as lines are joined, one less than are counted or as many as
/// there are from the cursor on; whatever is not whitespace stays as it was; and something was
/// joined exactly when a newline went. This holds of texts without elements, and wherever none is
/// in the way.
pub proof fn law_join_takes_newlines(m: AreaView, count: nat)
    requires
        buffer_ok(m.buf),
        m.buf.elements.len() == 0 || joins_clear(m, less_one(count)),
    ensures
        ({
            let t = m.buf.text;
            let (after, done) = lines_joined(m, count);
            let k = at_most(
                less_one(count),
                newlines(t.subrange(m.buf.cursor, t.len() as int)),
            );
            &&& newlines(after.buf.text) + k == newlines(t)
            &&& blacks(after.buf.text) == blacks(t)
            &&& done <==> k > 0
        }),
{
    reveal(lines_joined);
    if m.buf.elements.len() == 0 {
        lemma_joins_clear(m, less_one(count));
    }
    lemma_joined_times(m, None, less_one(count));
}

} // verus!
