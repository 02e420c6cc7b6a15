//! What quoted and bracketed text objects promise.

use crate::buffer::{covered, ElementView};
use crate::lines::{lemma_line_end, lemma_line_start, line_end, line_start};
use crate::object_laws::law_selected_pair_is_innermost;
use crate::text::{
    after_char, before_char, char_at, char_width, is_pos, lemma_ascii, lemma_before_char,
    lemma_char, lemma_char_interior, lemma_zero_pos,
};
use crate::text_objects::{
    backslashes, closes_around, object_range, open_quote, pair_from, quote_at, quotes_from,
    unmatched,
};
use crate::vim::{VimTextObject, VimTextObjectScope};
use vstd::prelude::*;
use vstd::utf8::*;

verus! {

/// Exactly `k` backslashes stand before `p`.
pub open spec fn backslashes_before(t: Seq<u8>, p: int, k: int) -> bool {
    &&& 0 <= k <= p
    &&& forall|j: int| p - k <= j < p ==> t[j] == 0x5c
    &&& k < p ==> t[p - k - 1] != 0x5c
}

/// The byte `b` stands at `p`, outside elements and not escaped: an even number of backslashes is
/// before it.
pub open spec fn mark_at(t: Seq<u8>, es: Seq<ElementView>, b: u8, p: int) -> bool {
    &&& 0 <= p < t.len()
    &&& t[p] == b
    &&& !covered(es, p)
    &&& forall|k: int| #[trigger] backslashes_before(t, p, k) ==> k % 2 == 0
}

/// How many such marks are in `a..z`.
pub open spec fn marks_in(t: Seq<u8>, es: Seq<ElementView>, b: u8, a: int, z: int) -> nat
    decreases z - a,
{
    if z <= a {
        0
    } else {
        marks_in(t, es, b, a, z - 1) + if mark_at(t, es, b, z - 1) {
            1nat
        } else {
            0
        }
    }
}

/// The marks at `o` and `x` are a pair on the line `bol..eol`: they follow one another, and an even
/// number of marks comes before them on the line.
pub open spec fn quote_pair(
    t: Seq<u8>,
    es: Seq<ElementView>,
    b: u8,
    bol: int,
    eol: int,
    o: int,
    x: int,
) -> bool {
    &&& bol <= o < x < eol
    &&& mark_at(t, es, b, o)
    &&& mark_at(t, es, b, x)
    &&& marks_in(t, es, b, bol, o) % 2 == 0
    &&& marks_in(t, es, b, o + 1, x) == 0
}

proof fn lemma_marks_add(t: Seq<u8>, es: Seq<ElementView>, b: u8, a: int, m: int, z: int)
    requires
        a <= m <= z,
    ensures
        marks_in(t, es, b, a, z) == marks_in(t, es, b, a, m) + marks_in(t, es, b, m, z),
    decreases z - m,
{
    if m < z {
        lemma_marks_add(t, es, b, a, m, z - 1);
    }
}

/// Without marks there is none.
proof fn lemma_no_marks(t: Seq<u8>, es: Seq<ElementView>, b: u8, a: int, z: int, p: int)
    requires
        a <= p < z,
        marks_in(t, es, b, a, z) == 0,
    ensures
        !mark_at(t, es, b, p),
{
    lemma_marks_add(t, es, b, a, p, z);
    lemma_marks_add(t, es, b, p, p + 1, z);
    assert(marks_in(t, es, b, p, p) == 0);
}

proof fn lemma_backslashes(t: Seq<u8>, p: int)
    requires
        0 <= p <= t.len(),
    ensures
        backslashes_before(t, p, backslashes(t, p) as int),
    decreases p,
{
    if p > 0 && t[p - 1] == 0x5c {
        lemma_backslashes(t, p - 1);
    }
}

proof fn lemma_backslashes_once(t: Seq<u8>, p: int, k: int)
    requires
        0 <= p <= t.len(),
        backslashes_before(t, p, k),
    ensures
        k == backslashes(t, p),
{
    lemma_backslashes(t, p);
    let n = backslashes(t, p) as int;
    if k < n {
        assert(t[p - k - 1] == 0x5c);
    } else if n < k {
        assert(t[p - n - 1] == 0x5c);
    }
}

/// A quote is a mark.
proof fn lemma_quote_is_mark(t: Seq<u8>, es: Seq<ElementView>, quote: char, b: u8, p: int)
    requires
        valid_utf8(t),
        is_pos(t, p),
        p < t.len(),
        quote as u32 == b as u32,
        b < 0x80,
    ensures
        quote_at(t, es, quote, p) == mark_at(t, es, b, p),
{
    lemma_backslashes(t, p);
    assert forall|k: int| #[trigger] backslashes_before(t, p, k) implies k == backslashes(t, p) by {
        lemma_backslashes_once(t, p, k);
    }
    lemma_ascii_here(t, p, quote, b);
}

/// An ASCII character stands at a boundary exactly when its byte does.
proof fn lemma_ascii_here(t: Seq<u8>, p: int, c: char, b: u8)
    requires
        valid_utf8(t),
        is_pos(t, p),
        p < t.len(),
        c as u32 == b as u32,
        b < 0x80,
    ensures
        (char_at(t, p) == c) == (t[p] == b),
{
    lemma_char(t, p);
    if t[p] < 0x80 {
        lemma_ascii(t, p);
    } else {
        // A character of more than one byte is no ASCII character.
        if char_at(t, p) == c {
            assert(char_width(c) == 1) by {
                assert(encode_scalar(c as u32).len() == 1);
            }
        }
    }
}

/// No mark lies strictly inside a character.
proof fn lemma_interior_marks(t: Seq<u8>, es: Seq<ElementView>, b: u8, p: int, z: int)
    requires
        valid_utf8(t),
        is_pos(t, p),
        p < t.len(),
        p < z <= after_char(t, p),
        b < 0x80,
    ensures
        marks_in(t, es, b, p + 1, z) == 0,
    decreases z - p,
{
    lemma_char(t, p);
    if z > p + 1 {
        lemma_interior_marks(t, es, b, p, z - 1);
        assert(is_continuation_byte(t[z - 1]));
    }
}

/// Over one character there is one mark, or none.
proof fn lemma_marks_over(t: Seq<u8>, es: Seq<ElementView>, b: u8, a: int, p: int)
    requires
        valid_utf8(t),
        is_pos(t, p),
        a <= p < t.len(),
        b < 0x80,
    ensures
        marks_in(t, es, b, a, after_char(t, p)) == marks_in(t, es, b, a, p) + if mark_at(
            t,
            es,
            b,
            p,
        ) {
            1nat
        } else {
            0
        },
{
    let z = after_char(t, p);
    lemma_char(t, p);
    lemma_interior_marks(t, es, b, p, z);
    lemma_marks_add(t, es, b, a, p + 1, z);
}

/// The open quote at `p` is the last mark, if the number of marks is odd.
proof fn lemma_open_quote_marks(
    t: Seq<u8>,
    es: Seq<ElementView>,
    quote: char,
    b: u8,
    bol: int,
    p: int,
)
    requires
        valid_utf8(t),
        is_pos(t, bol),
        is_pos(t, p),
        bol <= p,
        quote as u32 == b as u32,
        b < 0x80,
    ensures
        match open_quote(t, es, quote, bol, p) {
            Some(o) => {
                &&& bol <= o < p
                &&& mark_at(t, es, b, o)
                &&& marks_in(t, es, b, bol, o) % 2 == 0
                &&& marks_in(t, es, b, o + 1, p) == 0
                &&& marks_in(t, es, b, bol, p) % 2 == 1
            },
            None => marks_in(t, es, b, bol, p) % 2 == 0,
        },
    decreases p,
{
    if p > bol {
        let q = before_char(t, p);
        lemma_before_char(t, p);
        if q < bol {
            lemma_char_interior(t, q, bol);
        }
        lemma_open_quote_marks(t, es, quote, b, bol, q);
        lemma_quote_is_mark(t, es, quote, b, q);
        lemma_marks_over(t, es, b, bol, q);
        match open_quote(t, es, quote, bol, q) {
            Some(o) => {
                lemma_marks_over(t, es, b, o + 1, q);
            },
            None => {
                lemma_interior_marks(t, es, b, q, p);
            },
        }
    }
}

/// The scan finds the pair around `c` that closes from `p` on.
proof fn lemma_quotes_found(
    t: Seq<u8>,
    es: Seq<ElementView>,
    quote: char,
    b: u8,
    bol: int,
    eol: int,
    c: int,
    p: int,
    o: int,
    x: int,
)
    requires
        valid_utf8(t),
        is_pos(t, bol),
        is_pos(t, p),
        bol <= p <= x,
        eol <= t.len(),
        quote as u32 == b as u32,
        b < 0x80,
        quote_pair(t, es, b, bol, eol, o, x),
        o <= c <= x,
    ensures
        quotes_from(t, es, quote, bol, eol, c, p) == Some((o, x)),
    decreases x - p,
{
    lemma_open_quote_marks(t, es, quote, b, bol, p);
    lemma_quote_is_mark(t, es, quote, b, p);
    let open = open_quote(t, es, quote, bol, p);
    lemma_marks_add(t, es, b, bol, o, x);
    lemma_marks_add(t, es, b, o, o + 1, x);
    assert(marks_in(t, es, b, o, o) == 0);
    if p == x {
        assert(open is Some);
        let y = open->0;
        if y < o {
            lemma_no_marks(t, es, b, y + 1, x, o);
        } else if o < y {
            lemma_no_marks(t, es, b, o + 1, x, y);
        }
    } else {
        lemma_char(t, p);
        lemma_ascii(t, x);
        if after_char(t, p) > x {
            lemma_char_interior(t, p, x);
        }
        if open is Some && quote_at(t, es, quote, p) && open->0 <= c <= p {
            if p > o {
                lemma_no_marks(t, es, b, o + 1, x, p);
            }
        }
        lemma_quotes_found(t, es, quote, b, bol, eol, c, after_char(t, p), o, x);
    }
}

/// What the scan finds is a pair around `c`.
proof fn lemma_quotes_pair(
    t: Seq<u8>,
    es: Seq<ElementView>,
    quote: char,
    b: u8,
    bol: int,
    eol: int,
    c: int,
    p: int,
)
    requires
        valid_utf8(t),
        is_pos(t, bol),
        is_pos(t, p),
        bol <= p,
        is_pos(t, eol),
        quote as u32 == b as u32,
        b < 0x80,
    ensures
        quotes_from(t, es, quote, bol, eol, c, p) matches Some((o, x)) ==> quote_pair(
            t,
            es,
            b,
            bol,
            eol,
            o,
            x,
        ) && o <= c <= x,
    decreases eol - p,
{
    if p < eol {
        lemma_open_quote_marks(t, es, quote, b, bol, p);
        lemma_quote_is_mark(t, es, quote, b, p);
        lemma_char(t, p);
        if after_char(t, p) > eol {
            lemma_char_interior(t, p, eol);
        }
        lemma_quotes_pair(t, es, quote, b, bol, eol, c, after_char(t, p));
    }
}

/// The byte of a quote object.
pub open spec fn quote_byte(object: VimTextObject) -> Option<u8> {
    match object {
        VimTextObject::DoubleQuote => Some(0x22),
        VimTextObject::SingleQuote => Some(0x27),
        VimTextObject::Backtick => Some(0x60),
        _ => None,
    }
}

/// The quotes of a line are paired from its start, and a quote object is the pair around the
/// cursor: what is between them, or that with the quotes. Without such a pair there is none.
pub proof fn law_quotes_are_paired_along_the_line(
    t: Seq<u8>,
    es: Seq<ElementView>,
    c: int,
    object: VimTextObject,
)
    requires
        valid_utf8(t),
        is_pos(t, c),
        quote_byte(object) is Some,
    ensures
        ({
            let b = quote_byte(object)->0;
            let bol = line_start(t, c);
            let eol = line_end(t, c);
            let inner = object_range(t, es, c, object, VimTextObjectScope::Inner);
            let around = object_range(t, es, c, object, VimTextObjectScope::Around);
            &&& forall|o: int, x: int| #[trigger]
                quote_pair(t, es, b, bol, eol, o, x) && o <= c <= x ==> inner == Some((o + 1, x))
                    && around == Some((o, x + 1))
            &&& inner is Some || around is Some ==> exists|o: int, x: int| #[trigger]
                quote_pair(t, es, b, bol, eol, o, x) && o <= c <= x
        }),
{
    let b = quote_byte(object)->0;
    let quote = match object {
        VimTextObject::DoubleQuote => '"',
        VimTextObject::SingleQuote => '\'',
        _ => '`',
    };
    let bol = line_start(t, c);
    let eol = line_end(t, c);
    lemma_line_start(t, c);
    lemma_line_end(t, c);
    assert(char_width(quote) == 1);
    lemma_quotes_pair(t, es, quote, b, bol, eol, c, bol);
    assert forall|o: int, x: int| #[trigger]
        quote_pair(t, es, b, bol, eol, o, x) && o <= c <= x implies quotes_from(
        t,
        es,
        quote,
        bol,
        eol,
        c,
        bol,
    ) == Some((o, x)) by {
        lemma_quotes_found(t, es, quote, b, bol, eol, c, bol, o, x);
    }
    match quotes_from(t, es, quote, bol, eol, c, bol) {
        Some((o, x)) => {
            assert(quote_pair(t, es, b, bol, eol, o, x));
        },
        None => {},
    }
}

/// The byte `b` stands at `p` outside elements.
pub open spec fn stands_at(t: Seq<u8>, es: Seq<ElementView>, b: u8, p: int) -> bool {
    0 <= p < t.len() && t[p] == b && !covered(es, p)
}

/// How many more opening than closing brackets are in `a..z`, outside elements.
pub open spec fn depth(t: Seq<u8>, es: Seq<ElementView>, ob: u8, cb: u8, a: int, z: int) -> int
    decreases z - a,
{
    if z <= a {
        0
    } else {
        depth(t, es, ob, cb, a, z - 1) + if stands_at(t, es, ob, z - 1) {
            1int
        } else if stands_at(t, es, cb, z - 1) {
            -1
        } else {
            0
        }
    }
}

/// From `a` on, no bracket in `a..z` closes one from before `a`.
pub open spec fn stays_open(
    t: Seq<u8>,
    es: Seq<ElementView>,
    ob: u8,
    cb: u8,
    a: int,
    z: int,
) -> bool {
    forall|k: int| a <= k <= z ==> #[trigger] depth(t, es, ob, cb, a, k) >= 0
}

/// The bracket at `o` is closed by the one at `x`: as many open as close between them, and never
/// more close.
pub open spec fn bracket_pair(
    t: Seq<u8>,
    es: Seq<ElementView>,
    ob: u8,
    cb: u8,
    o: int,
    x: int,
) -> bool {
    &&& o < x
    &&& stands_at(t, es, ob, o)
    &&& stands_at(t, es, cb, x)
    &&& depth(t, es, ob, cb, o + 1, x) == 0
    &&& stays_open(t, es, ob, cb, o + 1, x)
}

/// The depth does not change inside a character.
proof fn lemma_interior_depth(
    t: Seq<u8>,
    es: Seq<ElementView>,
    ob: u8,
    cb: u8,
    a: int,
    p: int,
    z: int,
)
    requires
        valid_utf8(t),
        is_pos(t, p),
        p < t.len(),
        p < z <= after_char(t, p),
        a <= p + 1,
        ob < 0x80,
        cb < 0x80,
    ensures
        depth(t, es, ob, cb, a, z) == depth(t, es, ob, cb, a, p + 1),
    decreases z - p,
{
    lemma_char(t, p);
    if z > p + 1 {
        lemma_interior_depth(t, es, ob, cb, a, p, z - 1);
        assert(is_continuation_byte(t[z - 1]));
    }
}

/// Going over one more character keeps brackets open that it does not close.
proof fn lemma_stays_open_on(
    t: Seq<u8>,
    es: Seq<ElementView>,
    ob: u8,
    cb: u8,
    a: int,
    q: int,
    p: int,
)
    requires
        valid_utf8(t),
        is_pos(t, q),
        q < t.len(),
        p == after_char(t, q),
        a <= q,
        ob < 0x80,
        cb < 0x80,
        stays_open(t, es, ob, cb, a, q),
        depth(t, es, ob, cb, a, q + 1) >= 0,
    ensures
        stays_open(t, es, ob, cb, a, p),
{
    assert forall|k: int| a <= k <= p implies #[trigger] depth(t, es, ob, cb, a, k) >= 0 by {
        if k > q {
            lemma_interior_depth(t, es, ob, cb, a, q, k);
        }
    }
}

/// Each unmatched bracket is open, and those behind it count its depth.
proof fn lemma_unmatched_depth(
    t: Seq<u8>,
    es: Seq<ElementView>,
    open: char,
    close: char,
    ob: u8,
    cb: u8,
    p: int,
)
    requires
        valid_utf8(t),
        is_pos(t, p),
        open as u32 == ob as u32,
        close as u32 == cb as u32,
        ob < 0x80,
        cb < 0x80,
        ob != cb,
    ensures
        forall|i: int|
            0 <= i < unmatched(t, es, open, close, p).len() ==> {
                let o = #[trigger] unmatched(t, es, open, close, p)[i];
                &&& o < p
                &&& stands_at(t, es, ob, o)
                &&& stays_open(t, es, ob, cb, o + 1, p)
                &&& depth(t, es, ob, cb, o + 1, p) == unmatched(t, es, open, close, p).len() - 1 - i
            },
    decreases p,
{
    if p > 0 {
        let q = before_char(t, p);
        lemma_before_char(t, p);
        lemma_unmatched_depth(t, es, open, close, ob, cb, q);
        lemma_ascii_here(t, q, open, ob);
        lemma_ascii_here(t, q, close, cb);
        let before = unmatched(t, es, open, close, q);
        let now = unmatched(t, es, open, close, p);
        assert forall|i: int| 0 <= i < now.len() implies {
            let o = #[trigger] now[i];
            &&& o < p
            &&& stands_at(t, es, ob, o)
            &&& stays_open(t, es, ob, cb, o + 1, p)
            &&& depth(t, es, ob, cb, o + 1, p) == now.len() - 1 - i
        } by {
            let o = now[i];
            if i < before.len() {
                assert(o == before[i]);
                lemma_interior_depth(t, es, ob, cb, o + 1, q, p);
                lemma_stays_open_on(t, es, ob, cb, o + 1, q, p);
            } else {
                assert(o == q);
                lemma_interior_depth(t, es, ob, cb, o + 1, q, p);
                assert forall|k: int| o + 1 <= k <= p implies #[trigger] depth(
                    t,
                    es,
                    ob,
                    cb,
                    o + 1,
                    k,
                ) >= 0 by {
                    lemma_interior_depth(t, es, ob, cb, o + 1, q, k);
                }
            }
        }
    }
}

/// An opening bracket that stays open is unmatched.
proof fn lemma_open_is_unmatched(
    t: Seq<u8>,
    es: Seq<ElementView>,
    open: char,
    close: char,
    ob: u8,
    cb: u8,
    o: int,
    p: int,
)
    requires
        valid_utf8(t),
        is_pos(t, p),
        open as u32 == ob as u32,
        close as u32 == cb as u32,
        ob < 0x80,
        cb < 0x80,
        ob != cb,
        o < p,
        stands_at(t, es, ob, o),
        stays_open(t, es, ob, cb, o + 1, p),
    ensures
        ({
            let s = unmatched(t, es, open, close, p);
            let i = s.len() - 1 - depth(t, es, ob, cb, o + 1, p);
            0 <= i < s.len() && s[i] == o
        }),
    decreases p,
{
    let q = before_char(t, p);
    lemma_before_char(t, p);
    lemma_ascii(t, o);
    lemma_ascii_here(t, q, open, ob);
    lemma_ascii_here(t, q, close, cb);
    if q < o {
        lemma_char_interior(t, q, o);
    }
    lemma_interior_depth(t, es, ob, cb, o + 1, q, p);
    assert(depth(t, es, ob, cb, o + 1, p) >= 0);
    let before = unmatched(t, es, open, close, q);
    let now = unmatched(t, es, open, close, p);
    if q > o {
        assert(stays_open(t, es, ob, cb, o + 1, q));
        lemma_open_is_unmatched(t, es, open, close, ob, cb, o, q);
        assert(depth(t, es, ob, cb, o + 1, q) >= 0);
        let i = before.len() - 1 - depth(t, es, ob, cb, o + 1, q);
        assert(before[i] == o);
        assert(now[i] == o);
    } else {
        assert(now == before.push(o));
    }
}

/// What the scan finds closes around `c`.
proof fn lemma_pair_closes(
    t: Seq<u8>,
    es: Seq<ElementView>,
    open: char,
    close: char,
    c: int,
    p: int,
)
    requires
        valid_utf8(t),
        is_pos(t, p),
    ensures
        pair_from(t, es, open, close, c, p) matches Some((o, x)) ==> {
            &&& is_pos(t, x)
            &&& x < t.len()
            &&& closes_around(t, es, open, close, c, x)
            &&& o == unmatched(t, es, open, close, x).last()
        },
    decreases t.len() - p,
{
    if p < t.len() && !closes_around(t, es, open, close, c, p) {
        lemma_char(t, p);
        lemma_pair_closes(t, es, open, close, c, after_char(t, p));
    }
}

/// The bytes of a bracket object.
pub open spec fn bracket_bytes(object: VimTextObject) -> Option<(u8, u8)> {
    match object {
        VimTextObject::Parentheses => Some((0x28, 0x29)),
        VimTextObject::Brackets => Some((0x5b, 0x5d)),
        VimTextObject::Braces => Some((0x7b, 0x7d)),
        _ => None,
    }
}

/// A bracket object is the innermost pair of matching brackets around the cursor: what is between
/// them, or that with the brackets. Without a pair around the cursor there is none.
pub proof fn law_brackets_match_around_the_cursor(
    t: Seq<u8>,
    es: Seq<ElementView>,
    c: int,
    object: VimTextObject,
)
    requires
        valid_utf8(t),
        bracket_bytes(object) is Some,
    ensures
        ({
            let (ob, cb) = bracket_bytes(object)->0;
            let inner = object_range(t, es, c, object, VimTextObjectScope::Inner);
            let around = object_range(t, es, c, object, VimTextObjectScope::Around);
            match inner {
                Some((a, z)) => {
                    &&& around == Some((a - 1, z + 1))
                    &&& bracket_pair(t, es, ob, cb, a - 1, z)
                    &&& a - 1 <= c <= z
                    &&& forall|o: int, x: int| #[trigger]
                        bracket_pair(t, es, ob, cb, o, x) && o <= c <= x ==> o <= a - 1 && z <= x
                },
                None => {
                    &&& around is None
                    &&& forall|o: int, x: int| #[trigger]
                        bracket_pair(t, es, ob, cb, o, x) ==> !(o <= c <= x)
                },
            }
        }),
{
    let (ob, cb) = bracket_bytes(object)->0;
    let (open, close) = match object {
        VimTextObject::Parentheses => ('(', ')'),
        VimTextObject::Brackets => ('[', ']'),
        _ => ('{', '}'),
    };
    assert(char_width(open) == 1 && char_width(close) == 1);
    lemma_zero_pos(t);
    lemma_pair_closes(t, es, open, close, c, 0);
    let found = pair_from(t, es, open, close, c, 0);
    match found {
        Some((a, z)) => {
            lemma_unmatched_depth(t, es, open, close, ob, cb, z);
            let s = unmatched(t, es, open, close, z);
            assert(s[s.len() - 1] == a);
            lemma_ascii_here(t, z, close, cb);
            assert(bracket_pair(t, es, ob, cb, a, z));
        },
        None => {},
    }
    assert forall|o: int, x: int| #[trigger]
        bracket_pair(t, es, ob, cb, o, x) && o <= c <= x implies found is Some && o <= (
    found->0).0 && (found->0).1 <= x by {
        lemma_ascii(t, x);
        lemma_open_is_unmatched(t, es, open, close, ob, cb, o, x);
        lemma_ascii_here(t, x, close, cb);
        lemma_ascii_here(t, x, open, ob);
        assert(unmatched(t, es, open, close, x).last() == o);
        assert(closes_around(t, es, open, close, c, x));
        law_selected_pair_is_innermost(t, es, open, close, c, x);
    }
}

} // verus!
