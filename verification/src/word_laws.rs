//! Where words lie: what separates them, and what the word objects and motions reach.

use crate::buffer::{
    covered, covers_at, elements_ok, inside, inside_at, lemma_cover, lemma_edges,
    lemma_next_atomic, lemma_snap, next_atomic, prev_atomic, snap_end, snap_start, ElementView,
};
use crate::edit_laws::law_whitespace_is_skipped;
use crate::lines::{
    black_start, lemma_line_end, lemma_line_end_free, lemma_skip_black, lemma_skip_white,
    line_end, skip_black, skip_white, white_start,
};
use crate::motion_laws::{blank_at, walk};
use crate::operators::{operator_end, reaches};
use crate::segment::{next_grapheme, prev_grapheme, word_starts};
use crate::text::{
    after_char, before_char, is_pos, lemma_before_char, lemma_char, lemma_char_interior,
    lemma_zero_pos, white_at,
};
use crate::text_objects::word_object;
use crate::vim::{VimMotion, VimOperator, VimTextObjectScope};
use crate::words::{
    big_word_end, big_word_end_cursor, lemma_black_start_moves, lemma_piece_end,
    lemma_skip_black_moves, lemma_skip_white_stop, next_word_from, piece_around, piece_break,
    piece_end, run_around, run_starts, runs_from, separator_at, separators_end,
    separators_start, skip_big, touches, word_end_cursor, word_end_from, word_start_before,
};
use vstd::prelude::*;
use vstd::utf8::*;

verus! {

/// Every character that starts in `a..z` is whitespace, or none is.
pub open spec fn all_white(t: Seq<u8>, a: int, z: int, white: bool) -> bool {
    forall|q: int| a <= q < z && #[trigger] is_pos(t, q) ==> white_at(t, q) == white
}

/// Skipping what is not whitespace goes over all of it, and over nothing else.
pub proof fn law_text_is_skipped(t: Seq<u8>, p: int, limit: int)
    requires
        valid_utf8(t),
        is_pos(t, p),
        is_pos(t, limit),
        p <= limit,
    ensures
        p <= skip_black(t, p, limit) <= limit,
        all_white(t, p, skip_black(t, p, limit), false),
        skip_black(t, p, limit) < limit ==> white_at(t, skip_black(t, p, limit)),
    decreases limit - p,
{
    lemma_skip_black(t, p, limit);
    if p < limit && !white_at(t, p) {
        lemma_char(t, p);
        let n = after_char(t, p);
        if n > limit {
            lemma_char_interior(t, p, limit);
        }
        law_text_is_skipped(t, n, limit);
        assert forall|q: int|
            p <= q < skip_black(t, p, limit) && #[trigger] is_pos(t, q) implies !white_at(
            t,
            q,
        ) by {
            if p < q < n {
                lemma_char_interior(t, p, q);
            }
        }
    }
}

/// The character before `p` is the only one that starts from there on.
proof fn lemma_between(t: Seq<u8>, p: int, q: int)
    requires
        valid_utf8(t),
        is_pos(t, p),
        0 < p,
        is_pos(t, q),
        before_char(t, p) <= q < p,
    ensures
        q == before_char(t, p),
{
    lemma_before_char(t, p);
    if q > before_char(t, p) {
        lemma_char_interior(t, before_char(t, p), q);
    }
}

/// Going back over whitespace, or over anything else, goes over all of it and over nothing else.
pub proof fn law_going_back(t: Seq<u8>, p: int)
    requires
        valid_utf8(t),
        is_pos(t, p),
    ensures
        0 <= white_start(t, p) <= p,
        is_pos(t, white_start(t, p)),
        all_white(t, white_start(t, p), p, true),
        white_start(t, p) > 0 ==> !white_at(t, before_char(t, white_start(t, p))),
        0 <= black_start(t, p) <= p,
        is_pos(t, black_start(t, p)),
        all_white(t, black_start(t, p), p, false),
        black_start(t, p) > 0 ==> white_at(t, before_char(t, black_start(t, p))),
    decreases p,
{
    if p > 0 {
        lemma_before_char(t, p);
        let b = before_char(t, p);
        law_going_back(t, b);
        assert forall|q: int| b <= q < p && #[trigger] is_pos(t, q) implies q == b by {
            lemma_between(t, p, q);
        }
    } else {
        lemma_zero_pos(t);
    }
}

/// A run that `c` touches is as wide as can be.
pub open spec fn widest_run(t: Seq<u8>, a: int, z: int) -> bool {
    &&& 0 <= a < z <= t.len()
    &&& is_pos(t, a)
    &&& is_pos(t, z)
    &&& all_white(t, a, z, false)
    &&& a > 0 ==> white_at(t, before_char(t, a))
    &&& z < t.len() ==> white_at(t, z)
}

proof fn lemma_run(t: Seq<u8>, p: int, c: int)
    requires
        valid_utf8(t),
        is_pos(t, p),
        is_pos(t, c),
        p == 0 && c >= 0 || p < c && (p < t.len() ==> white_at(t, p)),
    ensures
        ({
            match run_around(runs_from(t, p), c) {
                Some((a, z)) => widest_run(t, a, z) && a <= c <= z,
                None => (c < t.len() ==> white_at(t, c)) && (c > 0 ==> white_at(
                    t,
                    before_char(t, c),
                )),
            }
        }),
    decreases t.len() - p,
{
    let len = t.len() as int;
    let runs = runs_from(t, p);
    let a = skip_white(t, p, len);
    let z = skip_black(t, a, len);
    lemma_skip_white(t, p, len);
    law_whitespace_is_skipped(t, p, len);
    if c > 0 {
        lemma_before_char(t, c);
        if before_char(t, c) < p < c {
            lemma_between(t, c, p);
        }
    }
    if a < len {
        lemma_skip_white_stop(t, p, len);
        lemma_skip_black_moves(t, a, len);
        law_text_is_skipped(t, a, len);
        assert(runs[0] == (a, z));
        assert(runs.drop_first() =~= runs_from(t, z));
        if a > 0 {
            lemma_before_char(t, a);
            if a > p && before_char(t, a) < p {
                lemma_between(t, a, p);
            }
        }
        assert(widest_run(t, a, z));
        if !touches((a, z), c) {
            if c > z {
                lemma_run(t, z, c);
            } else {
                lemma_later_runs(t, z, c);
            }
        }
    }
}

/// No later run touches an earlier place.
proof fn lemma_later_runs(t: Seq<u8>, p: int, c: int)
    requires
        valid_utf8(t),
        is_pos(t, p),
        c < p,
    ensures
        run_around(runs_from(t, p), c) is None,
    decreases t.len() - p,
{
    let len = t.len() as int;
    let a = skip_white(t, p, len);
    let z = skip_black(t, a, len);
    lemma_skip_white(t, p, len);
    if a < len {
        lemma_skip_white_stop(t, p, len);
        lemma_skip_black_moves(t, a, len);
        assert(runs_from(t, p)[0] == (a, z));
        assert(runs_from(t, p).drop_first() =~= runs_from(t, z));
        lemma_later_runs(t, z, c);
    }
}

/// The WORD at the cursor is the widest run without whitespace that the cursor is in or right
/// behind, and there is none only if the cursor is at no such run.
pub proof fn law_big_words_are_whole_runs(t: Seq<u8>, c: int)
    requires
        valid_utf8(t),
        is_pos(t, c),
    ensures
        match word_object(t, c, VimTextObjectScope::Inner, true) {
            Some((a, z)) => widest_run(t, a, z) && a <= c <= z,
            None => (c < t.len() ==> white_at(t, c)) && (c > 0 ==> white_at(t, before_char(t, c))),
        },
{
    lemma_zero_pos(t);
    lemma_run(t, 0, c);
}

/// Around a word there is also the whitespace behind it, all of it, or where there is none, all the
/// whitespace before it.
pub proof fn law_words_take_their_whitespace(t: Seq<u8>, c: int, big: bool)
    requires
        valid_utf8(t),
        is_pos(t, c),
    ensures
        ({
            let inner = word_object(t, c, VimTextObjectScope::Inner, big);
            let around = word_object(t, c, VimTextObjectScope::Around, big);
            &&& inner is Some <==> around is Some
            &&& inner matches Some((a, z)) ==> {
                let (x, y) = around->0;
                &&& x <= a <= z <= y <= t.len()
                &&& all_white(t, x, a, true)
                &&& all_white(t, z, y, true)
                &&& if z < t.len() && white_at(t, z) {
                    x == a && z < y && (y < t.len() ==> !white_at(t, y))
                } else {
                    y == z && (x > 0 ==> !white_at(t, before_char(t, x)))
                }
            }
        }),
{
    let len = t.len() as int;
    law_small_words_are_pieces(t, c);
    law_big_words_are_whole_runs(t, c);
    match word_object(t, c, VimTextObjectScope::Inner, big) {
        Some((a, z)) => {
            law_whitespace_is_skipped(t, z, len);
            law_going_back(t, a);
            if z < len && white_at(t, z) {
                lemma_char(t, z);
                lemma_skip_white(t, after_char(t, z), len);
            }
        },
        None => {},
    }
}

/// Whether a word ends and another one starts at `q` in the run `a..z`: words of the text as
/// Unicode divides it, and punctuation apart from everything else.
pub open spec fn parts(t: Seq<u8>, a: int, z: int, q: int) -> bool {
    ||| exists|i: int|
        0 <= i < word_starts(decode_utf8(t.subrange(a, z))).len() && a
            + #[trigger] word_starts(decode_utf8(t.subrange(a, z)))[i] == q
    ||| punctuation(t, q) != punctuation(t, before_char(t, q))
}

/// ASCII punctuation, but not the underscore, which belongs to words.
pub open spec fn punctuation(t: Seq<u8>, q: int) -> bool {
    let c = crate::text::char_at(t, q);
    &&& '!' <= c <= '~'
    &&& !('0' <= c <= '9')
    &&& !('A' <= c <= 'Z')
    &&& !('a' <= c <= 'z')
    &&& c != '_'
}

proof fn lemma_parts(t: Seq<u8>, a: int, z: int)
    ensures
        forall|q: int| #[trigger] punctuation(t, q) == separator_at(t, q),
        forall|q: int| #[trigger] parts(t, a, z, q) == piece_break(t, run_starts(t, a, z), a, q),
{
    assert forall|q: int| #[trigger] punctuation(t, q) == separator_at(t, q) by {
        let c = crate::text::char_at(t, q);
        assert(c as u32 <= 0x10ffff);
    }
    let s = run_starts(t, a, z);
    assert forall|q: int| #[trigger] parts(t, a, z, q) == piece_break(t, s, a, q) by {
        assert(punctuation(t, q) == separator_at(t, q));
        let b = before_char(t, q);
        assert(punctuation(t, b) == separator_at(t, b));
        if crate::words::has_start(s, q - a) {
            let i = choose|i: int| 0 <= i < s.len() && #[trigger] s[i] == q - a;
            assert(a + s[i] == q);
        }
    }
}

/// A word ends at the first part behind it.
proof fn lemma_piece_end_is(t: Seq<u8>, starts: Seq<usize>, a: int, z: int, p: int)
    requires
        valid_utf8(t),
        is_pos(t, p),
        is_pos(t, z),
        p < z,
    ensures
        ({
            let e = piece_end(t, starts, a, z, p);
            &&& p < e <= z
            &&& is_pos(t, e)
            &&& e < z ==> piece_break(t, starts, a, e)
            &&& forall|q: int| p < q < e && #[trigger] is_pos(t, q) ==> !piece_break(
                t,
                starts,
                a,
                q,
            )
        }),
    decreases z - p,
{
    lemma_piece_end(t, starts, a, z, p);
    lemma_char(t, p);
    let q = after_char(t, p);
    if q < z && !piece_break(t, starts, a, q) {
        lemma_piece_end_is(t, starts, a, z, q);
    }
    let e = piece_end(t, starts, a, z, p);
    assert forall|r: int| p < r < e && #[trigger] is_pos(t, r) implies !piece_break(
        t,
        starts,
        a,
        r,
    ) by {
        if r < q {
            lemma_char_interior(t, p, r);
        }
    }
    if q > z {
        lemma_char_interior(t, p, z);
    }
}

proof fn lemma_piece_around_is(t: Seq<u8>, starts: Seq<usize>, a: int, z: int, p: int, c: int)
    requires
        valid_utf8(t),
        is_pos(t, p),
        is_pos(t, z),
        a <= p < z,
        p <= c <= z,
        p == a || piece_break(t, starts, a, p),
    ensures
        ({
            let (x, y) = piece_around(t, starts, a, z, p, c);
            &&& p <= x <= c <= y <= z
            &&& x < y
            &&& is_pos(t, x)
            &&& is_pos(t, y)
            &&& x == a || piece_break(t, starts, a, x)
            &&& y == z || piece_break(t, starts, a, y)
            &&& c == y ==> y == z
            &&& forall|q: int| x < q < y && #[trigger] is_pos(t, q) ==> !piece_break(
                t,
                starts,
                a,
                q,
            )
        }),
    decreases z - p,
{
    lemma_piece_end_is(t, starts, a, z, p);
    let e = piece_end(t, starts, a, z, p);
    if !(c < e || e >= z || e <= p) {
        lemma_piece_around_is(t, starts, a, z, e, c);
    }
}

/// The word at the cursor is the part of the WORD there that the cursor is in, or the last part of
/// it behind which the cursor is.
pub proof fn law_small_words_are_pieces(t: Seq<u8>, c: int)
    requires
        valid_utf8(t),
        is_pos(t, c),
    ensures
        ({
            let word = word_object(t, c, VimTextObjectScope::Inner, false);
            match word_object(t, c, VimTextObjectScope::Inner, true) {
                None => word is None,
                Some((a, z)) => {
                    &&& word is Some
                    &&& {
                        let (x, y) = word->0;
                        &&& a <= x <= c <= y <= z
                        &&& x < y
                        &&& is_pos(t, x)
                        &&& is_pos(t, y)
                        &&& x > a ==> parts(t, a, z, x)
                        &&& y < z ==> parts(t, a, z, y)
                        &&& c == y ==> y == z
                        &&& forall|q: int|
                            x < q < y && #[trigger] is_pos(t, q) ==> !parts(t, a, z, q)
                    }
                },
            }
        }),
{
    law_big_words_are_whole_runs(t, c);
    match word_object(t, c, VimTextObjectScope::Inner, true) {
        Some((a, z)) => {
            lemma_piece_around_is(t, run_starts(t, a, z), a, z, a, c);
            lemma_parts(t, a, z);
        },
        None => {},
    }
}

proof fn lemma_separators_end(t: Seq<u8>, p: int, z: int)
    requires
        valid_utf8(t),
        is_pos(t, p),
        is_pos(t, z),
        p <= z,
    ensures
        ({
            let e = separators_end(t, p, z);
            &&& p <= e <= z
            &&& is_pos(t, e)
            &&& e < z ==> !separator_at(t, e)
            &&& forall|q: int| p <= q < e && #[trigger] is_pos(t, q) ==> separator_at(t, q)
        }),
    decreases z - p,
{
    if p < z && separator_at(t, p) {
        lemma_char(t, p);
        let n = after_char(t, p);
        if n > z {
            lemma_char_interior(t, p, z);
        }
        lemma_separators_end(t, n, z);
        assert forall|q: int|
            p <= q < separators_end(t, p, z) && #[trigger] is_pos(t, q) implies separator_at(
            t,
            q,
        ) by {
            if p < q < n {
                lemma_char_interior(t, p, q);
            }
        }
    }
}

proof fn lemma_separators_start(t: Seq<u8>, a: int, p: int)
    requires
        valid_utf8(t),
        is_pos(t, a),
        is_pos(t, p),
        a <= p,
    ensures
        ({
            let s = separators_start(t, a, p);
            &&& a <= s <= p
            &&& is_pos(t, s)
            &&& s > a ==> !separator_at(t, before_char(t, s))
            &&& forall|q: int| s <= q < p && #[trigger] is_pos(t, q) ==> separator_at(t, q)
        }),
    decreases p,
{
    if p > a && p > 0 && separator_at(t, before_char(t, p)) {
        lemma_before_char(t, p);
        let b = before_char(t, p);
        if b < a {
            lemma_between(t, p, a);
        }
        lemma_separators_start(t, a, b);
        assert forall|q: int| b <= q < p && #[trigger] is_pos(t, q) implies q == b by {
            lemma_between(t, p, q);
        }
    }
}

/// Outside elements, the end of a word is the end of what is next: whitespace is passed over, and
/// then comes all the punctuation in a row, or a word up to where it parts from what follows.
pub proof fn law_word_ends(t: Seq<u8>, c: int)
    requires
        valid_utf8(t),
        is_pos(t, c),
    ensures
        ({
            let e = word_end_from(t, Seq::empty(), c);
            let len = t.len() as int;
            &&& c <= e <= len
            &&& all_white(t, c, len, true) ==> e == len
            &&& forall|w: int, z: int|
                c <= w < z && all_white(t, c, w, true) && #[trigger] to_the_end_of_run(t, w, z)
                    ==> {
                    &&& w < e <= z
                    &&& if punctuation(t, w) {
                        &&& forall|q: int|
                            w <= q < e && #[trigger] is_pos(t, q) ==> punctuation(t, q)
                        &&& e < z ==> !punctuation(t, e)
                    } else {
                        &&& forall|q: int|
                            w < q < e && #[trigger] is_pos(t, q) ==> !parts(t, w, z, q)
                        &&& e < z ==> parts(t, w, z, e)
                    }
                }
        }),
{
    let len = t.len() as int;
    let es = Seq::<ElementView>::empty();
    lemma_skip_white(t, c, len);
    law_whitespace_is_skipped(t, c, len);
    let w = skip_white(t, c, len);
    if w < len {
        let z = skip_black(t, w, len);
        lemma_skip_black_moves(t, w, len);
        law_text_is_skipped(t, w, len);
        lemma_separators_end(t, w, z);
        lemma_piece_end_is(t, run_starts(t, w, z), w, z, w);
        lemma_parts(t, w, z);
        assert(punctuation(t, w) == separator_at(t, w));
        if separator_at(t, w) {
            lemma_char(t, w);
        }
        lemma_no_elements(word_end_bare(t, c));
        assert forall|w2: int, z2: int|
            c <= w2 < z2 && all_white(t, c, w2, true) && #[trigger] to_the_end_of_run(
                t,
                w2,
                z2,
            ) implies w2 == w && z2 == z by {
            assert(is_pos(t, w2));
            assert(is_pos(t, w));
            assert(!white_at(t, w2));
            assert(w2 == w);
            assert(is_pos(t, z2) && is_pos(t, z));
        }
        let e = word_end_from(t, es, c);
        assert(e < z ==> is_pos(t, e));
        assert(e < z ==> punctuation(t, e) == separator_at(t, e));
        if !separator_at(t, w) && e < z {
            assert(parts(t, w, z, e));
        }
    } else {
        assert forall|w2: int, z2: int|
            c <= w2 < z2 && all_white(t, c, w2, true) && #[trigger] to_the_end_of_run(
                t,
                w2,
                z2,
            ) implies false by {
            assert(is_pos(t, w2));
            assert(white_at(t, w2));
        }
    }
}

/// Where a word ends before elements are looked at.
spec fn word_end_bare(t: Seq<u8>, c: int) -> int {
    let len = t.len() as int;
    let w = skip_white(t, c, len);
    let z = skip_black(t, w, len);
    if separator_at(t, w) {
        separators_end(t, w, z)
    } else {
        piece_end(t, run_starts(t, w, z), w, z, w)
    }
}

/// `w..z` has no whitespace in it, and there is some at its end, or the end of the text.
pub open spec fn to_the_end_of_run(t: Seq<u8>, w: int, z: int) -> bool {
    &&& w < z
    &&& is_pos(t, w)
    &&& is_pos(t, z)
    &&& all_white(t, w, z, false)
    &&& z < t.len() ==> white_at(t, z)
}

/// Without elements every place stays.
proof fn lemma_no_elements(p: int)
    ensures
        snap_end(Seq::empty(), p) == p,
        snap_start(Seq::empty(), p) == p,
{
}

/// Back to the start of a word: over the whitespace before the cursor, and then over all the
/// punctuation in a row, or over a word from where it parts from what is before it.
pub proof fn law_word_starts(t: Seq<u8>, c: int)
    requires
        valid_utf8(t),
        is_pos(t, c),
    ensures
        ({
            let s = word_start_before(t, Seq::empty(), c);
            &&& 0 <= s <= c
            &&& all_white(t, 0, c, true) ==> s == 0
            &&& forall|a: int, z: int|
                z <= c && all_white(t, z, c, true) && #[trigger] from_the_start_of_run(t, a, z)
                    ==> {
                    &&& a <= s < z
                    &&& if punctuation(t, before_char(t, z)) {
                        &&& forall|q: int|
                            s <= q < z && #[trigger] is_pos(t, q) ==> punctuation(t, q)
                        &&& s > a ==> !punctuation(t, before_char(t, s))
                    } else {
                        &&& forall|q: int|
                            s < q < z && #[trigger] is_pos(t, q) ==> !parts(t, a, z, q)
                        &&& s > a ==> parts(t, a, z, s)
                    }
                }
        }),
{
    lemma_zero_pos(t);
    let es = Seq::<ElementView>::empty();
    law_going_back(t, c);
    let z = white_start(t, c);
    if z > 0 {
        lemma_before_char(t, z);
        law_going_back(t, z);
        lemma_black_start_moves(t, c);
        let a = black_start(t, z);
        lemma_separators_start(t, a, z);
        lemma_piece_around_is(t, run_starts(t, a, z), a, z, a, z);
        lemma_parts(t, a, z);
        let b = before_char(t, z);
        assert(punctuation(t, b) == separator_at(t, b));
        lemma_no_elements(separators_start(t, a, z));
        lemma_no_elements(piece_around(t, run_starts(t, a, z), a, z, a, z).0);
        assert(is_pos(t, b) && b < z && !white_at(t, b));
        let s = word_start_before(t, es, c);
        if separator_at(t, b) {
            assert(s < z) by {
                if b < a {
                    lemma_between(t, z, a);
                }
                lemma_separators_start(t, a, b);
            }
        }
        assert(s > a ==> punctuation(t, before_char(t, s)) == separator_at(t, before_char(t, s)));
        if !separator_at(t, b) && s > a {
            assert(parts(t, a, z, s));
        }
        assert forall|a2: int, z2: int|
            z2 <= c && all_white(t, z2, c, true) && #[trigger] from_the_start_of_run(
                t,
                a2,
                z2,
            ) implies a2 == a && z2 == z by {
            lemma_before_char(t, z2);
            let b2 = before_char(t, z2);
            if b2 < a2 {
                lemma_between(t, z2, a2);
            }
            assert(is_pos(t, b2) && !white_at(t, b2));
            assert(z2 == z) by {
                if z2 < z {
                    assert(b >= z2) by {
                        if b < z2 {
                            lemma_between(t, z, z2);
                        }
                    }
                }
                if z < z2 {
                    if b2 < z {
                        lemma_between(t, z2, z);
                    }
                }
            }
            if a2 < a {
                lemma_before_char(t, a);
                let x = before_char(t, a);
                if x < a2 {
                    lemma_between(t, a, a2);
                }
            }
            if a < a2 {
                lemma_before_char(t, a2);
                let x = before_char(t, a2);
                if x < a {
                    lemma_between(t, a2, a);
                }
            }
        }
    } else {
        assert forall|a2: int, z2: int|
            z2 <= c && all_white(t, z2, c, true) && #[trigger] from_the_start_of_run(
                t,
                a2,
                z2,
            ) implies false by {
            assert(is_pos(t, a2) && white_at(t, a2));
        }
    }
}

/// `a..z` has no whitespace in it, and there is some before it, or the start of the text.
pub open spec fn from_the_start_of_run(t: Seq<u8>, a: int, z: int) -> bool {
    &&& a < z
    &&& is_pos(t, a)
    &&& is_pos(t, z)
    &&& all_white(t, a, z, false)
    &&& a > 0 ==> white_at(t, before_char(t, a))
}

/// The next word starts behind the one at the cursor and the whitespace there: a cursor in a word
/// goes over the rest of it first, one in whitespace does not.
pub proof fn law_next_words(t: Seq<u8>, c: int)
    requires
        valid_utf8(t),
        is_pos(t, c),
    ensures
        ({
            let n = next_word_from(t, Seq::empty(), c);
            let from = if c < t.len() && white_at(t, c) {
                c
            } else {
                word_end_from(t, Seq::empty(), c)
            };
            &&& from <= n <= t.len()
            &&& all_white(t, from, n, true)
            &&& n < t.len() ==> !white_at(t, n)
        }),
{
    let len = t.len() as int;
    let es = Seq::<ElementView>::empty();
    assert(!covered(es, c));
    if c < len {
        law_word_ends(t, c);
        lemma_word_end_pos(t, c);
        let from = if white_at(t, c) {
            c
        } else {
            word_end_from(t, es, c)
        };
        law_whitespace_is_skipped(t, from, len);
        lemma_no_elements(skip_white(t, from, len));
    } else {
        assert(skip_white(t, c, len) == len);
        assert(word_end_from(t, es, c) == len);
        lemma_no_elements(len);
    }
}

/// A word ends between characters.
proof fn lemma_word_end_pos(t: Seq<u8>, c: int)
    requires
        valid_utf8(t),
        is_pos(t, c),
    ensures
        is_pos(t, word_end_from(t, Seq::empty(), c)),
{
    let len = t.len() as int;
    lemma_skip_white(t, c, len);
    let w = skip_white(t, c, len);
    if w < len {
        let z = skip_black(t, w, len);
        lemma_skip_white_stop(t, c, len);
        lemma_skip_black_moves(t, w, len);
        lemma_separators_end(t, w, z);
        lemma_piece_end(t, run_starts(t, w, z), w, z, w);
        lemma_no_elements(word_end_bare(t, c));
    }
}

/// A place in an element gives way to the nearest one outside, to the end of the element or to its
/// start.
pub proof fn law_elements_are_not_cut(t: Seq<u8>, es: Seq<ElementView>, p: int)
    requires
        elements_ok(t, es),
    ensures
        !inside(es, snap_end(es, p)),
        p <= snap_end(es, p),
        forall|q: int| p <= q < snap_end(es, p) ==> inside(es, q),
        !inside(es, snap_start(es, p)),
        snap_start(es, p) <= p,
        forall|q: int| snap_start(es, p) < q <= p ==> inside(es, q),
{
    if inside(es, p) {
        let i = choose|i: int| inside_at(es, i, p);
        assert(inside_at(es, i, p));
        lemma_snap(t, es, i, p);
        lemma_edges(t, es, i);
        assert forall|q: int| snap_start(es, p) < q < snap_end(es, p) implies inside(es, q) by {
            assert(inside_at(es, i, q));
        }
    }
}

/// With elements in the text, words start and end where they would without, but no element is cut.
pub proof fn law_words_keep_elements_whole(t: Seq<u8>, es: Seq<ElementView>, c: int)
    requires
        valid_utf8(t),
        elements_ok(t, es),
        is_pos(t, c),
    ensures
        word_end_from(t, es, c) == snap_end(es, word_end_from(t, Seq::empty(), c)),
        word_start_before(t, es, c) == snap_start(es, word_start_before(t, Seq::empty(), c)),
{
    let len = t.len() as int;
    let w = skip_white(t, c, len);
    crate::textarea::lemma_len_outside(t, es);
    if inside(es, 0) {
        let i = choose|i: int| inside_at(es, i, 0);
        assert(inside_at(es, i, 0));
    }
    if w < len {
        lemma_no_elements(word_end_bare(t, c));
    }
    let z = white_start(t, c);
    if z > 0 {
        let a = black_start(t, z);
        lemma_no_elements(separators_start(t, a, z));
        lemma_no_elements(piece_around(t, run_starts(t, a, z), a, z, a, z).0);
    }
}

/// The end of a word is reached on its last character; a cursor that is there already goes on to
/// the last character of the next word.
pub proof fn law_word_end_is_the_last_character(t: Seq<u8>, es: Seq<ElementView>, c: int)
    ensures
        ({
            let e = word_end_from(t, es, c);
            let r = word_end_cursor(t, es, c);
            &&& e > c && prev_atomic(t, es, e) != c ==> r == prev_atomic(t, es, e)
            &&& e > c && prev_atomic(t, es, e) == c && e < t.len() ==> r == prev_atomic(
                t,
                es,
                word_end_from(t, es, e),
            )
            &&& e > c && prev_atomic(t, es, e) == c && e >= t.len() ==> r == c
        }),
{
}

/// An element is one step, in either direction; anywhere else a step goes over one grapheme.
pub proof fn law_elements_are_one_step(t: Seq<u8>, es: Seq<ElementView>, i: int, p: int)
    requires
        elements_ok(t, es),
    ensures
        covers_at(es, i, p) ==> next_atomic(t, es, p) == es[i].end,
        covers_at(es, i, p - 1) ==> prev_atomic(t, es, p) == es[i].start,
        forall|q: usize|
            !covered(es, p) && #[trigger] next_grapheme(decode_utf8(t), p) == Some(q) && p < q
                <= t.len() && !inside(es, q as int) ==> next_atomic(t, es, p) == q,
        forall|q: usize|
            !covered(es, p - 1) && #[trigger] prev_grapheme(decode_utf8(t), p) == Some(q) && q < p
                && !inside(es, q as int) ==> prev_atomic(t, es, p) == q,
{
    reveal(next_atomic);
    reveal(prev_atomic);
    if covers_at(es, i, p) {
        lemma_cover(t, es, i, p);
    }
    if covers_at(es, i, p - 1) {
        lemma_cover(t, es, i, p - 1);
    }
}

/// An element is one word: the next word from it starts behind it and the whitespace there, and
/// changing a word there changes just the element.
pub proof fn law_elements_are_words(t: Seq<u8>, es: Seq<ElementView>, i: int, c: int)
    requires
        elements_ok(t, es),
        covers_at(es, i, c),
    ensures
        next_word_from(t, es, c) == snap_start(es, skip_white(t, es[i].end, t.len() as int)),
        operator_end(t, es, VimOperator::Change, VimMotion::WordForward, c, 1) == es[i].end,
{
    lemma_cover(t, es, i, c);
    reveal_with_fuel(reaches, 2);
}

/// Changing a word from whitespace on changes all the whitespace up to a word, or up to the end of
/// the line.
pub proof fn law_whitespace_is_changed(t: Seq<u8>, c: int)
    requires
        valid_utf8(t),
        is_pos(t, c),
        c < t.len(),
        white_at(t, c),
    ensures
        ({
            let es = Seq::<ElementView>::empty();
            let e = operator_end(t, es, VimOperator::Change, VimMotion::WordForward, c, 1);
            &&& c <= e <= line_end(t, c)
            &&& all_white(t, c, e, true)
            &&& e < line_end(t, c) ==> !white_at(t, e)
        }),
{
    let es = Seq::<ElementView>::empty();
    lemma_line_end(t, c);
    lemma_line_end_free(t, c);
    law_whitespace_is_skipped(t, c, line_end(t, c));
    lemma_no_elements(skip_white(t, c, line_end(t, c)));
    reveal_with_fuel(reaches, 2);
    assert(!covered(es, c));
}

/// Skipping steps over whitespace only, or over anything else only, and over all of it.
pub proof fn law_steps_are_skipped(t: Seq<u8>, es: Seq<ElementView>, c: int, white: bool)
    ensures
        exists|k: nat|
            {
                let e = #[trigger] walk(t, es, c, k);
                &&& skip_big(t, es, c, white) == e
                &&& e < t.len() ==> blank_at(t, es, e) != white
                &&& forall|j: nat|
                    j < k ==> #[trigger] walk(t, es, c, j) < t.len() && blank_at(
                        t,
                        es,
                        walk(t, es, c, j),
                    ) == white
            },
{
    let k = lemma_skip_steps(t, es, c, white, 0);
    assert(walk(t, es, c, 0) == c);
    let e = walk(t, es, c, k);
}

proof fn lemma_skip_steps(t: Seq<u8>, es: Seq<ElementView>, c: int, white: bool, i: nat) -> (k: nat)
    ensures
        i <= k,
        skip_big(t, es, walk(t, es, c, i), white) == walk(t, es, c, k),
        walk(t, es, c, k) < t.len() ==> blank_at(t, es, walk(t, es, c, k)) != white,
        forall|j: nat|
            i <= j < k ==> #[trigger] walk(t, es, c, j) < t.len() && blank_at(
                t,
                es,
                walk(t, es, c, j),
            ) == white,
    decreases t.len() - walk(t, es, c, i),
{
    let p = walk(t, es, c, i);
    if p < t.len() && blank_at(t, es, p) == white {
        lemma_next_atomic(t, es, p);
        assert(walk(t, es, c, i + 1) == next_atomic(t, es, p));
        let k = lemma_skip_steps(t, es, c, white, i + 1);
        assert forall|j: nat| i <= j < k implies #[trigger] walk(t, es, c, j) < t.len()
            && blank_at(t, es, walk(t, es, c, j)) == white by {
            if j > i {
                assert(i + 1 <= j);
            }
        }
        k
    } else {
        i
    }
}

/// Changing a WORD from whitespace on changes the whitespace, and from a WORD on the rest of it.
pub proof fn law_big_words_are_changed(t: Seq<u8>, es: Seq<ElementView>, c: int)
    ensures
        ({
            let e = operator_end(t, es, VimOperator::Change, VimMotion::BigWordForward, c, 1);
            &&& blank_at(t, es, c) ==> e == skip_big(t, es, c, true)
            &&& !blank_at(t, es, c) && c < t.len() ==> e == skip_big(t, es, c, false)
        }),
{
    reveal_with_fuel(reaches, 2);
    if !blank_at(t, es, c) && c < t.len() {
        assert(skip_big(t, es, c, true) == c);
    }
}

/// The end of a WORD is reached on its last character; a cursor that is there already goes on to
/// the last character of the next WORD.
pub proof fn law_big_word_end_is_the_last_character(t: Seq<u8>, es: Seq<ElementView>, c: int)
    ensures
        ({
            let e = big_word_end(t, es, c);
            let r = big_word_end_cursor(t, es, c);
            &&& e > c && prev_atomic(t, es, e) != c ==> r == prev_atomic(t, es, e)
            &&& e > c && prev_atomic(t, es, e) == c && e < t.len() ==> r == prev_atomic(
                t,
                es,
                big_word_end(t, es, e),
            )
            &&& e > c && prev_atomic(t, es, e) == c && e >= t.len() ==> r == c
        }),
{
}

} // verus!
