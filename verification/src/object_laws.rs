//! What text objects promise.

use crate::buffer::ElementView;
use crate::lines::{skip_black, skip_white, white_start};
use crate::text::{
    after_char, before_char, is_pos, lemma_after_before, lemma_before_char, lemma_char,
    lemma_char_interior, lemma_floor_range, lemma_zero_pos,
};
use crate::text_objects::{closes_around, lemma_unmatched, object_range, pair_from, unmatched};
use crate::vim::{VimTextObject, VimTextObjectScope};
use crate::words::{piece_around, piece_end, run_around, run_starts, runs_from, small_word_around};
use vstd::prelude::*;
use vstd::utf8::*;

verus! {

/// The scan for a pair stops at the first bracket that closes around `c`.
proof fn lemma_pair_found(
    t: Seq<u8>,
    es: Seq<ElementView>,
    open: char,
    close: char,
    c: int,
    p: int,
    q: int,
)
    requires
        valid_utf8(t),
        is_pos(t, p),
        is_pos(t, q),
        p <= q < t.len(),
        closes_around(t, es, open, close, c, q),
    ensures
        pair_from(t, es, open, close, c, p) is Some,
        ({
            let (o, x) = pair_from(t, es, open, close, c, p)->0;
            &&& p <= x <= q
            &&& is_pos(t, x)
            &&& closes_around(t, es, open, close, c, x)
            &&& o == unmatched(t, es, open, close, x).last()
        }),
    decreases q - p,
{
    if !closes_around(t, es, open, close, c, p) {
        lemma_char(t, p);
        if after_char(t, p) > q {
            lemma_char_interior(t, p, q);
        }
        lemma_pair_found(t, es, open, close, c, after_char(t, p), q);
    }
}

/// What is unmatched at `q` and stands before `p` was unmatched at `p` already.
proof fn lemma_unmatched_after(
    t: Seq<u8>,
    es: Seq<ElementView>,
    open: char,
    close: char,
    p: int,
    q: int,
)
    requires
        valid_utf8(t),
        is_pos(t, p),
        is_pos(t, q),
        0 <= p <= q,
    ensures
        forall|i: int|
            0 <= i < unmatched(t, es, open, close, q).len() && #[trigger] unmatched(
                t,
                es,
                open,
                close,
                q,
            )[i] < p ==> unmatched(t, es, open, close, p).contains(
                unmatched(t, es, open, close, q)[i],
            ),
    decreases q,
{
    if p < q {
        let b = before_char(t, q);
        lemma_before_char(t, q);
        if b < p {
            lemma_char_interior(t, b, p);
        }
        lemma_unmatched_after(t, es, open, close, p, b);
        let before = unmatched(t, es, open, close, b);
        let now = unmatched(t, es, open, close, q);
        assert forall|i: int| 0 <= i < now.len() && #[trigger] now[i] < p implies unmatched(
            t,
            es,
            open,
            close,
            p,
        ).contains(now[i]) by {
            if i < before.len() {
                assert(now[i] == before[i]);
            } else {
                assert(now[i] == b);
            }
        }
    }
}

/// The pair that a bracket object selects is the innermost one around the cursor: every other pair
/// around the cursor lies around it.
pub proof fn law_selected_pair_is_innermost(
    t: Seq<u8>,
    es: Seq<ElementView>,
    open: char,
    close: char,
    c: int,
    q: int,
)
    requires
        valid_utf8(t),
        is_pos(t, q),
        q < t.len(),
        closes_around(t, es, open, close, c, q),
    ensures
        pair_from(t, es, open, close, c, 0) is Some,
        ({
            let (o, x) = pair_from(t, es, open, close, c, 0)->0;
            &&& unmatched(t, es, open, close, q).last() <= o <= c <= x <= q
            &&& x < q ==> unmatched(t, es, open, close, q).last() < o
        }),
{
    lemma_zero_pos(t);
    lemma_pair_found(t, es, open, close, c, 0, q);
    let (o, x) = pair_from(t, es, open, close, c, 0)->0;
    if x < q {
        let p = after_char(t, x);
        lemma_char(t, x);
        if p > q {
            lemma_char_interior(t, x, q);
        }
        lemma_after_before(t, x);
        lemma_unmatched(t, es, open, close, x);
        lemma_unmatched_after(t, es, open, close, p, q);
        let at = unmatched(t, es, open, close, x);
        let later = unmatched(t, es, open, close, q);
        assert(unmatched(t, es, open, close, p) == at.drop_last());
        let y = later[later.len() - 1];
        assert(y < p);
        assert(at.drop_last().contains(y));
        let i = at.drop_last().index_of(y);
        assert(at[i] == y && i < at.len() - 1);
        assert(at[i] < at[at.len() - 1]);
    }
}

/// Skipping whitespace does not go back.
proof fn lemma_skip_white_range(t: Seq<u8>, p: int, limit: int)
    requires
        p <= limit,
    ensures
        p <= skip_white(t, p, limit) <= limit,
    decreases limit - p,
{
    if p < limit && crate::text::white_at(t, p) {
        if after_char(t, p) <= limit {
            lemma_skip_white_range(t, after_char(t, p), limit);
        } else {
            assert(skip_white(t, after_char(t, p), limit) == limit);
        }
    }
}

proof fn lemma_white_start_range(t: Seq<u8>, p: int)
    requires
        0 <= p,
    ensures
        0 <= white_start(t, p) <= p,
    decreases p,
{
    if p > 0 && crate::text::white_at(t, before_char(t, p)) {
        lemma_floor_range(t, p - 1);
        lemma_white_start_range(t, before_char(t, p));
    }
}

proof fn lemma_run_around_range(t: Seq<u8>, p: int, c: int)
    requires
        0 <= p <= t.len(),
    ensures
        run_around(runs_from(t, p), c) matches Some(run) ==> p <= run.0,
    decreases t.len() - p,
{
    let len = t.len() as int;
    let runs = runs_from(t, p);
    let a = skip_white(t, p, len);
    let z = skip_black(t, a, len);
    lemma_skip_white_range(t, p, len);
    if !(a >= len || !(p < z <= len)) {
        assert(runs[0] == (a, z));
        assert(runs.drop_first() =~= runs_from(t, z));
        lemma_run_around_range(t, z, c);
    }
}

proof fn lemma_piece_around_range(
    t: Seq<u8>,
    starts: Seq<usize>,
    a: int,
    z: int,
    p: int,
    c: int,
)
    ensures
        p <= piece_around(t, starts, a, z, p, c).0,
    decreases
            (if p < z {
                z - p
            } else {
                0
            }),
{
    let e = piece_end(t, starts, a, z, p);
    if p < z && p < e && e < z {
        lemma_piece_around_range(t, starts, a, z, e, c);
    }
}

/// Around a text object there is at least what is inside of it, and both exist together.
pub proof fn law_inner_lies_within_around(
    t: Seq<u8>,
    es: Seq<ElementView>,
    c: int,
    object: VimTextObject,
)
    ensures
        match object_range(t, es, c, object, VimTextObjectScope::Inner) {
            Some((a, z)) => {
                let around = object_range(t, es, c, object, VimTextObjectScope::Around);
                around is Some && (around->0).0 <= a && z <= (around->0).1
            },
            None => object_range(t, es, c, object, VimTextObjectScope::Around) is None,
        },
{
    lemma_run_around_range(t, 0, c);
    match run_around(runs_from(t, 0), c) {
        Some(run) => {
            lemma_white_start_range(t, run.0);
            lemma_piece_around_range(
                t,
                run_starts(t, run.0, run.1),
                run.0,
                run.1,
                run.0,
                c,
            );
            lemma_white_start_range(t, (small_word_around(t, c)->0).0);
        },
        None => {},
    }
}

} // verus!
