//! What cursor motions promise.

use crate::buffer::{
    covered, lemma_next_atomic, lemma_prev_atomic, next_atomic, prev_atomic, ElementView,
};
use crate::text::white_at;
use crate::words::{
    back_into_big_word, big_word_end, big_word_start, next_big_word, next_big_word_start,
    previous_big_word_start, skip_big,
};
use vstd::prelude::*;

verus! {

/// Where `k` steps over graphemes and elements lead from `p`.
pub open spec fn walk(t: Seq<u8>, es: Seq<ElementView>, p: int, k: nat) -> int
    decreases k,
{
    if k == 0 {
        p
    } else {
        next_atomic(t, es, walk(t, es, p, (k - 1) as nat))
    }
}

/// Where `k` steps back over graphemes and elements lead from `p`.
pub open spec fn walk_back(t: Seq<u8>, es: Seq<ElementView>, p: int, k: nat) -> int
    decreases k,
{
    if k == 0 {
        p
    } else {
        prev_atomic(t, es, walk_back(t, es, p, (k - 1) as nat))
    }
}

/// Whitespace outside elements stands at `p`.
pub open spec fn blank_at(t: Seq<u8>, es: Seq<ElementView>, p: int) -> bool {
    white_at(t, p) && !covered(es, p)
}

/// The `k`-th step from `c` leads from whitespace onto something else.
pub open spec fn enters_word(t: Seq<u8>, es: Seq<ElementView>, c: int, k: nat) -> bool {
    &&& k > 0
    &&& walk(t, es, c, k) < t.len()
    &&& !blank_at(t, es, walk(t, es, c, k))
    &&& blank_at(t, es, walk(t, es, c, (k - 1) as nat))
}

/// The `k`-th step from `c` leads onto whitespace from something else.
pub open spec fn exits_word(t: Seq<u8>, es: Seq<ElementView>, c: int, k: nat) -> bool {
    &&& k > 0
    &&& blank_at(t, es, walk(t, es, c, k))
    &&& !blank_at(t, es, walk(t, es, c, (k - 1) as nat))
}

/// The `k`-th step back from `c` leads onto the first place of a WORD.
pub open spec fn enters_back(t: Seq<u8>, es: Seq<ElementView>, c: int, k: nat) -> bool {
    let p = walk_back(t, es, c, k);
    &&& k > 0
    &&& !blank_at(t, es, p)
    &&& p <= 0 || blank_at(t, es, prev_atomic(t, es, p))
}

/// Steps stay in the text, and go on until its end.
pub proof fn lemma_walk(t: Seq<u8>, es: Seq<ElementView>, c: int, k: nat)
    requires
        0 <= c <= t.len(),
    ensures
        c <= walk(t, es, c, k) <= t.len(),
        walk(t, es, c, k) < t.len() ==> walk(t, es, c, k) < walk(t, es, c, k + 1),
        walk(t, es, c, k) == t.len() ==> walk(t, es, c, k + 1) == t.len(),
    decreases k,
{
    if k > 0 {
        lemma_walk(t, es, c, (k - 1) as nat);
    }
    lemma_next_atomic(t, es, walk(t, es, c, k));
    reveal(next_atomic);
}

/// Steps do not lead back.
pub proof fn lemma_walk_on(t: Seq<u8>, es: Seq<ElementView>, c: int, i: nat, k: nat)
    requires
        0 <= c <= t.len(),
        i <= k,
    ensures
        walk(t, es, c, i) <= walk(t, es, c, k),
    decreases k,
{
    if i < k {
        lemma_walk_on(t, es, c, i, (k - 1) as nat);
        lemma_walk(t, es, c, (k - 1) as nat);
    }
}

proof fn lemma_next_big_word(t: Seq<u8>, es: Seq<ElementView>, c: int, i: nat)
    requires
        0 <= c <= t.len(),
    ensures
        ({
            let p = walk(t, es, c, i);
            let r = next_big_word(t, es, p, blank_at(t, es, p));
            ||| r == t.len() && forall|k: nat| k > i ==> !#[trigger] enters_word(t, es, c, k)
            ||| exists|k: nat|
                k > i && #[trigger] enters_word(t, es, c, k) && r == walk(t, es, c, k)
                    && forall|j: nat| i < j < k ==> !#[trigger] enters_word(t, es, c, j)
        }),
    decreases t.len() - walk(t, es, c, i),
{
    let p = walk(t, es, c, i);
    let r = next_big_word(t, es, p, blank_at(t, es, p));
    lemma_walk(t, es, c, i);
    let q = walk(t, es, c, i + 1);
    if p >= t.len() || q >= t.len() {
        lemma_walk(t, es, c, i + 1);
        assert forall|k: nat| k > i implies !#[trigger] enters_word(t, es, c, k) by {
            lemma_walk_on(t, es, c, i + 1, k);
        }
    } else {
        lemma_next_big_word(t, es, c, i + 1);
        if enters_word(t, es, c, i + 1) {
            assert(r == walk(t, es, c, i + 1));
        } else {
            assert(r == next_big_word(t, es, q, blank_at(t, es, q)));
            if exists|k: nat|
                k > i + 1 && #[trigger] enters_word(t, es, c, k) && r == walk(t, es, c, k)
                    && forall|j: nat| i + 1 < j < k ==> !#[trigger] enters_word(t, es, c, j) {
                let k = choose|k: nat|
                    k > i + 1 && #[trigger] enters_word(t, es, c, k) && r == walk(t, es, c, k)
                        && forall|j: nat| i + 1 < j < k ==> !#[trigger] enters_word(t, es, c, j);
                assert forall|j: nat| i < j < k implies !#[trigger] enters_word(t, es, c, j) by {
                    if j > i + 1 {
                    } else {
                        assert(j == i + 1);
                    }
                }
                assert(k > i && enters_word(t, es, c, k));
            } else {
                assert forall|k: nat| k > i implies !#[trigger] enters_word(t, es, c, k) by {
                    if k > i + 1 {
                    } else {
                        assert(k == i + 1);
                    }
                }
            }
        }
    }
}

/// `W` goes to the first place behind the cursor, step by step, that follows whitespace and is none
/// itself, or else to the end of the text.
pub proof fn law_next_big_word_is_the_first(t: Seq<u8>, es: Seq<ElementView>, c: int)
    requires
        0 <= c <= t.len(),
    ensures
        ({
            let r = next_big_word_start(t, es, c);
            ||| r == t.len() && forall|k: nat| !#[trigger] enters_word(t, es, c, k)
            ||| exists|k: nat|
                #[trigger] enters_word(t, es, c, k) && r == walk(t, es, c, k) && forall|j: nat|
                    j < k ==> !#[trigger] enters_word(t, es, c, j)
        }),
{
    lemma_next_big_word(t, es, c, 0);
    let r = next_big_word_start(t, es, c);
    assert(walk(t, es, c, 0) == c);
    if exists|k: nat|
        k > 0 && #[trigger] enters_word(t, es, c, k) && r == walk(t, es, c, k) && forall|j: nat|
            0 < j < k ==> !#[trigger] enters_word(t, es, c, j) {
        let k = choose|k: nat|
            k > 0 && #[trigger] enters_word(t, es, c, k) && r == walk(t, es, c, k) && forall|j: nat|
                0 < j < k ==> !#[trigger] enters_word(t, es, c, j);
        assert forall|j: nat| j < k implies !#[trigger] enters_word(t, es, c, j) by {}
        assert(enters_word(t, es, c, k));
    } else {
        assert forall|k: nat| !#[trigger] enters_word(t, es, c, k) by {}
    }
}

proof fn lemma_skip_black_big(t: Seq<u8>, es: Seq<ElementView>, c: int, i: nat)
    requires
        0 <= c <= t.len(),
        walk(t, es, c, i) < t.len() ==> !blank_at(t, es, walk(t, es, c, i)),
    ensures
        ({
            let r = skip_big(t, es, walk(t, es, c, i), false);
            ||| r == t.len() && forall|k: nat| k > i ==> !#[trigger] exits_word(t, es, c, k)
            ||| exists|k: nat|
                k > i && #[trigger] exits_word(t, es, c, k) && r == walk(t, es, c, k)
                    && forall|j: nat| i < j < k ==> !#[trigger] exits_word(t, es, c, j)
        }),
    decreases t.len() - walk(t, es, c, i),
{
    let p = walk(t, es, c, i);
    let q = walk(t, es, c, i + 1);
    let r = skip_big(t, es, p, false);
    lemma_walk(t, es, c, i);
    lemma_walk(t, es, c, i + 1);
    if p >= t.len() {
        assert forall|k: nat| k > i implies !#[trigger] exits_word(t, es, c, k) by {
            lemma_walk_on(t, es, c, i, k);
            lemma_walk(t, es, c, k);
        }
    } else if q < t.len() && blank_at(t, es, q) {
        reveal_with_fuel(skip_big, 2);
        assert(r == q);
        assert(exits_word(t, es, c, i + 1));
    } else {
        lemma_skip_black_big(t, es, c, i + 1);
        assert(!exits_word(t, es, c, i + 1));
        assert(r == skip_big(t, es, q, false));
        if exists|k: nat|
            k > i + 1 && #[trigger] exits_word(t, es, c, k) && r == walk(t, es, c, k)
                && forall|j: nat| i + 1 < j < k ==> !#[trigger] exits_word(t, es, c, j) {
            let k = choose|k: nat|
                k > i + 1 && #[trigger] exits_word(t, es, c, k) && r == walk(t, es, c, k)
                    && forall|j: nat| i + 1 < j < k ==> !#[trigger] exits_word(t, es, c, j);
            assert forall|j: nat| i < j < k implies !#[trigger] exits_word(t, es, c, j) by {
                if j > i + 1 {
                } else {
                    assert(j == i + 1);
                }
            }
            assert(k > i && exits_word(t, es, c, k));
        } else {
            assert forall|k: nat| k > i implies !#[trigger] exits_word(t, es, c, k) by {
                if k > i + 1 {
                } else {
                    assert(k == i + 1);
                }
            }
        }
    }
}

/// The steps over whitespace exit no WORD.
proof fn lemma_skip_white_big(t: Seq<u8>, es: Seq<ElementView>, c: int, i: nat) -> (k: nat)
    requires
        0 <= c <= t.len(),
        i > 0 ==> blank_at(t, es, walk(t, es, c, (i - 1) as nat)),
    ensures
        i <= k,
        walk(t, es, c, k) == skip_big(t, es, walk(t, es, c, i), true),
        walk(t, es, c, k) < t.len() ==> !blank_at(t, es, walk(t, es, c, k)),
        forall|j: nat| i <= j <= k ==> !#[trigger] exits_word(t, es, c, j),
    decreases t.len() - walk(t, es, c, i),
{
    let p = walk(t, es, c, i);
    lemma_walk(t, es, c, i);
    lemma_walk(t, es, c, i + 1);
    if p < t.len() && blank_at(t, es, p) {
        let k = lemma_skip_white_big(t, es, c, i + 1);
        assert forall|j: nat| i <= j <= k implies !#[trigger] exits_word(t, es, c, j) by {
            if j > i {
                assert(i + 1 <= j);
            }
        }
        k
    } else {
        i
    }
}

/// A WORD that the cursor is in or before ends at the first place behind the cursor, step by step,
/// that is whitespace and follows none, or else at the end of the text.
pub proof fn law_big_word_end_is_the_first(t: Seq<u8>, es: Seq<ElementView>, c: int)
    requires
        0 <= c <= t.len(),
    ensures
        ({
            let r = big_word_end(t, es, c);
            ||| r == t.len() && forall|k: nat| !#[trigger] exits_word(t, es, c, k)
            ||| exists|k: nat|
                #[trigger] exits_word(t, es, c, k) && r == walk(t, es, c, k) && forall|j: nat|
                    j < k ==> !#[trigger] exits_word(t, es, c, j)
        }),
{
    assert(walk(t, es, c, 0) == c);
    let i = lemma_skip_white_big(t, es, c, 0);
    lemma_skip_black_big(t, es, c, i);
    let r = big_word_end(t, es, c);
    if exists|k: nat|
        k > i && #[trigger] exits_word(t, es, c, k) && r == walk(t, es, c, k) && forall|j: nat|
            i < j < k ==> !#[trigger] exits_word(t, es, c, j) {
        let k = choose|k: nat|
            k > i && #[trigger] exits_word(t, es, c, k) && r == walk(t, es, c, k) && forall|j: nat|
                i < j < k ==> !#[trigger] exits_word(t, es, c, j);
        assert forall|j: nat| j < k implies !#[trigger] exits_word(t, es, c, j) by {
            if j <= i {
            } else {
                assert(i < j);
            }
        }
        assert(exits_word(t, es, c, k));
    } else {
        assert forall|k: nat| !#[trigger] exits_word(t, es, c, k) by {
            if k <= i {
            } else {
                assert(i < k);
            }
        }
    }
}

proof fn lemma_big_word_start(t: Seq<u8>, es: Seq<ElementView>, c: int, i: nat) -> (k: nat)
    requires
        i > 0,
        0 <= walk_back(t, es, c, i),
        !blank_at(t, es, walk_back(t, es, c, i)),
    ensures
        i <= k,
        walk_back(t, es, c, k) == big_word_start(t, es, walk_back(t, es, c, i)),
        enters_back(t, es, c, k),
        forall|j: nat| i <= j < k ==> !#[trigger] enters_back(t, es, c, j),
    decreases walk_back(t, es, c, i),
{
    let p = walk_back(t, es, c, i);
    let q = walk_back(t, es, c, i + 1);
    lemma_prev_atomic(t, es, p);
    if p <= 0 || blank_at(t, es, q) {
        i
    } else {
        let k = lemma_big_word_start(t, es, c, i + 1);
        assert forall|j: nat| i <= j < k implies !#[trigger] enters_back(t, es, c, j) by {
            if j > i {
                assert(i + 1 <= j);
            }
        }
        k
    }
}

proof fn lemma_back_into(t: Seq<u8>, es: Seq<ElementView>, c: int, i: nat)
    requires
        0 <= walk_back(t, es, c, i),
        i > 0 ==> blank_at(t, es, walk_back(t, es, c, i)),
        forall|j: nat| j <= i ==> !#[trigger] enters_back(t, es, c, j),
    ensures
        ({
            let r = big_word_start(t, es, back_into_big_word(t, es, walk_back(t, es, c, i)));
            ||| r == 0 && forall|k: nat| !#[trigger] enters_back(t, es, c, k)
            ||| exists|k: nat|
                #[trigger] enters_back(t, es, c, k) && r == walk_back(t, es, c, k) && forall|
                    j: nat,
                |
                    j < k ==> !#[trigger] enters_back(t, es, c, j)
        }),
    decreases walk_back(t, es, c, i),
{
    let p = walk_back(t, es, c, i);
    let q = walk_back(t, es, c, i + 1);
    if p > 0 {
        lemma_prev_atomic(t, es, p);
        if blank_at(t, es, q) {
            assert forall|j: nat| j <= i + 1 implies !#[trigger] enters_back(t, es, c, j) by {
                if j <= i {
                } else {
                    assert(j == i + 1);
                }
            }
            lemma_back_into(t, es, c, i + 1);
        } else {
            let k = lemma_big_word_start(t, es, c, i + 1);
            assert forall|j: nat| j < k implies !#[trigger] enters_back(t, es, c, j) by {
                if j <= i {
                } else {
                    assert(i + 1 <= j);
                }
            }
            assert(enters_back(t, es, c, k));
        }
    } else {
        assert forall|k: nat| k > i implies walk_back(t, es, c, k) == 0 by {
            lemma_walk_back_rests(t, es, c, i, k);
        }
        if !blank_at(t, es, 0) {
            assert(enters_back(t, es, c, i + 1));
            assert forall|j: nat| j < i + 1 implies !#[trigger] enters_back(t, es, c, j) by {
                assert(j <= i);
            }
        } else {
            assert forall|k: nat| !#[trigger] enters_back(t, es, c, k) by {
                if k <= i {
                } else {
                    assert(walk_back(t, es, c, k) == 0);
                }
            }
        }
    }
}

/// Steps back rest at the start of the text.
proof fn lemma_walk_back_rests(t: Seq<u8>, es: Seq<ElementView>, c: int, i: nat, k: nat)
    requires
        i <= k,
        walk_back(t, es, c, i) == 0,
    ensures
        walk_back(t, es, c, k) == 0,
    decreases k,
{
    if i < k {
        lemma_walk_back_rests(t, es, c, i, (k - 1) as nat);
        reveal(prev_atomic);
    }
}

/// `B` goes to the first place before the cursor, step by step back, at which a WORD starts, or
/// else to the start of the text.
pub proof fn law_previous_big_word_is_the_first(t: Seq<u8>, es: Seq<ElementView>, c: int)
    requires
        0 <= c <= t.len(),
    ensures
        ({
            let r = previous_big_word_start(t, es, c);
            ||| r == 0 && forall|k: nat| !#[trigger] enters_back(t, es, c, k)
            ||| exists|k: nat|
                #[trigger] enters_back(t, es, c, k) && r == walk_back(t, es, c, k) && forall|
                    j: nat,
                |
                    j < k ==> !#[trigger] enters_back(t, es, c, j)
        }),
{
    assert(walk_back(t, es, c, 0) == c);
    lemma_back_into(t, es, c, 0);
}

} // verus!
