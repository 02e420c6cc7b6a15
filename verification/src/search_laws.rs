//! What a search comes upon.

use crate::buffer::{buffer_ok, inside};
use crate::char_laws::lemma_operated_between;
use crate::search::{first_match, last_match, matches_at, search_match, searched, SearchQuery};
use crate::text::is_pos;
use crate::textarea::{lemma_cursor_there, with_cursor, AreaView};
use crate::vim::{VimMode, VimOperator};
use vstd::prelude::*;
use vstd::utf8::*;

verus! {

/// The pattern stands at `p`, byte for byte.
pub open spec fn reads(t: Seq<u8>, pattern: Seq<u8>, p: int) -> bool {
    &&& 0 <= p <= t.len() - pattern.len()
    &&& forall|i: int| 0 <= i < pattern.len() ==> #[trigger] t[p + i] == pattern[i]
}

proof fn lemma_reads(t: Seq<u8>, pattern: Seq<u8>, p: int)
    ensures
        reads(t, pattern, p) == matches_at(t, pattern, p),
{
    if 0 <= p <= t.len() - pattern.len() {
        let s = t.subrange(p, p + pattern.len());
        assert forall|i: int| 0 <= i < pattern.len() implies s[i] == #[trigger] t[p + i] by {}
        if reads(t, pattern, p) {
            assert forall|i: int| 0 <= i < pattern.len() implies s[i] == pattern[i] by {
                assert(t[p + i] == pattern[i]);
            }
            assert(s =~= pattern);
        }
        if s == pattern {
            assert forall|i: int| 0 <= i < pattern.len() implies #[trigger] t[p + i]
                == pattern[i] by {
                assert(s[i] == pattern[i]);
            }
        }
    }
}

proof fn lemma_first(t: Seq<u8>, pattern: Seq<u8>, p: int, limit: int)
    ensures
        match first_match(t, pattern, p, limit) {
            Some(r) => p <= r < limit && reads(t, pattern, r) && forall|q: int|
                p <= q < r ==> !#[trigger] reads(t, pattern, q),
            None => forall|q: int| p <= q < limit ==> !#[trigger] reads(t, pattern, q),
        },
    decreases
            (if p < limit {
                limit - p
            } else {
                0
            }),
{
    lemma_reads(t, pattern, p);
    if p < limit {
        lemma_first(t, pattern, p + 1, limit);
    }
}

proof fn lemma_last(t: Seq<u8>, pattern: Seq<u8>, least: int, p: int)
    ensures
        match last_match(t, pattern, least, p) {
            Some(r) => least <= r < p && reads(t, pattern, r) && forall|q: int|
                r < q < p ==> !#[trigger] reads(t, pattern, q),
            None => forall|q: int| least <= q < p ==> !#[trigger] reads(t, pattern, q),
        },
    decreases
            (if least < p {
                p - least
            } else {
                0
            }),
{
    lemma_reads(t, pattern, p - 1);
    if p > least {
        lemma_last(t, pattern, least, p - 1);
    }
}

/// A search comes upon the nearest match in its direction; behind the last one it goes on at the
/// other end. It comes upon nothing only if there is no match at all, or nothing is looked for.
pub proof fn law_searches_come_upon_the_nearest_match(
    t: Seq<u8>,
    pattern: Seq<u8>,
    backward: bool,
    c: int,
)
    requires
        0 <= c <= t.len(),
    ensures
        pattern.len() == 0 ==> search_match(t, pattern, backward, c) is None,
        pattern.len() > 0 ==> match search_match(t, pattern, backward, c) {
            None => forall|q: int| !#[trigger] reads(t, pattern, q),
            Some(r) => {
                &&& reads(t, pattern, r)
                &&& if !backward {
                    forall|q: int| #[trigger]
                        reads(t, pattern, q) ==> if r > c {
                            q <= c || r <= q
                        } else {
                            r <= q <= c
                        }
                } else {
                    forall|q: int| #[trigger]
                        reads(t, pattern, q) ==> if r < c {
                            c <= q || q <= r
                        } else {
                            c <= q <= r
                        }
                }
            },
        },
{
    let len = t.len() as int;
    lemma_first(t, pattern, c + 1, len);
    lemma_first(t, pattern, 0, c + 1);
    lemma_last(t, pattern, 0, c);
    lemma_last(t, pattern, c, len);
}

/// A search moves the cursor to what it comes upon, and under an operator takes what lies between.
/// Without a match nothing happens.
pub proof fn law_searches_move_or_take(
    m: AreaView,
    query: SearchQuery,
    operator: Option<VimOperator>,
)
    requires
        buffer_ok(m.buf),
    ensures
        ({
            let t = m.buf.text;
            let c = m.buf.cursor;
            let (after, found) = searched(m, query, operator);
            match search_match(t, encode_utf8(query.pattern@), query.backward, c) {
                None => !found && after == m,
                Some(p) => {
                    &&& found
                    &&& is_pos(t, p) && !inside(m.buf.elements, p) ==> match operator {
                        None => after.buf.cursor == p && after.buf.text == t,
                        Some(operator) => {
                            let a = if p < c {
                                p
                            } else {
                                c
                            };
                            let z = if p < c {
                                c
                            } else {
                                p
                            };
                            &&& after.buf.cursor == a
                            &&& a < z ==> after.register == t.subrange(a, z)
                            &&& after.buf.text == if operator == VimOperator::Yank {
                                t
                            } else {
                                t.subrange(0, a) + t.subrange(z, t.len() as int)
                            }
                            &&& operator == VimOperator::Change ==> after.mode == VimMode::Insert
                        },
                    }
                },
            }
        }),
{
    reveal(searched);
    let t = m.buf.text;
    let c = m.buf.cursor;
    match search_match(t, encode_utf8(query.pattern@), query.backward, c) {
        None => {},
        Some(p) => {
            if is_pos(t, p) && !inside(m.buf.elements, p) {
                lemma_cursor_there(m, p);
                match operator {
                    None => {},
                    Some(operator) => {
                        let (a, z) = if p < c {
                            (p, c)
                        } else {
                            (c, p)
                        };
                        lemma_cursor_there(m, a);
                        let at = if operator == VimOperator::Yank {
                            with_cursor(m, a)
                        } else {
                            m
                        };
                        lemma_operated_between(at, operator, a, z);
                    },
                }
            }
        },
    }
}

} // verus!
