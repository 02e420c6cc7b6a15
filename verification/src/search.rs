//! Text searches, as operator targets.

use crate::operators::{in_order, operated};
use crate::text::{byte_at, byte_len, is_pos, lemma_zero_pos};
use crate::textarea::{with_cursor, AreaView, TextArea};
use crate::vim::VimOperator;
use vstd::prelude::*;
use vstd::utf8::*;

verus! {

/// A search for a literal text, forward or backward from the cursor.
#[derive(Debug)]
pub struct SearchQuery {
    pub pattern: String,
    pub backward: bool,
}

impl Clone for SearchQuery {
    fn clone(&self) -> (r: Self)
        ensures
            r == *self,
    {
        SearchQuery { pattern: self.pattern.clone(), backward: self.backward }
    }
}

impl SearchQuery {
    /// The query that finds nothing.
    pub open spec fn is_empty_query(self) -> bool {
        self.pattern@ == Seq::<char>::empty() && !self.backward
    }
}

impl Default for SearchQuery {
    fn default() -> (r: Self)
        ensures
            r.is_empty_query(),
    {
        SearchQuery { pattern: String::new(), backward: false }
    }
}

/// The searches of a text area.
#[derive(Debug)]
pub struct VimSearchState {
    pub last: SearchQuery,
}

/// Whether `pattern` stands at `p`.
pub open spec fn matches_at(t: Seq<u8>, pattern: Seq<u8>, p: int) -> bool {
    0 <= p && p + pattern.len() <= t.len() && t.subrange(p, p + pattern.len()) == pattern
}

/// The first match in `p..limit`.
pub open spec fn first_match(t: Seq<u8>, pattern: Seq<u8>, p: int, limit: int) -> Option<int>
    decreases
            (if p < limit {
                limit - p
            } else {
                0
            }),
{
    if p >= limit {
        None
    } else if matches_at(t, pattern, p) {
        Some(p)
    } else {
        first_match(t, pattern, p + 1, limit)
    }
}

/// The last match in `least..p`.
pub open spec fn last_match(t: Seq<u8>, pattern: Seq<u8>, least: int, p: int) -> Option<int>
    decreases
            (if least < p {
                p - least
            } else {
                0
            }),
{
    if p <= least {
        None
    } else if matches_at(t, pattern, p - 1) {
        Some(p - 1)
    } else {
        last_match(t, pattern, least, p - 1)
    }
}

/// The match that a search from `c` comes upon, going on at the other end of the text.
pub open spec fn search_match(t: Seq<u8>, pattern: Seq<u8>, backward: bool, c: int) -> Option<int> {
    let len = t.len() as int;
    if pattern.len() == 0 {
        None
    } else if !backward {
        match first_match(t, pattern, c + 1, len) {
            Some(p) => Some(p),
            None => first_match(t, pattern, 0, c + 1),
        }
    } else {
        match last_match(t, pattern, 0, c) {
            Some(p) => Some(p),
            None => last_match(t, pattern, c, len),
        }
    }
}

/// A search, as a cursor move or under an operator; nothing if there is no match.
#[verifier::opaque]
pub open spec fn searched(m: AreaView, query: SearchQuery, operator: Option<VimOperator>) -> (
    AreaView,
    bool,
) {
    match search_match(m.buf.text, encode_utf8(query.pattern@), query.backward, m.buf.cursor) {
        None => (m, false),
        Some(p) => match operator {
            Some(operator) => {
                let (a, z) = in_order(m.buf.cursor, p);
                let at = if operator == VimOperator::Yank {
                    with_cursor(m, a)
                } else {
                    m
                };
                (operated(at, operator, a, z), true)
            },
            None => (with_cursor(m, p), true),
        },
    }
}

/// Whether `pattern` stands at `p`.
fn matches_text(text: &str, pattern: &str, p: usize) -> (r: bool)
    ensures
        r == matches_at(encode_utf8(text@), encode_utf8(pattern@), p as int),
{
    let ghost t = encode_utf8(text@);
    let ghost q = encode_utf8(pattern@);
    let len: usize = byte_len(text);
    let n: usize = byte_len(pattern);
    if p > len || n > len - p {
        return false;
    }
    let mut i: usize = 0;
    while i < n
        invariant
            t == encode_utf8(text@),
            q == encode_utf8(pattern@),
            n == q.len(),
            p + n <= t.len() == len,
            i <= n,
            forall|k: int| 0 <= k < i ==> t[p + k] == #[trigger] q[k],
        decreases n - i,
    {
        if byte_at(text, p + i) != byte_at(pattern, i) {
            assert(t.subrange(p as int, p + n)[i as int] != q[i as int]);
            return false;
        }
        i = i + 1;
    }
    assert(t.subrange(p as int, p + n) =~= q);
    true
}

/// A match starts at a character boundary.
pub proof fn lemma_match_pos(t: Seq<u8>, pattern: Seq<u8>, p: int)
    requires
        valid_utf8(pattern),
        pattern.len() > 0,
        matches_at(t, pattern, p),
    ensures
        is_pos(t, p),
{
    lemma_zero_pos(pattern);
    assert(t.subrange(p, p + pattern.len())[0] == pattern[0]);
}

impl TextArea {
    /// The first match of `pattern` in `from..limit`.
    fn find_first(&self, pattern: &str, from: usize, limit: usize) -> (r: Option<usize>)
        requires
            encode_utf8(pattern@).len() > 0,
        ensures
            match r {
                Some(p) => {
                    &&& first_match(
                        self.bytes(),
                        encode_utf8(pattern@),
                        from as int,
                        limit as int,
                    ) == Some(p as int)
                    &&& is_pos(self.bytes(), p as int)
                },
                None => first_match(
                    self.bytes(),
                    encode_utf8(pattern@),
                    from as int,
                    limit as int,
                ) is None,
            },
    {
        let mut p: usize = from;
        while p < limit
            invariant
                encode_utf8(pattern@).len() > 0,
                first_match(self.bytes(), encode_utf8(pattern@), p as int, limit as int)
                    == first_match(
                    self.bytes(),
                    encode_utf8(pattern@),
                    from as int,
                    limit as int,
                ),
            decreases limit - p,
        {
            if matches_text(&self.text, pattern, p) {
                proof {
                    encode_utf8_valid_utf8(pattern@);
                    lemma_match_pos(self.bytes(), encode_utf8(pattern@), p as int);
                }
                return Some(p);
            }
            p = p + 1;
        }
        None
    }

    /// The last match of `pattern` in `least..from`.
    fn find_last(&self, pattern: &str, least: usize, from: usize) -> (r: Option<usize>)
        requires
            encode_utf8(pattern@).len() > 0,
        ensures
            match r {
                Some(p) => {
                    &&& last_match(
                        self.bytes(),
                        encode_utf8(pattern@),
                        least as int,
                        from as int,
                    ) == Some(p as int)
                    &&& is_pos(self.bytes(), p as int)
                },
                None => last_match(
                    self.bytes(),
                    encode_utf8(pattern@),
                    least as int,
                    from as int,
                ) is None,
            },
    {
        let mut p: usize = from;
        while p > least
            invariant
                encode_utf8(pattern@).len() > 0,
                last_match(self.bytes(), encode_utf8(pattern@), least as int, p as int)
                    == last_match(
                    self.bytes(),
                    encode_utf8(pattern@),
                    least as int,
                    from as int,
                ),
            decreases p,
        {
            p = p - 1;
            if matches_text(&self.text, pattern, p) {
                proof {
                    encode_utf8_valid_utf8(pattern@);
                    lemma_match_pos(self.bytes(), encode_utf8(pattern@), p as int);
                }
                return Some(p);
            }
        }
        None
    }

    /// Go to a match of `query`, or apply an operator up to it; whether there is one.
    pub fn apply_vim_search(&mut self, query: &SearchQuery, operator: Option<VimOperator>) -> (r:
        bool)
        requires
            old(self).wf(),
        ensures
            (final(self)@, r) == searched(old(self)@, *query, operator),
            final(self).wf(),
    {
        proof {
            reveal(searched);
        }
        let len: usize = byte_len(&self.text);
        let c: usize = self.cursor_pos;
        if byte_len(&query.pattern) == 0 {
            return false;
        }
        let place = if query.backward {
            match self.find_last(&query.pattern, 0, c) {
                Some(p) => Some(p),
                None => self.find_last(&query.pattern, c, len),
            }
        } else if c < len {
            match self.find_first(&query.pattern, c + 1, len) {
                Some(p) => Some(p),
                None => self.find_first(&query.pattern, 0, c + 1),
            }
        } else {
            self.find_first(&query.pattern, 0, len)
        };
        proof {
            if c == len {
                lemma_no_match_at_end(self.bytes(), encode_utf8(query.pattern@), 0);
            }
        }
        match place {
            None => false,
            Some(p) => {
                match operator {
                    Some(operator) => {
                        let (a, z): (usize, usize) = if c <= p {
                            (c, p)
                        } else {
                            (p, c)
                        };
                        if operator == VimOperator::Yank {
                            self.set_cursor(a);
                        }
                        self.apply_vim_operator_to_range(operator, a..z);
                    },
                    None => self.set_cursor(p),
                }
                true
            },
        }
    }
}

/// Nothing but the empty text stands at the end of a text.
pub proof fn lemma_no_match_at_end(t: Seq<u8>, pattern: Seq<u8>, p: int)
    requires
        pattern.len() > 0,
        0 <= p <= t.len(),
    ensures
        first_match(t, pattern, p, t.len() as int) == first_match(
            t,
            pattern,
            p,
            t.len() as int + 1,
        ),
    decreases t.len() - p,
{
    if p < t.len() {
        lemma_no_match_at_end(t, pattern, p + 1);
    } else {
        assert(first_match(t, pattern, p + 1, t.len() as int + 1) is None);
    }
}

} // verus!
