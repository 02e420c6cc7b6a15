//! The model of an edited text: its bytes, a cursor, and atomic elements.
//!
//! An element marks a stretch of the text, such as a placeholder for pasted content, that the
//! cursor never enters and no edit splits.

use crate::segment::{next_grapheme, prev_grapheme};
use crate::text::{is_pos, lemma_splice_pos, spliced};
use vstd::prelude::*;
use vstd::utf8::*;

verus! {

/// An atomic stretch `start..end` of the text.
pub struct ElementView {
    pub id: u64,
    pub start: int,
    pub end: int,
}

/// A text with its cursor and elements.
#[verifier::ext_equal]
pub struct Buffer {
    pub text: Seq<u8>,
    pub cursor: int,
    pub elements: Seq<ElementView>,
}

/// Element `i` holds `p` strictly inside.
pub open spec fn inside_at(es: Seq<ElementView>, i: int, p: int) -> bool {
    0 <= i < es.len() && es[i].start < p < es[i].end
}

/// `p` lies strictly inside an element.
pub open spec fn inside(es: Seq<ElementView>, p: int) -> bool {
    exists|i: int| inside_at(es, i, p)
}

/// The byte at `p` belongs to element `i`.
pub open spec fn covers_at(es: Seq<ElementView>, i: int, p: int) -> bool {
    0 <= i < es.len() && es[i].start <= p < es[i].end
}

/// The byte at `p` belongs to an element.
pub open spec fn covered(es: Seq<ElementView>, p: int) -> bool {
    exists|i: int| covers_at(es, i, p)
}

/// Elements are non-empty, lie on character boundaries, and follow one another without overlap.
pub open spec fn elements_ok(t: Seq<u8>, es: Seq<ElementView>) -> bool {
    &&& forall|i: int|
        0 <= i < es.len() ==> {
            let e = #[trigger] es[i];
            0 <= e.start < e.end <= t.len() && is_pos(t, e.start) && is_pos(t, e.end)
        }
    &&& forall|i: int, j: int|
        #![trigger es[i], es[j]]
        0 <= i < j < es.len() ==> es[i].end <= es[j].start
}

/// What every operation keeps: the text is valid UTF-8, the elements are in order, and the cursor
/// stands on a character boundary outside every element.
pub open spec fn buffer_ok(b: Buffer) -> bool {
    &&& valid_utf8(b.text)
    &&& elements_ok(b.text, b.elements)
    &&& is_pos(b.text, b.cursor)
    &&& !inside(b.elements, b.cursor)
}

/// `p`, moved to the start of the element that it is inside of.
pub open spec fn snap_start(es: Seq<ElementView>, p: int) -> int {
    if inside(es, p) {
        es[choose|i: int| inside_at(es, i, p)].start
    } else {
        p
    }
}

/// `p`, moved to the end of the element that it is inside of.
pub open spec fn snap_end(es: Seq<ElementView>, p: int) -> int {
    if inside(es, p) {
        es[choose|i: int| inside_at(es, i, p)].end
    } else {
        p
    }
}

/// `p`, moved to the nearer edge of the element that it is inside of, the start if both are as
/// near.
pub open spec fn snap_nearest(es: Seq<ElementView>, p: int) -> int {
    if p - snap_start(es, p) <= snap_end(es, p) - p {
        snap_start(es, p)
    } else {
        snap_end(es, p)
    }
}

/// End of the element that the byte at `p` belongs to.
pub open spec fn cover_end(es: Seq<ElementView>, p: int) -> int {
    es[choose|i: int| covers_at(es, i, p)].end
}

/// Start of the element that the byte at `p` belongs to.
pub open spec fn cover_start(es: Seq<ElementView>, p: int) -> int {
    es[choose|i: int| covers_at(es, i, p)].start
}

/// The position after the element at `p`, or after the grapheme there, which ends at `next`.
pub open spec fn atomic_after(
    t: Seq<u8>,
    es: Seq<ElementView>,
    p: int,
    next: Option<usize>,
) -> int {
    let q = if covered(es, p) {
        cover_end(es, p)
    } else {
        match next {
            Some(q) => snap_end(es, q as int),
            None => t.len() as int,
        }
    };
    if p < q <= t.len() {
        q
    } else {
        t.len() as int
    }
}

/// The position before the element that ends at `p`, or before the grapheme that ends there and
/// starts at `prev`.
pub open spec fn atomic_before(es: Seq<ElementView>, p: int, prev: Option<usize>) -> int {
    let q = if covered(es, p - 1) {
        cover_start(es, p - 1)
    } else {
        match prev {
            Some(q) => snap_start(es, q as int),
            None => 0,
        }
    };
    if 0 <= q < p {
        q
    } else {
        0
    }
}

/// The position after the grapheme or element at `p`.
#[verifier::opaque]
pub open spec fn next_atomic(t: Seq<u8>, es: Seq<ElementView>, p: int) -> int {
    atomic_after(t, es, p, next_grapheme(decode_utf8(t), p))
}

/// The position before the grapheme or element that ends at `p`.
#[verifier::opaque]
pub open spec fn prev_atomic(t: Seq<u8>, es: Seq<ElementView>, p: int) -> int {
    atomic_before(es, p, prev_grapheme(decode_utf8(t), p))
}

/// The next position is further on, up to the end of the text.
pub proof fn lemma_next_atomic(t: Seq<u8>, es: Seq<ElementView>, p: int)
    ensures
        p < t.len() ==> p < next_atomic(t, es, p),
        next_atomic(t, es, p) <= t.len(),
{
    reveal(next_atomic);
}

/// The previous position is further back, down to the start of the text.
pub proof fn lemma_prev_atomic(t: Seq<u8>, es: Seq<ElementView>, p: int)
    ensures
        0 < p ==> prev_atomic(t, es, p) < p,
        0 <= prev_atomic(t, es, p),
{
    reveal(prev_atomic);
}

/// Where position `p` goes when `a..z` becomes `n` bytes: positions in the range go to the end of
/// the new bytes.
pub open spec fn moved(p: int, a: int, z: int, n: int) -> int {
    if p < a {
        p
    } else if p <= z {
        a + n
    } else {
        p - (z - a) + n
    }
}

/// The elements after `a..z` becomes `n` bytes: those within the range are gone, those behind it
/// shift.
pub open spec fn edited_elements(es: Seq<ElementView>, a: int, z: int, n: int) -> Seq<ElementView>
    decreases es.len(),
{
    if es.len() == 0 {
        Seq::empty()
    } else {
        let rest = edited_elements(es.drop_last(), a, z, n);
        let e = es.last();
        if a <= e.start && e.end <= z {
            rest
        } else if e.start >= z {
            rest.push(
                ElementView { id: e.id, start: e.start - (z - a) + n, end: e.end - (z - a) + n },
            )
        } else {
            rest.push(e)
        }
    }
}

/// The buffer after `a..z` is replaced by `ins`.
pub open spec fn edited(b: Buffer, a: int, z: int, ins: Seq<u8>) -> Buffer {
    Buffer {
        text: spliced(b.text, a, z, ins),
        cursor: moved(b.cursor, a, z, ins.len() as int),
        elements: edited_elements(b.elements, a, z, ins.len() as int),
    }
}

/// `a..z` is a range of the text that cuts no character and no element.
pub open spec fn range_ok(b: Buffer, a: int, z: int) -> bool {
    &&& a <= z
    &&& is_pos(b.text, a)
    &&& is_pos(b.text, z)
    &&& !inside(b.elements, a)
    &&& !inside(b.elements, z)
}

/// At most one element is around a position.
pub proof fn lemma_unique(t: Seq<u8>, es: Seq<ElementView>, i: int, j: int, p: int)
    requires
        elements_ok(t, es),
        0 <= i < es.len(),
        0 <= j < es.len(),
        es[i].start <= p <= es[i].end,
        es[j].start < p < es[j].end || covers_at(es, i, p) && covers_at(es, j, p),
    ensures
        i == j,
{
    if i < j {
        assert(es[i].end <= es[j].start);
    } else if j < i {
        assert(es[j].end <= es[i].start);
    }
}

pub proof fn lemma_snap(t: Seq<u8>, es: Seq<ElementView>, i: int, p: int)
    requires
        elements_ok(t, es),
        inside_at(es, i, p),
    ensures
        inside(es, p),
        snap_start(es, p) == es[i].start,
        snap_end(es, p) == es[i].end,
{
    let j = choose|j: int| inside_at(es, j, p);
    assert(inside_at(es, j, p));
    lemma_unique(t, es, i, j, p);
}

pub proof fn lemma_cover(t: Seq<u8>, es: Seq<ElementView>, i: int, p: int)
    requires
        elements_ok(t, es),
        covers_at(es, i, p),
    ensures
        covered(es, p),
        cover_start(es, p) == es[i].start,
        cover_end(es, p) == es[i].end,
{
    let j = choose|j: int| covers_at(es, j, p);
    assert(covers_at(es, j, p));
    lemma_unique(t, es, i, j, p);
}

/// The edges of an element are not inside any element.
pub proof fn lemma_edges(t: Seq<u8>, es: Seq<ElementView>, i: int)
    requires
        elements_ok(t, es),
        0 <= i < es.len(),
    ensures
        !inside(es, es[i].start),
        !inside(es, es[i].end),
{
    if inside(es, es[i].start) {
        let j = choose|j: int| inside_at(es, j, es[i].start);
        lemma_unique(t, es, i, j, es[i].start);
    }
    if inside(es, es[i].end) {
        let j = choose|j: int| inside_at(es, j, es[i].end);
        lemma_unique(t, es, i, j, es[i].end);
    }
}

/// Snapping gives a boundary outside every element, in the right direction.
pub proof fn lemma_snap_ok(t: Seq<u8>, es: Seq<ElementView>, p: int)
    requires
        elements_ok(t, es),
        is_pos(t, p),
    ensures
        is_pos(t, snap_start(es, p)),
        is_pos(t, snap_end(es, p)),
        !inside(es, snap_start(es, p)),
        !inside(es, snap_end(es, p)),
        snap_start(es, p) <= p <= snap_end(es, p),
{
    if inside(es, p) {
        let i = choose|i: int| inside_at(es, i, p);
        assert(inside_at(es, i, p));
        lemma_edges(t, es, i);
    }
}

/// Neither edge of a byte that belongs to no element lies inside one.
pub proof fn lemma_uncovered_edges(es: Seq<ElementView>, p: int)
    requires
        !covered(es, p),
    ensures
        !inside(es, p),
        !inside(es, p + 1),
{
    if inside(es, p) {
        let i = choose|i: int| inside_at(es, i, p);
        assert(covers_at(es, i, p));
    }
    let q = p + 1;
    if inside(es, q) {
        let i = choose|i: int| inside_at(es, i, q);
        assert(covers_at(es, i, p));
    }
}

/// Every element after an edit comes from one before it, in order.
pub proof fn lemma_edited_elements(t: Seq<u8>, es: Seq<ElementView>, a: int, z: int, ins: Seq<u8>)
    requires
        elements_ok(t, es),
        a <= z,
        is_pos(t, a),
        is_pos(t, z),
        !inside(es, a),
        !inside(es, z),
        valid_utf8(ins),
    ensures
        elements_ok(spliced(t, a, z, ins), edited_elements(es, a, z, ins.len() as int)),
        es.len() > 0 && edited_elements(es, a, z, ins.len() as int).len() > 0 ==> ({
            let o = edited_elements(es, a, z, ins.len() as int).last().end;
            let k = es.last().end;
            ||| k <= a && o <= k
            ||| k > a && o <= a && k <= z
            ||| k >= z && o <= k - (z - a) + ins.len()
        }),
    decreases es.len(),
{
    let n = ins.len() as int;
    lemma_splice_pos(t, a, z, ins);
    if es.len() > 0 {
        let init = es.drop_last();
        let e = es.last();
        assert(e == es[es.len() - 1]);
        assert forall|i: int| 0 <= i < init.len() implies #[trigger] init[i] == es[i] by {}
        assert(elements_ok(t, init));
        assert(!inside(init, a)) by {
            if inside(init, a) {
                let i = choose|i: int| inside_at(init, i, a);
                assert(inside_at(es, i, a));
            }
        }
        assert(!inside(init, z)) by {
            if inside(init, z) {
                let i = choose|i: int| inside_at(init, i, z);
                assert(inside_at(es, i, z));
            }
        }
        lemma_edited_elements(t, init, a, z, ins);
        let rest = edited_elements(init, a, z, n);
        assert(!inside_at(es, es.len() - 1, a));
        assert(!inside_at(es, es.len() - 1, z));
        if init.len() > 0 {
            assert(init.last() == es[es.len() - 2]);
            assert(init.last().end <= e.start);
        } else {
            assert(rest.len() == 0);
        }
        if a <= e.start && e.end <= z {
        } else {
            let m = edited_elements(es, a, z, n).last();
            assert(edited_elements(es, a, z, n) == rest.push(m));
            if rest.len() > 0 {
                assert(rest.last().end <= m.start);
            }
            assert forall|i: int, j: int|
                #![trigger rest.push(m)[i], rest.push(m)[j]]
                0 <= i < j < rest.push(m).len() implies rest.push(m)[i].end
                <= rest.push(m)[j].start by {
                if j == rest.len() {
                    if i < rest.len() - 1 {
                        assert(rest[i].end <= rest[rest.len() - 1].start);
                        assert(rest[rest.len() - 1].start < rest[rest.len() - 1].end);
                    }
                }
            }
        }
    }
}

/// Where an element after an edit comes from.
pub proof fn lemma_edited_source(es: Seq<ElementView>, a: int, z: int, n: int, k: int)
    requires
        0 <= k < edited_elements(es, a, z, n).len(),
    ensures
        exists|i: int|
            0 <= i < es.len() && {
                let e = #[trigger] es[i];
                let o = edited_elements(es, a, z, n)[k];
                &&& o.id == e.id
                &&& !(a <= e.start && e.end <= z)
                &&& if e.start >= z {
                    o.start == e.start - (z - a) + n && o.end == e.end - (z - a) + n
                } else {
                    o == e
                }
            },
    decreases es.len(),
{
    if es.len() > 0 {
        let init = es.drop_last();
        let rest = edited_elements(init, a, z, n);
        if k < rest.len() {
            lemma_edited_source(init, a, z, n, k);
            let i = choose|i: int|
                0 <= i < init.len() && {
                    let e = #[trigger] init[i];
                    let o = rest[k];
                    &&& o.id == e.id
                    &&& !(a <= e.start && e.end <= z)
                    &&& if e.start >= z {
                        o.start == e.start - (z - a) + n && o.end == e.end - (z - a) + n
                    } else {
                        o == e
                    }
                };
            assert(es[i] == init[i]);
        } else {
            assert(es[es.len() - 1] == es.last());
        }
    }
}

/// Positions outside every element stay outside, through an edit that cuts no element.
pub proof fn lemma_edited_outside(
    t: Seq<u8>,
    es: Seq<ElementView>,
    a: int,
    z: int,
    n: int,
    p: int,
)
    requires
        elements_ok(t, es),
        a <= z,
        0 <= n,
        !inside(es, a),
        !inside(es, z),
        !inside(es, p) || a <= p <= z,
    ensures
        !inside(edited_elements(es, a, z, n), moved(p, a, z, n)),
        !inside(edited_elements(es, a, z, n), a),
{
    let os = edited_elements(es, a, z, n);
    let q = moved(p, a, z, n);
    if inside(os, q) {
        let k = choose|k: int| inside_at(os, k, q);
        lemma_edited_source(es, a, z, n, k);
        let i = choose|i: int|
            0 <= i < es.len() && {
                let e = #[trigger] es[i];
                let o = os[k];
                &&& o.id == e.id
                &&& !(a <= e.start && e.end <= z)
                &&& if e.start >= z {
                    o.start == e.start - (z - a) + n && o.end == e.end - (z - a) + n
                } else {
                    o == e
                }
            };
        assert(!inside_at(es, i, a));
        assert(!inside_at(es, i, z));
        assert(!inside_at(es, i, p) || a <= p <= z);
        assert(es[i].start < es[i].end);
    }
    if inside(os, a) {
        let k = choose|k: int| inside_at(os, k, a);
        lemma_edited_source(es, a, z, n, k);
        let i = choose|i: int|
            0 <= i < es.len() && {
                let e = #[trigger] es[i];
                let o = os[k];
                &&& o.id == e.id
                &&& !(a <= e.start && e.end <= z)
                &&& if e.start >= z {
                    o.start == e.start - (z - a) + n && o.end == e.end - (z - a) + n
                } else {
                    o == e
                }
            };
        assert(!inside_at(es, i, a));
        assert(!inside_at(es, i, z));
        assert(es[i].start < es[i].end);
    }
}

/// An edit that cuts no character and no element keeps the buffer well-formed.
pub proof fn lemma_edited_ok(b: Buffer, a: int, z: int, ins: Seq<u8>)
    requires
        buffer_ok(b),
        range_ok(b, a, z),
        valid_utf8(ins),
    ensures
        elements_ok(edited(b, a, z, ins).text, edited(b, a, z, ins).elements),
        is_pos(edited(b, a, z, ins).text, edited(b, a, z, ins).cursor),
        !inside(edited(b, a, z, ins).elements, edited(b, a, z, ins).cursor),
        is_pos(edited(b, a, z, ins).text, a),
        is_pos(edited(b, a, z, ins).text, a + ins.len()),
        !inside(edited(b, a, z, ins).elements, a),
        !inside(edited(b, a, z, ins).elements, a + ins.len()),
{
    lemma_edited_elements(b.text, b.elements, a, z, ins);
    lemma_edited_outside(b.text, b.elements, a, z, ins.len() as int, b.cursor);
    lemma_edited_outside(b.text, b.elements, a, z, ins.len() as int, z);
    lemma_splice_pos(b.text, a, z, ins);
}

} // verus!
