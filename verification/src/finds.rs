//! Character finds on a line, and jumps to a line of the text.

use crate::buffer::{
    buffer_ok, cover_end, covered, covers_at, inside, inside_at, lemma_cover, lemma_snap_ok,
    lemma_uncovered_edges, next_atomic, prev_atomic, snap_start, Buffer, ElementView,
};
use crate::editing::{killed, yanked};
use crate::lines::{
    first_non_blank, lemma_line_end, lemma_line_start, less_one, line_end, line_end_with_newline,
    line_start, line_steps,
};
use crate::operators::{in_order, operated};
use crate::segment::{grapheme_boundary, grapheme_indices, grapheme_starts, is_grapheme_boundary};
use crate::text::{
    byte_len, char_at, char_from, is_pos, lemma_ascii, lemma_zero_pos, plain_text, slice, spliced,
};
use crate::text_objects::positions;
use crate::textarea::{
    lemma_cursor_there, raw_edit, with_cursor, AreaView, KillBufferKind, TextArea,
};
use crate::vim::{VimFindKind, VimMode, VimOperator};
use vstd::prelude::*;
use vstd::utf8::*;

verus! {

/// Whether a command may aim at `p`: not behind the text, outside every element, where a grapheme
/// starts.
pub open spec fn command_target(t: Seq<u8>, es: Seq<ElementView>, p: int) -> bool {
    !covered(es, p) && p <= t.len() && grapheme_boundary(decode_utf8(t), p)
}

/// Whether `target` stands at `p` where a command may aim at it.
pub open spec fn hit(t: Seq<u8>, es: Seq<ElementView>, target: char, p: int) -> bool {
    char_at(t, p) == target && command_target(t, es, p)
}

/// Which of the graphemes that start at `starts` behind `a` are hits, in order.
pub open spec fn hits(
    t: Seq<u8>,
    es: Seq<ElementView>,
    target: char,
    a: int,
    starts: Seq<usize>,
) -> Seq<int>
    decreases starts.len(),
{
    if starts.len() == 0 {
        Seq::empty()
    } else {
        let before = hits(t, es, target, a, starts.drop_last());
        if hit(t, es, target, a + starts.last()) {
            before.push(starts.len() - 1)
        } else {
            before
        }
    }
}

/// The `count`-th of some graphemes of `a..z`, from the left or from the right, as a range.
pub open spec fn picked(
    a: int,
    z: int,
    starts: Seq<usize>,
    found: Seq<int>,
    count: nat,
    forward: bool,
) -> Option<(int, int)> {
    if count == 0 || found.len() < count {
        None
    } else {
        let i = if forward {
            found[count - 1]
        } else {
            found[found.len() - count]
        };
        Some(
            (
                a + starts[i],
                if i + 1 < starts.len() {
                    a + starts[i + 1]
                } else {
                    z
                },
            ),
        )
    }
}

/// The `count`-th hit in `a..z`, from the left or from the right, as a range.
pub open spec fn nth_hit(
    t: Seq<u8>,
    es: Seq<ElementView>,
    target: char,
    a: int,
    z: int,
    count: nat,
    forward: bool,
) -> Option<(int, int)> {
    let starts = grapheme_starts(decode_utf8(t.subrange(a, z)));
    picked(a, z, starts, hits(t, es, target, a, starts), count, forward)
}

/// The places in `a..z` outside every element where the byte `target` stands, in order.
pub open spec fn places(
    t: Seq<u8>,
    es: Seq<ElementView>,
    target: char,
    a: int,
    z: int,
) -> Seq<int>
    decreases z - a,
{
    if z <= a {
        Seq::empty()
    } else {
        let before = places(t, es, target, a, z - 1);
        if t[z - 1] as u32 == target as u32 && !covered(es, z - 1) {
            before.push(z - 1)
        } else {
            before
        }
    }
}

/// The places that a find from `c` looks at in plain text: those on the line behind the character
/// or element at `c`, or those on the line before `c`.
pub open spec fn places_by(
    t: Seq<u8>,
    es: Seq<ElementView>,
    c: int,
    kind: VimFindKind,
    target: char,
) -> Seq<int> {
    if kind.forward() {
        let start = if covered(es, c) {
            cover_end(es, c)
        } else {
            c + 1
        };
        places(t, es, target, start, line_end(t, c))
    } else {
        places(t, es, target, line_start(t, c), c)
    }
}

/// The `n`-th of some places, from the left or from the right.
pub open spec fn nth_place(all: Seq<int>, n: nat, forward: bool) -> int {
    if forward {
        all[n - 1]
    } else {
        all[all.len() - n]
    }
}

/// `count`, at least 1.
pub open spec fn at_least_one(count: nat) -> nat {
    if count == 0 {
        1
    } else {
        count
    }
}

/// What a find from the cursor comes upon, as a range.
pub open spec fn found_by(
    t: Seq<u8>,
    es: Seq<ElementView>,
    c: int,
    kind: VimFindKind,
    target: char,
    count: nat,
) -> Option<(int, int)> {
    if kind.forward() {
        let start = next_atomic(t, es, c);
        let eol = line_end(t, c);
        if c >= eol || start > eol {
            None
        } else {
            nth_hit(t, es, target, start, eol, at_least_one(count), true)
        }
    } else {
        nth_hit(t, es, target, line_start(t, c), c, at_least_one(count), false)
    }
}

/// The range between the cursor and what a find came upon.
pub open spec fn find_range(c: int, kind: VimFindKind, place: (int, int)) -> (int, int) {
    match kind {
        VimFindKind::Forward => (c, place.1),
        VimFindKind::Backward => (place.0, c),
        VimFindKind::TillForward => (c, place.0),
        VimFindKind::TillBackward => (place.1, c),
    }
}

/// Start of the last grapheme before `p`, or of the element around it; `c` if there is none.
pub open spec fn grapheme_before(t: Seq<u8>, es: Seq<ElementView>, c: int, p: int) -> int {
    last_start(es, c, grapheme_starts(decode_utf8(t.subrange(0, p))))
}

/// The last of `starts`, or the start of the element around it; `c` if there is none.
pub open spec fn last_start(es: Seq<ElementView>, c: int, starts: Seq<usize>) -> int {
    snap_start(
        es,
        if starts.len() == 0 {
            c
        } else {
            starts.last() as int
        },
    )
}

/// Where the cursor goes to what a find came upon.
pub open spec fn find_destination(
    t: Seq<u8>,
    es: Seq<ElementView>,
    c: int,
    kind: VimFindKind,
    place: (int, int),
) -> int {
    match kind {
        VimFindKind::Forward | VimFindKind::Backward => place.0,
        VimFindKind::TillForward => grapheme_before(t, es, c, place.0),
        VimFindKind::TillBackward => place.1,
    }
}

/// A find, as a cursor move or under an operator; nothing if there is no such hit.
#[verifier::opaque]
pub open spec fn found(
    m: AreaView,
    kind: VimFindKind,
    operator: Option<VimOperator>,
    target: char,
    count: nat,
) -> (AreaView, bool) {
    let t = m.buf.text;
    let es = m.buf.elements;
    let c = m.buf.cursor;
    match found_by(t, es, c, kind, target, count) {
        None => (m, false),
        Some(place) => match operator {
            Some(operator) => {
                let (a, z) = find_range(c, kind, place);
                let at = if operator == VimOperator::Yank {
                    with_cursor(m, a)
                } else {
                    m
                };
                (operated(at, operator, a, z), true)
            },
            None => (with_cursor(m, find_destination(t, es, c, kind, place)), true),
        },
    }
}

/// The find that goes onto the character, in the same direction.
pub open spec fn onto(kind: VimFindKind) -> VimFindKind {
    if kind.forward() {
        VimFindKind::Forward
    } else {
        VimFindKind::Backward
    }
}

/// What a find that comes upon something does in plain text, where `p` is the place of the
/// character and `d` where the cursor goes.
///
/// `f` and `F` go onto the character, `t` stops one step before it and `T` one step after it. Under
/// an operator, a forward motion takes the text from the cursor up to and with the character at
/// `d`, and a backward one that from `d` up to the character at the cursor, which stays.
pub open spec fn plainly_found(m: AreaView, kind: VimFindKind, target: char, count: nat) -> bool {
    let t = m.buf.text;
    let es = m.buf.elements;
    let c = m.buf.cursor;
    let len = t.len() as int;
    let p = found(m, onto(kind), None, target, count).0.buf.cursor;
    let d = found(m, kind, None, target, count).0.buf.cursor;
    let (a, z) = find_range(c, kind, (p, p + 1));
    let deleted = found(m, kind, Some(VimOperator::Delete), target, count).0;
    let changed = found(m, kind, Some(VimOperator::Change), target, count).0;
    let yanked = found(m, kind, Some(VimOperator::Yank), target, count).0;
    &&& line_start(t, c) <= p < line_end(t, c)
    &&& if kind.forward() {
        c < p
    } else {
        p < c
    }
    &&& t[p] as u32 == target as u32
    &&& d == match kind {
        VimFindKind::Forward | VimFindKind::Backward => p,
        VimFindKind::TillForward => snap_start(es, p - 1),
        VimFindKind::TillBackward => p + 1,
    }
    &&& found(m, kind, None, target, count).0.buf == (Buffer { cursor: d, ..m.buf })
    &&& deleted.buf.text == t.subrange(0, a) + t.subrange(z, len)
    &&& changed.buf.text == deleted.buf.text
    &&& yanked.buf.text == t
    &&& a < z ==> {
        &&& deleted.register == t.subrange(a, z)
        &&& changed.register == t.subrange(a, z)
        &&& yanked.register == t.subrange(a, z)
    }
    &&& es.len() == 0 ==> (a, z) == if kind.forward() {
        (c, d + 1)
    } else {
        (d, c)
    }
}

/// Whether the target of a till motion is right next to the cursor.
pub open spec fn till_adjacent(
    t: Seq<u8>,
    es: Seq<ElementView>,
    c: int,
    kind: VimFindKind,
    target: char,
) -> bool {
    if kind.forward() {
        let next = next_atomic(t, es, c);
        next < line_end(t, c) && hit(t, es, target, next)
    } else {
        let bol = line_start(t, c);
        let prev = prev_atomic(t, es, c);
        bol < c && bol <= prev && hit(t, es, target, prev)
    }
}

/// The line that a jump goes to: line `count`, or the last or first one.
pub open spec fn jump_target(t: Seq<u8>, last: bool, count: Option<usize>) -> int {
    match count {
        Some(line) => line_steps(t, 0, less_one(line as nat), true),
        None => if last {
            line_start(t, t.len() as int)
        } else {
            0
        },
    }
}

/// The lines from the current one to the target of a jump.
pub open spec fn jump_range(t: Seq<u8>, c: int, last: bool, count: Option<usize>) -> (int, int) {
    let current = line_start(t, c);
    if count is None && last {
        (current, t.len() as int)
    } else {
        let (first, end) = in_order(current, jump_target(t, last, count));
        (first, line_end_with_newline(t, end))
    }
}

/// A jump to a line, as a cursor move or under an operator.
#[verifier::opaque]
pub open spec fn jumped(
    m: AreaView,
    last: bool,
    operator: Option<VimOperator>,
    count: Option<usize>,
) -> AreaView {
    let t = m.buf.text;
    let (a, z) = jump_range(t, m.buf.cursor, last, count);
    match operator {
        Some(VimOperator::Delete) => killed(m, a, z, KillBufferKind::Linewise),
        Some(VimOperator::Yank) => yanked(m, a, z, KillBufferKind::Linewise),
        Some(VimOperator::Change) => AreaView {
            mode: VimMode::Insert,
            ..killed(m, a, z, KillBufferKind::Linewise)
        },
        None => {
            let there = with_cursor(m, jump_target(t, last, count));
            with_cursor(there, first_non_blank(t, there.buf.cursor))
        },
    }
}

/// Every hit is the index of a grapheme.
pub proof fn lemma_hits(
    t: Seq<u8>,
    es: Seq<ElementView>,
    target: char,
    a: int,
    starts: Seq<usize>,
)
    ensures
        hits(t, es, target, a, starts).len() <= starts.len(),
        forall|i: int|
            0 <= i < hits(t, es, target, a, starts).len() ==> {
                let k = #[trigger] hits(t, es, target, a, starts)[i];
                0 <= k < starts.len() && hit(t, es, target, a + starts[k])
            },
    decreases starts.len(),
{
    if starts.len() > 0 {
        lemma_hits(t, es, target, a, starts.drop_last());
    }
}

/// In plain text, where each byte is a grapheme that a command may aim at unless an element holds
/// it, the hits are the places of the character.
proof fn lemma_hits_are_places(
    t: Seq<u8>,
    es: Seq<ElementView>,
    target: char,
    a: int,
    starts: Seq<usize>,
)
    requires
        valid_utf8(t),
        plain_text(t),
        0 <= a,
        a + starts.len() <= t.len(),
        forall|i: int| 0 <= i < starts.len() ==> #[trigger] starts[i] == i,
        forall|i: int|
            0 <= i < starts.len() && char_at(t, a + starts[i]) == target && !covered(
                es,
                a + starts[i],
            ) ==> hit(t, es, target, a + #[trigger] starts[i]),
    ensures
        ({
            let all = places(t, es, target, a, a + starts.len());
            let found = hits(t, es, target, a, starts);
            &&& all.len() == found.len()
            &&& forall|i: int| 0 <= i < all.len() ==> #[trigger] all[i] == a + found[i]
        }),
    decreases starts.len(),
{
    if starts.len() > 0 {
        let init = starts.drop_last();
        assert forall|i: int| 0 <= i < init.len() implies #[trigger] init[i] == starts[i] by {}
        lemma_hits_are_places(t, es, target, a, init);
        let last = a + starts.len() - 1;
        assert(starts.last() == starts[starts.len() - 1]);
        lemma_ascii(t, last);
    }
}

/// The `count`-th of some graphemes of `a..z`, from the left or from the right.
pub fn pick_grapheme(
    a: usize,
    z: usize,
    starts: &Vec<usize>,
    found: &Vec<usize>,
    count: usize,
    forward: bool,
) -> (r: Option<(usize, usize)>)
    requires
        forall|i: int| 0 <= i < found@.len() ==> #[trigger] found@[i] < starts@.len(),
        forall|i: int| 0 <= i < starts@.len() ==> a + #[trigger] starts@[i] <= z,
    ensures
        match r {
            Some((p, q)) => picked(
                a as int,
                z as int,
                starts@,
                positions(found@),
                count as nat,
                forward,
            ) == Some((p as int, q as int)),
            None => picked(
                a as int,
                z as int,
                starts@,
                positions(found@),
                count as nat,
                forward,
            ) is None,
        },
{
    if count == 0 || found.len() < count {
        return None;
    }
    let k: usize = if forward {
        found[count - 1]
    } else {
        found[found.len() - count]
    };
    let p: usize = a + starts[k];
    let q: usize = if k < starts.len() - 1 {
        a + starts[k + 1]
    } else {
        z
    };
    Some((p, q))
}

/// The cursor can be put on a hit.
proof fn lemma_hit_cursor(m: AreaView, target: char, p: int)
    requires
        is_pos(m.buf.text, p),
        hit(m.buf.text, m.buf.elements, target, p),
    ensures
        with_cursor(m, p).buf.cursor == p,
{
    if inside(m.buf.elements, p) {
        let i = choose|i: int| inside_at(m.buf.elements, i, p);
        assert(covers_at(m.buf.elements, i, p));
    }
    lemma_cursor_there(m, p);
}

/// In plain text, where each character is a grapheme, a find goes by single bytes.
///
/// `place` is what the find comes upon: one byte, which starts where a command may aim; and a `t`
/// stops at the byte before it.
pub proof fn law_plain_finds(
    m: AreaView,
    kind: VimFindKind,
    target: char,
    count: nat,
    place: (int, int),
)
    requires
        buffer_ok(m.buf),
        plain_text(m.buf.text),
        ({
            let t = m.buf.text;
            let es = m.buf.elements;
            let c = m.buf.cursor;
            &&& found_by(t, es, c, kind, target, count) == Some(place)
            &&& line_start(t, c) <= place.0 < line_end(t, c)
            &&& if kind.forward() {
                c < place.0
            } else {
                place.0 < c
            }
            &&& hit(t, es, target, place.0)
            &&& place.1 == place.0 + 1
            &&& kind == VimFindKind::TillForward ==> grapheme_before(t, es, c, place.0)
                == snap_start(es, place.0 - 1)
        }),
    ensures
        found(m, kind, None, target, count).1,
        plainly_found(m, kind, target, count),
{
    reveal(found);
    reveal(raw_edit);
    let t = m.buf.text;
    let es = m.buf.elements;
    let c = m.buf.cursor;
    let (p, q) = place;
    lemma_line_start(t, c);
    lemma_line_end(t, c);
    lemma_ascii(t, p);
    if p > 0 {
        lemma_ascii(t, p - 1);
    }
    lemma_uncovered_edges(es, p);
    lemma_hit_cursor(m, target, p);
    lemma_cursor_there(m, p);
    lemma_cursor_there(m, q);
    if kind == VimFindKind::TillForward {
        lemma_snap_ok(t, es, p - 1);
        lemma_cursor_there(m, snap_start(es, p - 1));
    }
    let (a, z) = find_range(c, kind, (p, p + 1));
    assert(!inside(es, a) && !inside(es, z));
    assert(spliced(t, a, z, Seq::empty()) =~= t.subrange(0, a) + t.subrange(z, t.len() as int));
    if a == z {
        assert(t.subrange(0, a) + t.subrange(z, t.len() as int) =~= t);
    }
}

impl TextArea {
    /// Whether a command may aim at `position`.
    pub fn is_vim_command_target(&self, position: usize) -> (r: bool)
        requires
            position < self.bytes().len() && !covered(self.marks(), position as int) ==> is_pos(
                self.bytes(),
                position as int,
            ),
        ensures
            r == command_target(self.bytes(), self.marks(), position as int),
            plain_text(self.bytes()) ==> r == (position <= self.bytes().len() && !covered(
                self.marks(),
                position as int,
            )),
    {
        proof {
            encode_utf8_decode_utf8(self.text@);
        }
        if position > byte_len(&self.text) || self.is_inside_element(position) {
            return false;
        }
        self.may_aim_at(position, is_grapheme_boundary(&self.text, position))
    }

    /// Whether a command may aim at `position`, given whether a grapheme starts there.
    pub fn may_aim_at(&self, position: usize, boundary: bool) -> (r: bool)
        ensures
            r == (!covered(self.marks(), position as int) && boundary),
    {
        !self.is_inside_element(position) && boundary
    }

    /// Whether the target of a till motion is right next to the cursor.
    pub fn vim_till_target_is_adjacent(&self, motion: VimFindKind, target: char) -> (r: bool)
        requires
            self.wf(),
        ensures
            r == till_adjacent(
                self.bytes(),
                self.marks(),
                self@.buf.cursor,
                motion,
                target,
            ),
    {
        if motion.is_forward() {
            let next: usize = self.next_atomic_boundary(self.cursor_pos);
            next < self.end_of_current_line() && self.is_vim_command_target(next) && char_from(
                &self.text,
                next,
            ) == target
        } else {
            let bol: usize = self.beginning_of_current_line();
            if self.cursor_pos <= bol {
                return false;
            }
            let prev: usize = self.prev_atomic_boundary(self.cursor_pos);
            prev >= bol && self.is_vim_command_target(prev) && char_from(&self.text, prev)
                == target
        }
    }

    /// The `count`-th grapheme of `a..z` that starts with `target` where a command may aim at it,
    /// counted from the left or from the right.
    fn find_on_line(&self, target: char, a: usize, z: usize, count: usize, forward: bool) -> (r:
        Option<(usize, usize)>)
        requires
            self.wf(),
            a <= z,
            is_pos(self.bytes(), a as int),
            is_pos(self.bytes(), z as int),
        ensures
            match r {
                Some((p, q)) => {
                    &&& nth_hit(
                        self.bytes(),
                        self.marks(),
                        target,
                        a as int,
                        z as int,
                        count as nat,
                        forward,
                    ) == Some((p as int, q as int))
                    &&& a <= p <= q <= z
                    &&& p < z
                    &&& hit(self.bytes(), self.marks(), target, p as int)
                    &&& is_pos(self.bytes(), p as int)
                    &&& is_pos(self.bytes(), q as int)
                    &&& plain_text(self.bytes()) ==> q == p + 1
                },
                None => nth_hit(
                    self.bytes(),
                    self.marks(),
                    target,
                    a as int,
                    z as int,
                    count as nat,
                    forward,
                ) is None,
            },
            plain_text(self.bytes()) && count > 0 ==> {
                let all = places(self.bytes(), self.marks(), target, a as int, z as int);
                match r {
                    Some((p, _)) => count <= all.len() && p == nth_place(
                        all,
                        count as nat,
                        forward,
                    ),
                    None => all.len() < count,
                }
            },
    {
        let ghost t = self.bytes();
        let part: &str = slice(&self.text, a, z);
        let starts: Vec<usize> = grapheme_indices(part);
        proof {
            encode_utf8_decode_utf8(part@);
            assert forall|i: int| 0 <= i < starts@.len() implies a + #[trigger] starts@[i] < z
                && is_pos(t, a + starts@[i]) by {
                let s = t.subrange(a as int, z as int);
                assert(s[starts@[i] as int] == t[a + starts@[i]]);
            }
            if plain_text(t) {
                let s = t.subrange(a as int, z as int);
                assert forall|i: int| 0 <= i < s.len() implies #[trigger] s[i] < 0x80 && s[i]
                    != 0x0d by {
                    assert(s[i] == t[a + i]);
                }
            }
        }
        let found: Vec<usize> = self.hits_among(target, a, &starts);
        proof {
            lemma_hits(t, self.marks(), target, a as int, starts@);
            if plain_text(t) {
                lemma_hits_are_places(t, self.marks(), target, a as int, starts@);
            }
            assert forall|i: int| 0 <= i < found@.len() implies #[trigger] found@[i]
                < starts@.len() by {
                assert(positions(found@)[i] == found@[i]);
            }
        }
        pick_grapheme(a, z, &starts, &found, count, forward)
    }

    /// Which of the graphemes that start at `starts` behind `a` are hits.
    pub fn hits_among(&self, target: char, a: usize, starts: &Vec<usize>) -> (found: Vec<usize>)
        requires
            forall|i: int|
                0 <= i < starts@.len() ==> a + #[trigger] starts@[i] < self.bytes().len()
                    && is_pos(self.bytes(), a + starts@[i]),
        ensures
            positions(found@) == hits(self.bytes(), self.marks(), target, a as int, starts@),
            plain_text(self.bytes()) ==> forall|i: int|
                0 <= i < starts@.len() && char_at(self.bytes(), a + starts@[i]) == target
                    && !covered(self.marks(), a + starts@[i]) ==> hit(
                    self.bytes(),
                    self.marks(),
                    target,
                    a + #[trigger] starts@[i],
                ),
    {
        let ghost t = self.bytes();
        let ghost es = self.marks();
        let len: usize = byte_len(&self.text);
        let mut found: Vec<usize> = Vec::new();
        let mut i: usize = 0;
        assert(positions(found@) =~= hits(t, es, target, a as int, starts@.take(0)));
        while i < starts.len()
            invariant
                t == self.bytes(),
                es == self.marks(),
                len == t.len(),
                i <= starts.len(),
                forall|k: int|
                    0 <= k < starts@.len() ==> a + #[trigger] starts@[k] < len && is_pos(
                        t,
                        a + starts@[k],
                    ),
                positions(found@) == hits(t, es, target, a as int, starts@.take(i as int)),
                plain_text(t) ==> forall|k: int|
                    0 <= k < i && char_at(t, a + starts@[k]) == target && !covered(
                        es,
                        a + starts@[k],
                    ) ==> hit(t, es, target, a + #[trigger] starts@[k]),
            decreases starts.len() - i,
        {
            proof {
                assert(starts@.take(i as int + 1).drop_last() =~= starts@.take(i as int));
                assert(starts@.take(i as int + 1).last() == starts@[i as int]);
            }
            let ghost before = positions(found@);
            let p: usize = a + starts[i];
            if char_from(&self.text, p) == target && self.is_vim_command_target(p) {
                found.push(i);
                assert(positions(found@) =~= before.push(i as int));
            }
            i = i + 1;
        }
        proof {
            assert(starts@.take(starts@.len() as int) =~= starts@);
        }
        found
    }

    /// Where a till motion stops before `pos`.
    fn last_grapheme_before(&self, pos: usize) -> (r: usize)
        requires
            self.wf(),
            is_pos(self.bytes(), pos as int),
        ensures
            r == grapheme_before(self.bytes(), self.marks(), self@.buf.cursor, pos as int),
            plain_text(self.bytes()) && pos > 0 ==> r == snap_start(self.marks(), pos - 1),
    {
        proof {
            lemma_zero_pos(self.bytes());
        }
        let head: &str = slice(&self.text, 0, pos);
        let starts: Vec<usize> = grapheme_indices(head);
        proof {
            encode_utf8_decode_utf8(head@);
            if starts@.len() > 0 {
                let s = self.bytes().subrange(0, pos as int);
                assert(s[starts@.last() as int] == self.bytes()[starts@.last() as int]);
            }
            if plain_text(self.bytes()) {
                let s = self.bytes().subrange(0, pos as int);
                assert forall|i: int| 0 <= i < s.len() implies #[trigger] s[i] < 0x80 && s[i]
                    != 0x0d by {
                    assert(s[i] == self.bytes()[i]);
                }
            }
        }
        self.last_grapheme_start(&starts)
    }

    /// The last of `starts`, or the start of the element around it; the cursor if there is none.
    pub fn last_grapheme_start(&self, starts: &Vec<usize>) -> (r: usize)
        requires
            self.wf(),
            starts@.len() > 0 ==> is_pos(self.bytes(), starts@.last() as int),
        ensures
            r == last_start(self.marks(), self@.buf.cursor, starts@),
    {
        let n: usize = starts.len();
        let previous: usize = if n == 0 {
            self.cursor_pos
        } else {
            starts[n - 1]
        };
        self.element_start_around(previous)
    }

    /// What a find from the cursor comes upon.
    fn find_from_cursor(&self, motion: VimFindKind, target: char, count: usize) -> (r: Option<
        (usize, usize),
    >)
        requires
            self.wf(),
            count > 0,
        ensures
            match r {
                Some((p, q)) => {
                    let t = self.bytes();
                    let c = self@.buf.cursor;
                    &&& found_by(t, self.marks(), c, motion, target, count as nat) == Some(
                        (p as int, q as int),
                    )
                    &&& line_start(t, c) <= p < line_end(t, c)
                    &&& if motion.forward() {
                        c < p
                    } else {
                        q <= c
                    }
                    &&& p <= q
                    &&& p != c
                    &&& hit(t, self.marks(), target, p as int)
                    &&& is_pos(t, p as int)
                    &&& is_pos(t, q as int)
                    &&& plain_text(t) ==> q == p + 1
                },
                None => found_by(
                    self.bytes(),
                    self.marks(),
                    self@.buf.cursor,
                    motion,
                    target,
                    count as nat,
                ) is None,
            },
            plain_text(self.bytes()) ==> {
                let all = places_by(
                    self.bytes(),
                    self.marks(),
                    self@.buf.cursor,
                    motion,
                    target,
                );
                match r {
                    Some((p, _)) => count <= all.len() && p == nth_place(
                        all,
                        count as nat,
                        motion.forward(),
                    ),
                    None => all.len() < count,
                }
            },
    {
        let origin: usize = self.cursor_pos;
        proof {
            lemma_line_start(self.bytes(), origin as int);
            lemma_line_end(self.bytes(), origin as int);
        }
        if motion.is_forward() {
            let eol: usize = self.end_of_current_line();
            let start: usize = self.next_atomic_boundary(origin);
            proof {
                if covered(self.marks(), origin as int) {
                    let i = choose|i: int| covers_at(self.marks(), i, origin as int);
                    assert(covers_at(self.marks(), i, origin as int));
                    lemma_cover(self.bytes(), self.marks(), i, origin as int);
                    reveal(next_atomic);
                }
            }
            if origin >= eol || start > eol {
                None
            } else {
                self.find_on_line(target, start, eol, count, true)
            }
        } else {
            let bol: usize = self.beginning_of_current_line();
            self.find_on_line(target, bol, origin, count, false)
        }
    }

    /// Go to a character on the line, or apply an operator up to it; whether there is one.
    ///
    /// `f` and `F` land on the character, on the same line, behind or before the cursor; `t` and
    /// `T` find one whenever they do. In plain text all four go by single characters, and there is
    /// one to find exactly when the line holds as many as are counted.
    pub fn find_vim_character(
        &mut self,
        motion: VimFindKind,
        operator: Option<VimOperator>,
        target: char,
        count: usize,
    ) -> (r: bool)
        requires
            old(self).wf(),
        ensures
            (final(self)@, r) == found(old(self)@, motion, operator, target, count as nat),
            final(self).wf(),
            r && operator is None && !motion.till() ==> {
                let t = old(self)@.buf.text;
                let c = old(self)@.buf.cursor;
                let p = final(self)@.buf.cursor;
                &&& hit(t, old(self)@.buf.elements, target, p)
                &&& line_start(t, c) <= p < line_end(t, c)
                &&& if motion.forward() {
                    c < p
                } else {
                    p < c
                }
            },
            r == found(old(self)@, onto(motion), None, target, count as nat).1,
            r && plain_text(old(self)@.buf.text) ==> plainly_found(
                old(self)@,
                motion,
                target,
                count as nat,
            ),
            plain_text(old(self)@.buf.text) ==> {
                let m = old(self)@;
                let all = places_by(m.buf.text, m.buf.elements, m.buf.cursor, motion, target);
                let n = at_least_one(count as nat);
                &&& r == (n <= all.len())
                &&& r ==> found(m, onto(motion), None, target, count as nat).0.buf.cursor
                    == nth_place(all, n, motion.forward())
            },
    {
        proof {
            reveal(found);
        }
        let origin: usize = self.cursor_pos;
        let ghost asked = count as nat;
        let count: usize = if count == 0 {
            1
        } else {
            count
        };
        match self.find_from_cursor(motion, target, count) {
            None => false,
            Some((p, q)) => {
                proof {
                    lemma_hit_cursor(self@, target, p as int);
                }
                // Where the motion goes on its own; an operator takes the text up to there.
                let destination: usize = match motion {
                    VimFindKind::Forward | VimFindKind::Backward => p,
                    VimFindKind::TillForward => self.last_grapheme_before(p),
                    VimFindKind::TillBackward => q,
                };
                proof {
                    if plain_text(self.bytes()) {
                        law_plain_finds(self@, motion, target, asked, (p as int, q as int));
                    }
                }
                match operator {
                    Some(operator) => {
                        let range = match motion {
                            VimFindKind::Forward => origin..q,
                            VimFindKind::Backward => p..origin,
                            VimFindKind::TillForward => origin..p,
                            VimFindKind::TillBackward => q..origin,
                        };
                        if operator == VimOperator::Yank {
                            self.set_cursor(range.start);
                        }
                        self.apply_vim_operator_to_range(operator, range);
                    },
                    None => {
                        self.set_cursor(destination);
                    },
                }
                true
            },
        }
    }

    /// `gg`/`G` without a count target the first/last line; `NG` and `Ngg` target line `N`.
    pub fn jump_to_vim_buffer_line(
        &mut self,
        last: bool,
        operator: Option<VimOperator>,
        count: Option<usize>,
    )
        requires
            old(self).wf(),
        ensures
            final(self)@ == jumped(old(self)@, last, operator, count),
            final(self).wf(),
    {
        proof {
            reveal(jumped);
        }
        proof {
            lemma_zero_pos(self.bytes());
        }
        let len: usize = byte_len(&self.text);
        let target_start: usize = match count {
            Some(line) => {
                let steps: usize = if line > 0 {
                    line - 1
                } else {
                    0
                };
                self.step_logical_lines(0, steps, true)
            },
            None => if last {
                self.beginning_of_line(len)
            } else {
                0
            },
        };
        match operator {
            Some(operator) => {
                let current: usize = self.beginning_of_current_line();
                let range = if count.is_none() && last {
                    current..len
                } else {
                    let (first, end): (usize, usize) = if current <= target_start {
                        (current, target_start)
                    } else {
                        (target_start, current)
                    };
                    first..self.line_range_with_newline(end).end
                };
                match operator {
                    VimOperator::Delete => self.kill_line_range(range),
                    VimOperator::Yank => self.yank_line_range(range),
                    VimOperator::Change => {
                        self.kill_line_range(range);
                        self.vim_mode = VimMode::Insert;
                    },
                }
            },
            None => {
                self.set_cursor(target_start);
                self.set_cursor(self.first_non_blank_of_current_line());
            },
        }
    }
}

} // verus!
