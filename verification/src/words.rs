//! Words: pieces between word boundaries and separators, and the larger WORDs between whitespace.

use crate::buffer::{
    cover_end, covered, inside, lemma_cover, lemma_next_atomic, lemma_prev_atomic, next_atomic,
    prev_atomic, snap_end, snap_start, ElementView,
};
use crate::lines::{
    black_start, lemma_skip_black, non_whitespace_start, skip_black, skip_non_whitespace,
    skip_white, skip_whitespace, white_start, whitespace_start,
};
use crate::segment::{word_bound_indices, word_starts};
use crate::text::{
    after_char, before_char, byte_len, char_at, char_from, is_pos, is_whitespace, lemma_ascii,
    lemma_before_char, lemma_char, lemma_char_interior, lemma_floor_range, lemma_zero_pos,
    next_char, plain_text, prev_char, slice, white_at,
};
use crate::textarea::TextArea;
use std::ops::Range;
use vstd::prelude::*;
use vstd::utf8::*;

verus! {

/// ASCII punctuation other than the underscore.
pub open spec fn is_separator(c: char) -> bool {
    let u = c as u32;
    (0x21 <= u <= 0x2f) || (0x3a <= u <= 0x40) || (0x5b <= u <= 0x60 && u != 0x5f) || (0x7b <= u
        <= 0x7e)
}

/// Whether a separator starts at `p`.
pub open spec fn separator_at(t: Seq<u8>, p: int) -> bool {
    is_separator(char_at(t, p))
}

/// Whether `p` is among the offsets.
pub open spec fn has_start(starts: Seq<usize>, p: int) -> bool {
    exists|i: int| 0 <= i < starts.len() && #[trigger] starts[i] == p
}

/// The word boundaries of the run `a..z`, counted from `a`.
pub open spec fn run_starts(t: Seq<u8>, a: int, z: int) -> Seq<usize> {
    word_starts(decode_utf8(t.subrange(a, z)))
}

/// Whether a piece of the run from `a` on with the word boundaries `starts` ends and another
/// starts at `p`: there is a word boundary, or separators meet other characters.
pub open spec fn piece_break(t: Seq<u8>, starts: Seq<usize>, a: int, p: int) -> bool {
    ||| has_start(starts, p - a)
    ||| separator_at(t, p) != separator_at(t, before_char(t, p))
}

/// End of the piece of the run `a..z` with the word boundaries `starts` that `p` is in.
pub open spec fn piece_end(t: Seq<u8>, starts: Seq<usize>, a: int, z: int, p: int) -> int
    decreases
            (if p < z {
                z - p
            } else {
                0
            }),
{
    let q = after_char(t, p);
    if p >= z || q >= z {
        z
    } else if piece_break(t, starts, a, q) {
        q
    } else {
        piece_end(t, starts, a, z, q)
    }
}

/// The first piece of the run `a..z` with the word boundaries `starts`, from `p` on, that ends
/// after `c`, or the last one.
pub open spec fn piece_around(
    t: Seq<u8>,
    starts: Seq<usize>,
    a: int,
    z: int,
    p: int,
    c: int,
) -> (int, int)
    decreases
            (if p < z {
                z - p
            } else {
                0
            }),
{
    let e = piece_end(t, starts, a, z, p);
    if c < e || e >= z || e <= p {
        (p, e)
    } else {
        piece_around(t, starts, a, z, e, c)
    }
}

/// End of the separators from `p` on, within the run that ends at `z`.
pub open spec fn separators_end(t: Seq<u8>, p: int, z: int) -> int
    decreases
            (if p < z {
                z - p
            } else {
                0
            }),
{
    if p >= z {
        z
    } else if separator_at(t, p) {
        separators_end(t, after_char(t, p), z)
    } else {
        p
    }
}

/// Start of the separators that end at `p`, within the run that starts at `a`.
pub open spec fn separators_start(t: Seq<u8>, a: int, p: int) -> int
    decreases p,
{
    if p <= a || p <= 0 {
        p
    } else if separator_at(t, before_char(t, p)) {
        proof {
            lemma_floor_range(t, p - 1);
        }
        separators_start(t, a, before_char(t, p))
    } else {
        p
    }
}

/// End of the word that `c` is in or before.
pub open spec fn word_end_from(t: Seq<u8>, es: Seq<ElementView>, c: int) -> int {
    let len = t.len() as int;
    let w = skip_white(t, c, len);
    if w >= len {
        len
    } else {
        let z = skip_black(t, w, len);
        if separator_at(t, w) {
            snap_end(es, separators_end(t, w, z))
        } else {
            snap_end(es, piece_end(t, run_starts(t, w, z), w, z, w))
        }
    }
}

/// Start of the word that `c` is after.
pub open spec fn word_start_before(t: Seq<u8>, es: Seq<ElementView>, c: int) -> int {
    let z = white_start(t, c);
    if z <= 0 {
        0
    } else {
        let a = black_start(t, z);
        if separator_at(t, before_char(t, z)) {
            snap_start(es, separators_start(t, a, z))
        } else {
            snap_start(es, piece_around(t, run_starts(t, a, z), a, z, a, z).0)
        }
    }
}

/// Start of the first word after the one that `c` is in. An element is one word.
pub open spec fn next_word_from(t: Seq<u8>, es: Seq<ElementView>, c: int) -> int {
    let len = t.len() as int;
    let end = if covered(es, c) {
        cover_end(es, c)
    } else if white_at(t, c) {
        c
    } else {
        word_end_from(t, es, c)
    };
    snap_start(es, skip_white(t, end, len))
}

/// The last position of the word that `c` is in, or of the next one from its last position.
pub open spec fn word_end_cursor(t: Seq<u8>, es: Seq<ElementView>, c: int) -> int {
    end_cursor(t, es, c, word_end_from(t, es, c), word_end_from(t, es, word_end_from(t, es, c)))
}

/// The position before `end`, or before `next_end` if that is where the cursor already is.
pub open spec fn end_cursor(
    t: Seq<u8>,
    es: Seq<ElementView>,
    c: int,
    end: int,
    next_end: int,
) -> int {
    let target = if end > c {
        prev_atomic(t, es, end)
    } else {
        end
    };
    if target == c && end < t.len() {
        prev_atomic(t, es, next_end)
    } else {
        target
    }
}

/// Whether `p` begins whitespace separating WORDs; the inside of an element never does.
pub open spec fn big_separator(t: Seq<u8>, es: Seq<ElementView>, p: int) -> bool {
    !covered(es, p) && white_at(t, p)
}

/// Start of the first WORD after `p`, given whether whitespace was seen at or before it.
pub open spec fn next_big_word(t: Seq<u8>, es: Seq<ElementView>, p: int, saw: bool) -> int
    decreases t.len() - p,
{
    let q = next_atomic(t, es, p);
    if p >= t.len() || q >= t.len() {
        t.len() as int
    } else {
        proof {
            lemma_next_atomic(t, es, p);
        }
        if big_separator(t, es, q) {
            next_big_word(t, es, q, true)
        } else if saw {
            q
        } else {
            next_big_word(t, es, q, false)
        }
    }
}

/// In plain text without elements, the character before `p` is the byte before it.
proof fn lemma_plain_step(t: Seq<u8>, es: Seq<ElementView>, p: int)
    requires
        valid_utf8(t),
        plain_text(t),
        es.len() == 0,
        0 < p <= t.len(),
    ensures
        before_char(t, p) == p - 1,
        !covered(es, p - 1),
        big_separator(t, es, p - 1) == white_at(t, p - 1),
{
    lemma_ascii(t, p - 1);
}

/// The last position of a WORD before `p`.
pub open spec fn back_into_big_word(t: Seq<u8>, es: Seq<ElementView>, p: int) -> int
    decreases p,
{
    let q = prev_atomic(t, es, p);
    if p <= 0 {
        0
    } else {
        proof {
            lemma_prev_atomic(t, es, p);
        }
        if big_separator(t, es, q) {
            back_into_big_word(t, es, q)
        } else {
            q
        }
    }
}

/// Start of the WORD that `p` is in.
pub open spec fn big_word_start(t: Seq<u8>, es: Seq<ElementView>, p: int) -> int
    decreases p,
{
    let q = prev_atomic(t, es, p);
    if p <= 0 {
        p
    } else {
        proof {
            lemma_prev_atomic(t, es, p);
        }
        if big_separator(t, es, q) {
            p
        } else {
            big_word_start(t, es, q)
        }
    }
}

/// The first position from `p` on where whitespace between WORDs stops (`white`), or starts.
pub open spec fn skip_big(t: Seq<u8>, es: Seq<ElementView>, p: int, white: bool) -> int
    decreases t.len() - p,
{
    if p < t.len() && big_separator(t, es, p) == white {
        proof {
            lemma_next_atomic(t, es, p);
        }
        skip_big(t, es, next_atomic(t, es, p), white)
    } else {
        p
    }
}

/// End of the WORD that `c` is in or before.
pub open spec fn big_word_end(t: Seq<u8>, es: Seq<ElementView>, c: int) -> int {
    skip_big(t, es, skip_big(t, es, c, true), false)
}

/// Whether a byte is ASCII whitespace.
pub open spec fn blank_byte(b: u8) -> bool {
    9 <= b <= 13 || b == 32
}

/// Whether `p` follows whitespace and is none itself.
pub open spec fn begins_word(t: Seq<u8>, p: int) -> bool {
    0 < p < t.len() && !blank_byte(t[p]) && blank_byte(t[p - 1])
}

/// Whether a stretch without whitespace starts at `p`, at the start of the text too.
pub open spec fn starts_word(t: Seq<u8>, p: int) -> bool {
    0 <= p < t.len() && !blank_byte(t[p]) && (p == 0 || blank_byte(t[p - 1]))
}

/// Whether `p` is whitespace and follows none.
pub open spec fn leaves_word(t: Seq<u8>, p: int) -> bool {
    0 < p < t.len() && blank_byte(t[p]) && !blank_byte(t[p - 1])
}

/// Whether `p` is the last byte of a stretch without whitespace.
pub open spec fn ends_word(t: Seq<u8>, p: int) -> bool {
    0 <= p < t.len() && !blank_byte(t[p]) && (p + 1 == t.len() || blank_byte(t[p + 1]))
}

/// `r` is the first place behind `c` that begins a word, or the end of the text.
pub open spec fn first_beginning(t: Seq<u8>, c: int, r: int) -> bool {
    &&& c <= r <= t.len()
    &&& r < t.len() ==> c < r && begins_word(t, r)
    &&& forall|q: int| c < q < r ==> !begins_word(t, q)
}

/// `r` is the last place before `c` that starts a word, or the start of the text.
pub open spec fn last_start_before(t: Seq<u8>, c: int, r: int) -> bool {
    &&& 0 <= r <= c
    &&& r > 0 ==> r < c && starts_word(t, r)
    &&& forall|q: int| r < q < c ==> !starts_word(t, q)
}

/// `r` is the first place behind `c` that leaves a word, or the end of the text.
pub open spec fn first_leaving(t: Seq<u8>, c: int, r: int) -> bool {
    &&& c <= r <= t.len()
    &&& r < t.len() ==> c < r && leaves_word(t, r)
    &&& forall|q: int| c < q < r ==> !leaves_word(t, q)
}

/// `r` is the first place behind `c` that ends a word, or the last one of the text.
pub open spec fn first_ending(t: Seq<u8>, c: int, r: int) -> bool {
    &&& c <= r <= t.len()
    &&& c < r && ends_word(t, r) || r == if c < t.len() {
        t.len() - 1
    } else {
        c
    }
    &&& forall|q: int| c < q < r ==> !ends_word(t, q)
}

/// Before the place that leaves a word is the one that ends it.
proof fn lemma_leaving_ends(t: Seq<u8>, c: int, z: int)
    requires
        0 <= c <= t.len(),
        first_leaving(t, c, z),
    ensures
        c < z < t.len() ==> ends_word(t, z - 1),
        forall|q: int| c <= q < z - 1 ==> !ends_word(t, q),
{
    assert forall|q: int| c <= q < z - 1 implies !ends_word(t, q) by {
        assert(!leaves_word(t, q + 1));
    }
}

/// In plain text whitespace is ASCII whitespace.
pub proof fn lemma_plain_white(t: Seq<u8>)
    requires
        valid_utf8(t),
        plain_text(t),
    ensures
        forall|p: int| 0 <= p < t.len() ==> #[trigger] white_at(t, p) == blank_byte(t[p]),
{
    assert forall|p: int| 0 <= p < t.len() implies #[trigger] white_at(t, p) == blank_byte(
        t[p],
    ) by {
        lemma_ascii(t, p);
    }
}

/// The maximal stretches without whitespace from `p` on, in order.
pub open spec fn runs_from(t: Seq<u8>, p: int) -> Seq<(int, int)>
    decreases t.len() - p,
{
    let len = t.len() as int;
    let a = skip_white(t, p, len);
    let z = skip_black(t, a, len);
    if a >= len || !(p < z <= len) {
        Seq::empty()
    } else {
        seq![(a, z)] + runs_from(t, z)
    }
}

/// Whether `c` is in the run or right at its end.
pub open spec fn touches(run: (int, int), c: int) -> bool {
    run.0 <= c < run.1 || run.0 < run.1 && c == run.1
}

/// The first run that `c` touches.
pub open spec fn run_around(runs: Seq<(int, int)>, c: int) -> Option<(int, int)>
    decreases runs.len(),
{
    if runs.len() == 0 {
        None
    } else if touches(runs[0], c) {
        Some(runs[0])
    } else {
        run_around(runs.drop_first(), c)
    }
}

/// The word piece around `c`.
pub open spec fn small_word_around(t: Seq<u8>, c: int) -> Option<(int, int)> {
    match run_around(runs_from(t, 0), c) {
        Some(run) => Some(
            piece_around(t, run_starts(t, run.0, run.1), run.0, run.1, run.0, c),
        ),
        None => None,
    }
}

/// Ranges as pairs of positions.
pub open spec fn range_views(rs: Seq<Range<usize>>) -> Seq<(int, int)> {
    Seq::new(rs.len(), |i: int| (rs[i].start as int, rs[i].end as int))
}

pub proof fn lemma_piece_end(t: Seq<u8>, starts: Seq<usize>, a: int, z: int, p: int)
    requires
        valid_utf8(t),
        is_pos(t, p),
        is_pos(t, z),
        p < z,
    ensures
        p < piece_end(t, starts, a, z, p) <= z,
        is_pos(t, piece_end(t, starts, a, z, p)),
    decreases z - p,
{
    lemma_char(t, p);
    let q = after_char(t, p);
    if q < z && !piece_break(t, starts, a, q) {
        lemma_piece_end(t, starts, a, z, q);
    }
}

/// Whether `c` is a separator.
pub fn is_word_separator(c: char) -> (r: bool)
    ensures
        r == is_separator(c),
{
    let u: u32 = c as u32;
    (0x21 <= u && u <= 0x2f) || (0x3a <= u && u <= 0x40) || (0x5b <= u && u <= 0x60 && u != 0x5f)
        || (0x7b <= u && u <= 0x7e)
}

impl TextArea {
    /// Whether a piece starts at `p`, where `starts` are the word boundaries of the run from `a`.
    pub fn starts_piece(&self, starts: &Vec<usize>, a: usize, p: usize) -> (r: bool)
        requires
            a < p < self.bytes().len(),
            is_pos(self.bytes(), p as int),
        ensures
            r == piece_break(self.bytes(), starts@, a as int, p as int),
    {
        let mut i: usize = 0;
        while i < starts.len()
            invariant
                i <= starts.len(),
                a < p,
                forall|j: int| 0 <= j < i ==> #[trigger] starts@[j] != p - a,
            decreases starts.len() - i,
        {
            if starts[i] == p - a {
                return true;
            }
            i = i + 1;
        }
        let q: usize = prev_char(&self.text, p);
        is_word_separator(char_from(&self.text, p)) != is_word_separator(char_from(&self.text, q))
    }

    /// The word boundaries of the run `a..z`.
    fn run_word_starts(&self, a: usize, z: usize) -> (starts: Vec<usize>)
        requires
            a <= z,
            is_pos(self.bytes(), a as int),
            is_pos(self.bytes(), z as int),
        ensures
            starts@ == run_starts(self.bytes(), a as int, z as int),
    {
        let run: &str = slice(&self.text, a, z);
        proof {
            encode_utf8_decode_utf8(run@);
        }
        word_bound_indices(run)
    }

    /// End of the piece that `p` is in, where `starts` are the word boundaries of the run `a..z`.
    pub fn end_of_piece(&self, starts: &Vec<usize>, a: usize, z: usize, p: usize) -> (r: usize)
        requires
            a <= p < z,
            is_pos(self.bytes(), z as int),
            is_pos(self.bytes(), p as int),
        ensures
            r == piece_end(self.bytes(), starts@, a as int, z as int, p as int),
            p < r <= z,
            is_pos(self.bytes(), r as int),
    {
        proof {
            encode_utf8_valid_utf8(self.text@);
            lemma_piece_end(self.bytes(), starts@, a as int, z as int, p as int);
        }
        let mut at: usize = p;
        loop
            invariant
                a <= p <= at < z,
                valid_utf8(self.bytes()),
                is_pos(self.bytes(), z as int),
                is_pos(self.bytes(), at as int),
                piece_end(self.bytes(), starts@, a as int, z as int, at as int) == piece_end(
                    self.bytes(),
                    starts@,
                    a as int,
                    z as int,
                    p as int,
                ),
            decreases z - at,
        {
            proof {
                lemma_piece_end(self.bytes(), starts@, a as int, z as int, at as int);
            }
            let q: usize = next_char(&self.text, at);
            if q >= z {
                return z;
            }
            if self.starts_piece(starts, a, q) {
                return q;
            }
            at = q;
        }
    }

    /// The first piece of the run `a..z` that ends after `c`, or the last one.
    pub fn piece_range(&self, a: usize, z: usize, c: usize) -> (r: Range<usize>)
        requires
            a < z,
            is_pos(self.bytes(), a as int),
            is_pos(self.bytes(), z as int),
        ensures
            (r.start as int, r.end as int) == piece_around(
                self.bytes(),
                run_starts(self.bytes(), a as int, z as int),
                a as int,
                z as int,
                a as int,
                c as int,
            ),
            a <= r.start < r.end <= z,
            is_pos(self.bytes(), r.start as int),
            is_pos(self.bytes(), r.end as int),
    {
        let starts: Vec<usize> = self.run_word_starts(a, z);
        self.piece_range_in(&starts, a, z, c)
    }

    /// The first piece of the run `a..z` that ends after `c`, or the last one, where `starts` are
    /// the word boundaries of the run.
    pub fn piece_range_in(&self, starts: &Vec<usize>, a: usize, z: usize, c: usize) -> (r: Range<
        usize,
    >)
        requires
            a < z,
            is_pos(self.bytes(), a as int),
            is_pos(self.bytes(), z as int),
        ensures
            (r.start as int, r.end as int) == piece_around(
                self.bytes(),
                starts@,
                a as int,
                z as int,
                a as int,
                c as int,
            ),
            a <= r.start < r.end <= z,
            is_pos(self.bytes(), r.start as int),
            is_pos(self.bytes(), r.end as int),
    {
        let mut at: usize = a;
        loop
            invariant
                a <= at < z,
                is_pos(self.bytes(), z as int),
                is_pos(self.bytes(), at as int),
                piece_around(self.bytes(), starts@, a as int, z as int, at as int, c as int)
                    == piece_around(
                    self.bytes(),
                    starts@,
                    a as int,
                    z as int,
                    a as int,
                    c as int,
                ),
            decreases z - at,
        {
            let e: usize = self.end_of_piece(starts, a, z, at);
            if c < e || e >= z {
                return at..e;
            }
            at = e;
        }
    }

    /// End of the word that `c` is in or before.
    pub fn end_of_next_word_from(&self, c: usize) -> (r: usize)
        requires
            self.wf(),
            is_pos(self.bytes(), c as int),
        ensures
            r == word_end_from(self.bytes(), self.marks(), c as int),
            is_pos(self.bytes(), r as int),
            c <= r,
            !inside(self.marks(), r as int),
    {
        let len: usize = byte_len(&self.text);
        proof {
            lemma_zero_pos(self.bytes());
            crate::textarea::lemma_len_outside(self.bytes(), self.marks());
        }
        let w: usize = skip_whitespace(&self.text, c, len);
        if w >= len {
            return len;
        }
        let z: usize = skip_non_whitespace(&self.text, w, len);
        if is_word_separator(char_from(&self.text, w)) {
            let mut at: usize = w;
            while at < z && is_word_separator(char_from(&self.text, at))
                invariant
                    w <= at <= z <= len,
                    len == self.bytes().len(),
                    valid_utf8(self.bytes()),
                    is_pos(self.bytes(), at as int),
                    is_pos(self.bytes(), z as int),
                    separators_end(self.bytes(), at as int, z as int) == separators_end(
                        self.bytes(),
                        w as int,
                        z as int,
                    ),
                decreases z - at,
            {
                proof {
                    lemma_char(self.bytes(), at as int);
                    if after_char(self.bytes(), at as int) > z {
                        lemma_char_interior(self.bytes(), at as int, z as int);
                    }
                }
                at = next_char(&self.text, at);
            }
            self.element_end_around(at)
        } else {
            proof {
                lemma_skip_white_stop(self.bytes(), c as int, len as int);
                lemma_skip_black_moves(self.bytes(), w as int, len as int);
            }
            let starts: Vec<usize> = self.run_word_starts(w, z);
            let e: usize = self.end_of_piece(&starts, w, z, w);
            self.element_end_around(e)
        }
    }

    /// End of the word that the cursor is in or before.
    pub fn end_of_next_word(&self) -> (r: usize)
        requires
            self.wf(),
        ensures
            r == word_end_from(self.bytes(), self.marks(), self@.buf.cursor),
            is_pos(self.bytes(), r as int),
    {
        self.end_of_next_word_from(self.cursor_pos)
    }

    /// Start of the word that `c` is after.
    pub fn beginning_of_previous_word_from(&self, c: usize) -> (r: usize)
        requires
            self.wf(),
            is_pos(self.bytes(), c as int),
        ensures
            r == word_start_before(self.bytes(), self.marks(), c as int),
            is_pos(self.bytes(), r as int),
            r <= c,
            !inside(self.marks(), r as int),
    {
        proof {
            lemma_zero_pos(self.bytes());
            assert(!inside(self.marks(), 0));
        }
        let z: usize = whitespace_start(&self.text, c);
        if z == 0 {
            return 0;
        }
        let a: usize = non_whitespace_start(&self.text, z);
        let last: usize = prev_char(&self.text, z);
        proof {
            lemma_black_start_moves(self.bytes(), c as int);
        }
        if is_word_separator(char_from(&self.text, last)) {
            let mut at: usize = z;
            while at > a && is_word_separator(
                char_from(&self.text, prev_char(&self.text, at)),
            )
                invariant
                    a <= at <= z,
                    is_pos(self.bytes(), a as int),
                    is_pos(self.bytes(), at as int),
                    separators_start(self.bytes(), a as int, at as int) == separators_start(
                        self.bytes(),
                        a as int,
                        z as int,
                    ),
                    valid_utf8(self.bytes()),
                decreases at,
            {
                let q: usize = prev_char(&self.text, at);
                proof {
                    lemma_before_char(self.bytes(), at as int);
                    if q < a {
                        lemma_char_interior(self.bytes(), q as int, a as int);
                    }
                }
                at = q;
            }
            self.element_start_around(at)
        } else {
            let start: usize = self.piece_range(a, z, z).start;
            self.element_start_around(start)
        }
    }

    /// Start of the word that the cursor is after.
    pub fn beginning_of_previous_word(&self) -> (r: usize)
        requires
            self.wf(),
        ensures
            r == word_start_before(self.bytes(), self.marks(), self@.buf.cursor),
            is_pos(self.bytes(), r as int),
    {
        self.beginning_of_previous_word_from(self.cursor_pos)
    }

    /// Start of the first word after the one that `c` is in.
    pub fn beginning_of_next_word_from(&self, c: usize) -> (r: usize)
        requires
            self.wf(),
            is_pos(self.bytes(), c as int),
        ensures
            r == next_word_from(self.bytes(), self.marks(), c as int),
            is_pos(self.bytes(), r as int),
            !inside(self.marks(), r as int),
    {
        let len: usize = byte_len(&self.text);
        proof {
            lemma_zero_pos(self.bytes());
        }
        let end: usize = match self.find_element_at(c) {
            Some(i) => {
                proof {
                    lemma_cover(self.bytes(), self.marks(), i as int, c as int);
                }
                self.elements[i].range.end
            },
            None => if c < len && is_whitespace(char_from(&self.text, c)) {
                c
            } else {
                self.end_of_next_word_from(c)
            },
        };
        let w: usize = skip_whitespace(&self.text, end, len);
        self.element_start_around(w)
    }

    /// The last position of the word that `c` is in, or of the next one.
    pub fn vim_word_end_cursor_from(&self, c: usize) -> (r: usize)
        requires
            self.wf(),
            is_pos(self.bytes(), c as int),
        ensures
            r == word_end_cursor(self.bytes(), self.marks(), c as int),
            is_pos(self.bytes(), r as int),
    {
        let len: usize = byte_len(&self.text);
        let end: usize = self.end_of_next_word_from(c);
        let target: usize = if end > c {
            self.prev_atomic_boundary(end)
        } else {
            end
        };
        if target == c && end < len {
            self.prev_atomic_boundary(self.end_of_next_word_from(end))
        } else {
            target
        }
    }

    /// Whether `pos` begins whitespace separating WORDs.
    ///
    /// An element is one indivisible WORD, so its interior never separates, even though
    /// placeholders like `[Pasted Content 12 chars]` hold spaces.
    pub fn starts_big_word_separator(&self, pos: usize) -> (r: bool)
        requires
            is_pos(self.bytes(), pos as int),
        ensures
            r == big_separator(self.bytes(), self.marks(), pos as int),
    {
        if self.find_element_at(pos).is_some() {
            return false;
        }
        pos < byte_len(&self.text) && is_whitespace(char_from(&self.text, pos))
    }

    /// Start of the first WORD after `from`.
    pub fn beginning_of_next_big_word_from(&self, from: usize) -> (r: usize)
        requires
            self.wf(),
            is_pos(self.bytes(), from as int),
        ensures
            r == next_big_word_start(self.bytes(), self.marks(), from as int),
            is_pos(self.bytes(), r as int),
            plain_text(self.bytes()) && self.marks().len() == 0 ==> first_beginning(
                self.bytes(),
                from as int,
                r as int,
            ),
    {
        let len: usize = byte_len(&self.text);
        let ghost t = self.bytes();
        let ghost plain = plain_text(t) && self.marks().len() == 0;
        proof {
            lemma_zero_pos(self.bytes());
            if plain {
                lemma_plain_white(t);
            }
        }
        let mut pos: usize = from;
        let mut saw_whitespace = self.starts_big_word_separator(pos);
        while pos < len
            invariant
                self.wf(),
                len == self.bytes().len(),
                is_pos(self.bytes(), pos as int),
                is_pos(self.bytes(), len as int),
                next_big_word(self.bytes(), self.marks(), pos as int, saw_whitespace)
                    == next_big_word_start(self.bytes(), self.marks(), from as int),
                t == self.bytes(),
                from <= pos,
                plain == (plain_text(t) && self.marks().len() == 0),
                plain ==> {
                    &&& forall|p: int|
                        0 <= p < t.len() ==> #[trigger] white_at(t, p) == blank_byte(t[p])
                    &&& saw_whitespace == (pos < len && blank_byte(t[pos as int]))
                    &&& forall|q: int| from < q <= pos ==> !begins_word(t, q)
                },
            decreases len - pos,
        {
            let next: usize = self.next_atomic_boundary(pos);
            if next >= len {
                return len;
            }
            if self.starts_big_word_separator(next) {
                saw_whitespace = true;
            } else if saw_whitespace {
                return next;
            }
            pos = next;
        }
        len
    }

    /// Start of the first WORD after the cursor.
    pub fn beginning_of_next_big_word(&self) -> (r: usize)
        requires
            self.wf(),
        ensures
            r == next_big_word_start(self.bytes(), self.marks(), self@.buf.cursor),
            is_pos(self.bytes(), r as int),
            plain_text(self.bytes()) && self.marks().len() == 0 ==> first_beginning(
                self.bytes(),
                self@.buf.cursor,
                r as int,
            ),
    {
        self.beginning_of_next_big_word_from(self.cursor_pos)
    }

    /// Start of the WORD that ends or is under way before `from`.
    pub fn beginning_of_previous_big_word_from(&self, from: usize) -> (r: usize)
        requires
            self.wf(),
            is_pos(self.bytes(), from as int),
        ensures
            r == previous_big_word_start(self.bytes(), self.marks(), from as int),
            is_pos(self.bytes(), r as int),
            plain_text(self.bytes()) && self.marks().len() == 0 ==> r == black_start(
                self.bytes(),
                white_start(self.bytes(), from as int),
            ) && last_start_before(self.bytes(), from as int, r as int),
    {
        proof {
            lemma_zero_pos(self.bytes());
        }
        let ghost t = self.bytes();
        let ghost es = self.marks();
        let ghost plain = plain_text(t) && es.len() == 0;
        proof {
            if plain {
                lemma_plain_white(t);
            }
        }
        let mut pos: usize = from;
        loop
            invariant_except_break
                plain ==> forall|q: int| pos <= q < from ==> blank_byte(#[trigger] t[q]),
                back_into_big_word(t, es, pos as int) == back_into_big_word(t, es, from as int),
                plain ==> white_start(t, pos as int) == white_start(t, from as int),
            invariant
                self.wf(),
                t == self.bytes(),
                es == self.marks(),
                plain == (plain_text(t) && es.len() == 0),
                plain ==> forall|p: int|
                    0 <= p < t.len() ==> #[trigger] white_at(t, p) == blank_byte(t[p]),
                is_pos(t, pos as int),
                is_pos(t, 0),
                pos <= from <= t.len(),
            ensures
                is_pos(t, pos as int),
                pos <= from,
                plain && pos < from ==> !blank_byte(t[pos as int]) && forall|q: int|
                    pos < q < from ==> blank_byte(#[trigger] t[q]),
                plain && pos == from ==> pos == 0,
                pos as int == back_into_big_word(t, es, from as int),
                plain ==> black_start(t, pos as int) == black_start(
                    t,
                    white_start(t, from as int),
                ),
            decreases pos,
        {
            let prev: usize = self.prev_atomic_boundary(pos);
            proof {
                if plain && pos > 0 {
                    lemma_plain_step(t, es, pos as int);
                }
            }
            if prev == pos {
                return 0;
            }
            let separator = self.starts_big_word_separator(prev);
            pos = prev;
            if !separator {
                break;
            }
        }
        let ghost inner = pos as int;
        loop
            invariant
                self.wf(),
                t == self.bytes(),
                es == self.marks(),
                is_pos(t, pos as int),
                pos <= inner <= from <= t.len(),
                plain ==> forall|p: int|
                    0 <= p < t.len() ==> #[trigger] white_at(t, p) == blank_byte(t[p]),
                plain && inner == from ==> inner == 0,
                plain && inner < from ==> {
                    &&& forall|q: int| pos <= q <= inner ==> !blank_byte(#[trigger] t[q])
                    &&& forall|q: int| inner < q < from ==> blank_byte(#[trigger] t[q])
                },
                inner == back_into_big_word(t, es, from as int),
                big_word_start(t, es, pos as int) == big_word_start(t, es, inner),
                plain == (plain_text(t) && es.len() == 0),
                plain ==> black_start(t, pos as int) == black_start(
                    t,
                    white_start(t, from as int),
                ),
            decreases pos,
        {
            let prev: usize = self.prev_atomic_boundary(pos);
            proof {
                if plain && pos > 0 {
                    lemma_plain_step(t, es, pos as int);
                }
            }
            if prev == pos || self.starts_big_word_separator(prev) {
                proof {
                    if plain {
                        assert(pos > 0 ==> blank_byte(t[pos - 1]));
                        assert forall|q: int| pos < q < from implies !starts_word(t, q) by {
                            if q <= inner {
                                assert(!blank_byte(t[q - 1]));
                            } else {
                                assert(blank_byte(t[q]));
                            }
                        }
                    }
                }
                return pos;
            }
            pos = prev;
        }
    }

    /// Start of the WORD that ends or is under way before the cursor.
    pub fn beginning_of_previous_big_word(&self) -> (r: usize)
        requires
            self.wf(),
        ensures
            r == previous_big_word_start(self.bytes(), self.marks(), self@.buf.cursor),
            is_pos(self.bytes(), r as int),
            plain_text(self.bytes()) && self.marks().len() == 0 ==> r == black_start(
                self.bytes(),
                white_start(self.bytes(), self@.buf.cursor),
            ) && last_start_before(self.bytes(), self@.buf.cursor, r as int),
    {
        self.beginning_of_previous_big_word_from(self.cursor_pos)
    }

    /// End of the WORD that the cursor is in or before.
    pub fn big_word_end_exclusive(&self) -> (r: usize)
        requires
            self.wf(),
        ensures
            r == big_word_end(self.bytes(), self.marks(), self@.buf.cursor),
            is_pos(self.bytes(), r as int),
            plain_text(self.bytes()) && self.marks().len() == 0 ==> first_leaving(
                self.bytes(),
                self@.buf.cursor,
                r as int,
            ),
    {
        self.big_word_end_exclusive_from(self.cursor_pos)
    }

    /// End of the WORD that `cursor` is in or before.
    pub fn big_word_end_exclusive_from(&self, cursor: usize) -> (r: usize)
        requires
            self.wf(),
            is_pos(self.bytes(), cursor as int),
        ensures
            r == big_word_end(self.bytes(), self.marks(), cursor as int),
            is_pos(self.bytes(), r as int),
            cursor <= r <= self.bytes().len(),
            plain_text(self.bytes()) && self.marks().len() == 0 ==> first_leaving(
                self.bytes(),
                cursor as int,
                r as int,
            ),
    {
        let len: usize = byte_len(&self.text);
        let ghost t = self.bytes();
        let ghost es = self.marks();
        let ghost plain = plain_text(t) && es.len() == 0;
        proof {
            if plain {
                lemma_plain_white(t);
            }
        }
        let mut pos: usize = cursor;
        while pos < len && self.starts_big_word_separator(pos)
            invariant
                self.wf(),
                t == self.bytes(),
                es == self.marks(),
                len == t.len(),
                is_pos(t, pos as int),
                cursor <= pos <= len,
                skip_big(t, es, pos as int, true) == skip_big(t, es, cursor as int, true),
                plain == (plain_text(t) && es.len() == 0),
                plain ==> {
                    &&& forall|p: int|
                        0 <= p < t.len() ==> #[trigger] white_at(t, p) == blank_byte(t[p])
                    &&& forall|q: int| cursor <= q < pos ==> blank_byte(#[trigger] t[q])
                },
            decreases len - pos,
        {
            pos = self.next_atomic_boundary(pos);
        }
        let ghost inner = pos as int;
        while pos < len && !self.starts_big_word_separator(pos)
            invariant
                self.wf(),
                t == self.bytes(),
                es == self.marks(),
                len == t.len(),
                is_pos(t, pos as int),
                cursor <= pos <= len,
                skip_big(t, es, pos as int, false) == skip_big(t, es, inner, false),
                cursor <= inner <= pos,
                plain == (plain_text(t) && es.len() == 0),
                plain ==> {
                    &&& forall|p: int|
                        0 <= p < t.len() ==> #[trigger] white_at(t, p) == blank_byte(t[p])
                    &&& forall|q: int| cursor <= q < inner ==> blank_byte(#[trigger] t[q])
                    &&& forall|q: int| inner <= q < pos ==> !blank_byte(#[trigger] t[q])
                    &&& inner < len ==> !blank_byte(t[inner])
                },
            decreases len - pos,
        {
            pos = self.next_atomic_boundary(pos);
        }
        pos
    }

    /// The last position of the WORD that `from` is in, or of the next one.
    pub fn vim_big_word_end_cursor_from(&self, from: usize) -> (r: usize)
        requires
            self.wf(),
            is_pos(self.bytes(), from as int),
        ensures
            r == big_word_end_cursor(self.bytes(), self.marks(), from as int),
            is_pos(self.bytes(), r as int),
            plain_text(self.bytes()) && self.marks().len() == 0 ==> first_ending(
                self.bytes(),
                from as int,
                r as int,
            ),
    {
        let len: usize = byte_len(&self.text);
        let end: usize = self.big_word_end_exclusive_from(from);
        let target: usize = if end > from {
            self.prev_atomic_boundary(end)
        } else {
            end
        };
        proof {
            if plain_text(self.bytes()) && self.marks().len() == 0 {
                lemma_leaving_ends(self.bytes(), from as int, end as int);
            }
        }
        if target == from && end < len {
            proof {
                let next = big_word_end(self.bytes(), self.marks(), end as int);
                if plain_text(self.bytes()) && self.marks().len() == 0 && first_leaving(
                    self.bytes(),
                    end as int,
                    next,
                ) {
                    lemma_leaving_ends(self.bytes(), end as int, next);
                }
            }
            self.prev_atomic_boundary(self.big_word_end_exclusive_from(end))
        } else {
            target
        }
    }

    /// The last position of the WORD that the cursor is in, or of the next one.
    pub fn vim_big_word_end_cursor(&self) -> (r: usize)
        requires
            self.wf(),
        ensures
            r == big_word_end_cursor(self.bytes(), self.marks(), self@.buf.cursor),
            is_pos(self.bytes(), r as int),
            plain_text(self.bytes()) && self.marks().len() == 0 ==> first_ending(
                self.bytes(),
                self@.buf.cursor,
                r as int,
            ),
    {
        self.vim_big_word_end_cursor_from(self.cursor_pos)
    }
}

/// Start of the first WORD after `c`.
pub open spec fn next_big_word_start(t: Seq<u8>, es: Seq<ElementView>, c: int) -> int {
    next_big_word(t, es, c, big_separator(t, es, c))
}

/// Start of the WORD that ends or is under way before `c`.
pub open spec fn previous_big_word_start(t: Seq<u8>, es: Seq<ElementView>, c: int) -> int {
    big_word_start(t, es, back_into_big_word(t, es, c))
}

/// The last position of the WORD that `c` is in, or of the next one from its last position.
pub open spec fn big_word_end_cursor(t: Seq<u8>, es: Seq<ElementView>, c: int) -> int {
    end_cursor(t, es, c, big_word_end(t, es, c), big_word_end(t, es, big_word_end(t, es, c)))
}

/// Before whitespace there is something to go back over.
pub proof fn lemma_black_start_moves(t: Seq<u8>, c: int)
    requires
        valid_utf8(t),
        is_pos(t, c),
    ensures
        0 <= white_start(t, c) <= c,
        is_pos(t, white_start(t, c)),
        white_start(t, c) > 0 ==> {
            &&& !white_at(t, before_char(t, white_start(t, c)))
            &&& black_start(t, white_start(t, c)) < white_start(t, c)
        },
    decreases c,
{
    if c > 0 {
        lemma_before_char(t, c);
        if white_at(t, before_char(t, c)) {
            lemma_black_start_moves(t, before_char(t, c));
        } else {
            lemma_black_start(t, before_char(t, c));
        }
    }
}

pub proof fn lemma_black_start(t: Seq<u8>, p: int)
    requires
        valid_utf8(t),
        is_pos(t, p),
    ensures
        0 <= black_start(t, p) <= p,
    decreases p,
{
    if p > 0 {
        lemma_before_char(t, p);
        if !white_at(t, before_char(t, p)) {
            lemma_black_start(t, before_char(t, p));
        }
    }
}

/// Skipping what is not whitespace moves on.
pub proof fn lemma_skip_black_moves(t: Seq<u8>, p: int, limit: int)
    requires
        valid_utf8(t),
        is_pos(t, p),
        is_pos(t, limit),
        p < limit,
        !white_at(t, p),
    ensures
        p < skip_black(t, p, limit) <= limit,
        is_pos(t, skip_black(t, p, limit)),
{
    lemma_char(t, p);
    if after_char(t, p) > limit {
        lemma_char_interior(t, p, limit);
    }
    lemma_skip_black(t, after_char(t, p), limit);
}

/// Skipping whitespace stops at something else.
pub proof fn lemma_skip_white_stop(t: Seq<u8>, p: int, limit: int)
    ensures
        skip_white(t, p, limit) < limit ==> !white_at(t, skip_white(t, p, limit)),
    decreases
            (if p < limit {
                limit - p
            } else {
                0
            }),
{
    if p < limit && white_at(t, p) {
        lemma_skip_white_stop(t, after_char(t, p), limit);
    }
}

} // verus!
