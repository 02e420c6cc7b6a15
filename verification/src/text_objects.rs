//! Text objects: words, bracketed text and quoted text around the cursor.

use crate::buffer::{covered, ElementView};
use crate::keys::{is_pressed, pressed, KeyEvent};
use crate::lines::{
    line_end, line_start, skip_non_whitespace, skip_white, skip_whitespace, white_start,
    whitespace_start,
};
use crate::text::{
    after_char, before_char, byte_at, byte_len, char_at, char_from, char_width, is_pos,
    lemma_after_before, lemma_before_char, lemma_char, lemma_char_interior, lemma_floor_range,
    lemma_zero_pos, next_char, width,
};
use crate::textarea::TextArea;
use crate::vim::{VimTextObject, VimTextObjectScope};
use crate::words::{
    lemma_skip_black_moves, lemma_skip_white_stop, range_views, run_around, runs_from,
    small_word_around,
};
use std::ops::Range;
use vstd::prelude::*;
use vstd::utf8::*;

verus! {

/// A range as a pair of positions.
pub open spec fn range_view(r: Option<Range<usize>>) -> Option<(int, int)> {
    match r {
        Some(range) => Some((range.start as int, range.end as int)),
        None => None,
    }
}

/// Positions as integers.
pub open spec fn positions(s: Seq<usize>) -> Seq<int> {
    Seq::new(s.len(), |i: int| s[i] as int)
}

/// The word with the whitespace after it, or else the whitespace before it.
pub open spec fn word_around(t: Seq<u8>, inner: (int, int)) -> (int, int) {
    let following = skip_white(t, inner.1, t.len() as int);
    if following > inner.1 {
        (inner.0, following)
    } else {
        (white_start(t, inner.0), inner.1)
    }
}

/// The word or WORD around `c`.
pub open spec fn word_object(
    t: Seq<u8>,
    c: int,
    scope: VimTextObjectScope,
    big: bool,
) -> Option<(int, int)> {
    let inner = if big {
        run_around(runs_from(t, 0), c)
    } else {
        small_word_around(t, c)
    };
    match inner {
        Some(w) => Some(
            match scope {
                VimTextObjectScope::Inner => w,
                VimTextObjectScope::Around => word_around(t, w),
            },
        ),
        None => None,
    }
}

/// The opening brackets before `p`, outside elements, that no bracket before `p` closes.
pub open spec fn unmatched(
    t: Seq<u8>,
    es: Seq<ElementView>,
    open: char,
    close: char,
    p: int,
) -> Seq<int>
    decreases p,
{
    if p <= 0 {
        Seq::empty()
    } else {
        proof {
            lemma_floor_range(t, p - 1);
        }
        let q = before_char(t, p);
        let before = unmatched(t, es, open, close, q);
        if covered(es, q) {
            before
        } else if char_at(t, q) == open {
            before.push(q)
        } else if char_at(t, q) == close && before.len() > 0 {
            before.drop_last()
        } else {
            before
        }
    }
}

/// A bracket outside elements at `p` closes one that `c` is not before.
pub open spec fn closes_around(
    t: Seq<u8>,
    es: Seq<ElementView>,
    open: char,
    close: char,
    c: int,
    p: int,
) -> bool {
    let opened = unmatched(t, es, open, close, p);
    &&& !covered(es, p)
    &&& char_at(t, p) != open
    &&& char_at(t, p) == close
    &&& opened.len() > 0
    &&& opened.last() <= c <= p
}

/// The first brackets from `p` on that close around `c`: where they open and where they close.
pub open spec fn pair_from(
    t: Seq<u8>,
    es: Seq<ElementView>,
    open: char,
    close: char,
    c: int,
    p: int,
) -> Option<(int, int)>
    decreases
            (if p < t.len() {
                t.len() - p
            } else {
                0
            }),
{
    if p >= t.len() {
        None
    } else if closes_around(t, es, open, close, c, p) {
        Some((unmatched(t, es, open, close, p).last(), p))
    } else {
        pair_from(t, es, open, close, c, after_char(t, p))
    }
}

/// What is between delimiters at `pair.0` and `pair.1`, or with them.
pub open spec fn scoped(
    pair: Option<(int, int)>,
    scope: VimTextObjectScope,
    open: char,
    close: char,
) -> Option<(int, int)> {
    match pair {
        Some(p) => Some(
            match scope {
                VimTextObjectScope::Inner => (p.0 + char_width(open), p.1),
                VimTextObjectScope::Around => (p.0, p.1 + char_width(close)),
            },
        ),
        None => None,
    }
}

/// How many backslashes end at `p`.
pub open spec fn backslashes(t: Seq<u8>, p: int) -> nat
    decreases p,
{
    if p <= 0 || t[p - 1] != 0x5c {
        0
    } else {
        1 + backslashes(t, p - 1)
    }
}

/// An unescaped quote outside elements.
pub open spec fn quote_at(t: Seq<u8>, es: Seq<ElementView>, quote: char, p: int) -> bool {
    !covered(es, p) && char_at(t, p) == quote && backslashes(t, p) % 2 == 0
}

/// The quote between `bol` and `p` that is still open at `p`.
pub open spec fn open_quote(
    t: Seq<u8>,
    es: Seq<ElementView>,
    quote: char,
    bol: int,
    p: int,
) -> Option<int>
    decreases p,
{
    if p <= bol || p <= 0 {
        None
    } else {
        proof {
            lemma_floor_range(t, p - 1);
        }
        let q = before_char(t, p);
        let before = open_quote(t, es, quote, bol, q);
        if !quote_at(t, es, quote, q) {
            before
        } else if before is Some {
            None
        } else {
            Some(q)
        }
    }
}

/// The first quotes from `p` to `eol` that close around `c`: where they open and where they close.
pub open spec fn quotes_from(
    t: Seq<u8>,
    es: Seq<ElementView>,
    quote: char,
    bol: int,
    eol: int,
    c: int,
    p: int,
) -> Option<(int, int)>
    decreases
            (if p < eol {
                eol - p
            } else {
                0
            }),
{
    if p >= eol {
        None
    } else {
        match open_quote(t, es, quote, bol, p) {
            Some(o) => if quote_at(t, es, quote, p) && o <= c <= p {
                Some((o, p))
            } else {
                quotes_from(t, es, quote, bol, eol, c, after_char(t, p))
            },
            None => quotes_from(t, es, quote, bol, eol, c, after_char(t, p)),
        }
    }
}

/// The range of a text object around `c`.
pub open spec fn object_range(
    t: Seq<u8>,
    es: Seq<ElementView>,
    c: int,
    object: VimTextObject,
    scope: VimTextObjectScope,
) -> Option<(int, int)> {
    match object {
        VimTextObject::Word => word_object(t, c, scope, false),
        VimTextObject::BigWord => word_object(t, c, scope, true),
        VimTextObject::Parentheses => scoped(pair_from(t, es, '(', ')', c, 0), scope, '(', ')'),
        VimTextObject::Brackets => scoped(pair_from(t, es, '[', ']', c, 0), scope, '[', ']'),
        VimTextObject::Braces => scoped(pair_from(t, es, '{', '}', c, 0), scope, '{', '}'),
        VimTextObject::DoubleQuote => quoted_object(t, es, c, scope, '"'),
        VimTextObject::SingleQuote => quoted_object(t, es, c, scope, '\''),
        VimTextObject::Backtick => quoted_object(t, es, c, scope, '`'),
    }
}

/// The quoted text around `c` on its line.
pub open spec fn quoted_object(
    t: Seq<u8>,
    es: Seq<ElementView>,
    c: int,
    scope: VimTextObjectScope,
    quote: char,
) -> Option<(int, int)> {
    let bol = line_start(t, c);
    scoped(quotes_from(t, es, quote, bol, line_end(t, c), c, bol), scope, quote, quote)
}

/// The unmatched opening brackets are characters before `p`, in order.
pub proof fn lemma_unmatched(
    t: Seq<u8>,
    es: Seq<ElementView>,
    open: char,
    close: char,
    p: int,
)
    requires
        valid_utf8(t),
        is_pos(t, p),
    ensures
        forall|i: int|
            0 <= i < unmatched(t, es, open, close, p).len() ==> {
                let q = #[trigger] unmatched(t, es, open, close, p)[i];
                0 <= q < p && is_pos(t, q) && char_at(t, q) == open
            },
        forall|i: int, j: int|
            0 <= i < j < unmatched(t, es, open, close, p).len() ==> unmatched(
                t,
                es,
                open,
                close,
                p,
            )[i] < unmatched(t, es, open, close, p)[j],
    decreases p,
{
    if p > 0 {
        let q = before_char(t, p);
        lemma_before_char(t, p);
        lemma_unmatched(t, es, open, close, q);
        let before = unmatched(t, es, open, close, q);
        let now = unmatched(t, es, open, close, p);
        assert(now == before || now == before.push(q) && char_at(t, q) == open || before.len() > 0
            && now == before.drop_last());
        assert forall|i: int| 0 <= i < now.len() implies {
            let o = #[trigger] now[i];
            0 <= o < p && is_pos(t, o) && char_at(t, o) == open
        } by {
            if i < before.len() {
                assert(now[i] == before[i]);
            }
        }
        assert forall|i: int, j: int| 0 <= i < j < now.len() implies now[i] < now[j] by {
            assert(now[i] == before[i]);
            if j < before.len() {
                assert(now[j] == before[j]);
            }
        }
    }
}

/// An open quote is a quote between `bol` and `p`.
pub proof fn lemma_open_quote(t: Seq<u8>, es: Seq<ElementView>, quote: char, bol: int, p: int)
    requires
        valid_utf8(t),
        is_pos(t, bol),
        is_pos(t, p),
        bol <= p,
    ensures
        open_quote(t, es, quote, bol, p) matches Some(q) ==> bol <= q < p && is_pos(t, q)
            && char_at(t, q) == quote,
    decreases p,
{
    if p > bol {
        lemma_before_char(t, p);
        let q = before_char(t, p);
        if q < bol {
            lemma_char_interior(t, q, bol);
        }
        lemma_open_quote(t, es, quote, bol, q);
    }
}

/// The range from a quote through the one that closes it.
pub fn idx_range(open_idx: usize, close_idx: usize, quote: char) -> (r: Range<usize>)
    requires
        close_idx + char_width(quote) <= usize::MAX,
    ensures
        r.start == open_idx,
        r.end == close_idx + char_width(quote),
{
    open_idx..close_idx + width(quote)
}

impl TextArea {
    /// Which scope of text objects `event` selects.
    pub fn vim_text_object_scope_for_event(&self, event: KeyEvent) -> (r: Option<
        VimTextObjectScope,
    >)
        ensures
            r == scope_for(self@.operator_keymap, event),
    {
        if is_pressed(&self.vim_operator_keymap.select_inner_text_object, event) {
            return Some(VimTextObjectScope::Inner);
        }
        if is_pressed(&self.vim_operator_keymap.select_around_text_object, event) {
            return Some(VimTextObjectScope::Around);
        }
        None
    }

    /// Which text object `event` selects.
    pub fn vim_text_object_for_event(&self, event: KeyEvent) -> (r: Option<VimTextObject>)
        ensures
            r == object_for(self@.object_keymap, event),
    {
        if is_pressed(&self.vim_text_object_keymap.word, event) {
            return Some(VimTextObject::Word);
        }
        if is_pressed(&self.vim_text_object_keymap.big_word, event) {
            return Some(VimTextObject::BigWord);
        }
        if is_pressed(&self.vim_text_object_keymap.parentheses, event) {
            return Some(VimTextObject::Parentheses);
        }
        if is_pressed(&self.vim_text_object_keymap.brackets, event) {
            return Some(VimTextObject::Brackets);
        }
        if is_pressed(&self.vim_text_object_keymap.braces, event) {
            return Some(VimTextObject::Braces);
        }
        if is_pressed(&self.vim_text_object_keymap.double_quote, event) {
            return Some(VimTextObject::DoubleQuote);
        }
        if is_pressed(&self.vim_text_object_keymap.single_quote, event) {
            return Some(VimTextObject::SingleQuote);
        }
        if is_pressed(&self.vim_text_object_keymap.backtick, event) {
            return Some(VimTextObject::Backtick);
        }
        None
    }

    /// The range of a text object around the cursor.
    pub fn text_object_range(&self, object: VimTextObject, scope: VimTextObjectScope) -> (r: Option<
        Range<usize>,
    >)
        requires
            self.wf(),
        ensures
            range_view(r) == object_range(
                self.bytes(),
                self.marks(),
                self@.buf.cursor,
                object,
                scope,
            ),
            r matches Some(range) ==> range.start <= range.end && is_pos(
                self.bytes(),
                range.start as int,
            ) && is_pos(self.bytes(), range.end as int),
    {
        match object {
            VimTextObject::Word => self.word_text_object_range(scope, false),
            VimTextObject::BigWord => self.word_text_object_range(scope, true),
            VimTextObject::Parentheses => self.paired_text_object_range(scope, '(', ')'),
            VimTextObject::Brackets => self.paired_text_object_range(scope, '[', ']'),
            VimTextObject::Braces => self.paired_text_object_range(scope, '{', '}'),
            VimTextObject::DoubleQuote => self.quoted_text_object_range(scope, '"'),
            VimTextObject::SingleQuote => self.quoted_text_object_range(scope, '\''),
            VimTextObject::Backtick => self.quoted_text_object_range(scope, '`'),
        }
    }

    /// The word or WORD around the cursor.
    pub fn word_text_object_range(&self, scope: VimTextObjectScope, big_word: bool) -> (r: Option<
        Range<usize>,
    >)
        requires
            self.wf(),
        ensures
            range_view(r) == word_object(self.bytes(), self@.buf.cursor, scope, big_word),
            r matches Some(range) ==> range.start <= range.end && is_pos(
                self.bytes(),
                range.start as int,
            ) && is_pos(self.bytes(), range.end as int),
    {
        let inner = if big_word {
            self.big_word_range_at_cursor()
        } else {
            self.small_word_range_at_cursor()
        };
        match inner {
            Some(range) => match scope {
                VimTextObjectScope::Inner => Some(range),
                VimTextObjectScope::Around => Some(self.expand_word_around(range)),
            },
            None => None,
        }
    }

    /// The WORD that the cursor is in or right after.
    pub fn big_word_range_at_cursor(&self) -> (r: Option<Range<usize>>)
        requires
            self.wf(),
        ensures
            range_view(r) == run_around(runs_from(self.bytes(), 0), self@.buf.cursor),
            r matches Some(range) ==> range.start < range.end && is_pos(
                self.bytes(),
                range.start as int,
            ) && is_pos(self.bytes(), range.end as int),
    {
        let runs: Vec<Range<usize>> = self.non_ws_runs();
        let ghost all = range_views(runs@);
        let mut i: usize = 0;
        assert(all.skip(0) =~= all);
        while i < runs.len()
            invariant
                i <= runs.len(),
                all == range_views(runs@),
                all == runs_from(self.bytes(), 0),
                forall|j: int|
                    0 <= j < runs.len() ==> (#[trigger] runs@[j]).start < runs@[j].end && is_pos(
                        self.bytes(),
                        runs@[j].start as int,
                    ) && is_pos(self.bytes(), runs@[j].end as int),
                run_around(all.skip(i as int), self@.buf.cursor) == run_around(
                    all,
                    self@.buf.cursor,
                ),
            decreases runs.len() - i,
        {
            proof {
                assert(all.skip(i as int)[0] == all[i as int]);
                assert(all.skip(i as int).drop_first() =~= all.skip(i as int + 1));
            }
            if self.cursor_overlaps_range(&runs[i]) || self.cursor_is_at_range_end(&runs[i]) {
                return Some(runs[i].start..runs[i].end);
            }
            i = i + 1;
        }
        None
    }

    /// The word piece that the cursor is in or right after.
    pub fn small_word_range_at_cursor(&self) -> (r: Option<Range<usize>>)
        requires
            self.wf(),
        ensures
            range_view(r) == small_word_around(self.bytes(), self@.buf.cursor),
            r matches Some(range) ==> range.start < range.end && is_pos(
                self.bytes(),
                range.start as int,
            ) && is_pos(self.bytes(), range.end as int),
    {
        match self.big_word_range_at_cursor() {
            Some(run) => Some(self.piece_range(run.start, run.end, self.cursor_pos)),
            None => None,
        }
    }

    /// The maximal stretches of the text without whitespace.
    pub fn non_ws_runs(&self) -> (runs: Vec<Range<usize>>)
        ensures
            range_views(runs@) == runs_from(self.bytes(), 0),
            forall|j: int|
                0 <= j < runs@.len() ==> (#[trigger] runs@[j]).start < runs@[j].end && is_pos(
                    self.bytes(),
                    runs@[j].start as int,
                ) && is_pos(self.bytes(), runs@[j].end as int),
    {
        let ghost t = self.bytes();
        proof {
            encode_utf8_valid_utf8(self.text@);
            lemma_zero_pos(t);
        }
        let len: usize = byte_len(&self.text);
        let mut runs: Vec<Range<usize>> = Vec::new();
        let mut at: usize = 0;
        proof {
            assert(range_views(runs@) + runs_from(t, 0) =~= runs_from(t, 0));
        }
        loop
            invariant
                t == self.bytes(),
                valid_utf8(t),
                len == t.len(),
                is_pos(t, at as int),
                is_pos(t, len as int),
                range_views(runs@) + runs_from(t, at as int) == runs_from(t, 0),
                forall|j: int|
                    0 <= j < runs@.len() ==> (#[trigger] runs@[j]).start < runs@[j].end && is_pos(
                        t,
                        runs@[j].start as int,
                    ) && is_pos(t, runs@[j].end as int),
            decreases len - at,
        {
            let start: usize = skip_whitespace(&self.text, at, len);
            if start >= len {
                assert(range_views(runs@) + runs_from(t, at as int) =~= range_views(runs@));
                return runs;
            }
            let end: usize = skip_non_whitespace(&self.text, start, len);
            proof {
                lemma_skip_white_stop(t, at as int, len as int);
                lemma_skip_black_moves(t, start as int, len as int);
            }
            let ghost before = range_views(runs@);
            runs.push(start..end);
            proof {
                assert(range_views(runs@) =~= before.push((start as int, end as int)));
                assert(range_views(runs@) + runs_from(t, end as int) =~= before + runs_from(
                    t,
                    at as int,
                ));
            }
            at = end;
        }
    }

    /// Whether the cursor is in the range.
    pub fn cursor_overlaps_range(&self, range: &Range<usize>) -> (r: bool)
        ensures
            r == (range.start <= self@.buf.cursor < range.end),
    {
        range.start <= self.cursor_pos && self.cursor_pos < range.end
    }

    /// Whether the cursor is right at the end of the range.
    pub fn cursor_is_at_range_end(&self, range: &Range<usize>) -> (r: bool)
        ensures
            r == (range.start < range.end && self@.buf.cursor == range.end),
    {
        range.start < range.end && self.cursor_pos == range.end
    }

    /// The word with the whitespace after it, or else the whitespace before it.
    pub fn expand_word_around(&self, inner: Range<usize>) -> (r: Range<usize>)
        requires
            is_pos(self.bytes(), inner.start as int),
            is_pos(self.bytes(), inner.end as int),
            inner.start <= inner.end,
        ensures
            (r.start as int, r.end as int) == word_around(
                self.bytes(),
                (inner.start as int, inner.end as int),
            ),
            r.start <= r.end,
            is_pos(self.bytes(), r.start as int),
            is_pos(self.bytes(), r.end as int),
    {
        let following: usize = self.following_whitespace_end(inner.end);
        if following > inner.end {
            return inner.start..following;
        }
        self.preceding_whitespace_start(inner.start)..inner.end
    }

    /// End of the whitespace that starts at `start`.
    pub fn following_whitespace_end(&self, start: usize) -> (r: usize)
        requires
            is_pos(self.bytes(), start as int),
        ensures
            r == skip_white(self.bytes(), start as int, self.bytes().len() as int),
            start <= r,
            is_pos(self.bytes(), r as int),
    {
        proof {
            encode_utf8_valid_utf8(self.text@);
            lemma_zero_pos(self.bytes());
        }
        skip_whitespace(&self.text, start, byte_len(&self.text))
    }

    /// Start of the whitespace that ends at `end`.
    pub fn preceding_whitespace_start(&self, end: usize) -> (r: usize)
        requires
            is_pos(self.bytes(), end as int),
        ensures
            r == white_start(self.bytes(), end as int),
            r <= end,
            is_pos(self.bytes(), r as int),
    {
        whitespace_start(&self.text, end)
    }

    /// The bracketed text around the cursor.
    pub fn paired_text_object_range(
        &self,
        scope: VimTextObjectScope,
        open: char,
        close: char,
    ) -> (r: Option<Range<usize>>)
        requires
            self.wf(),
        ensures
            range_view(r) == scoped(
                pair_from(self.bytes(), self.marks(), open, close, self@.buf.cursor, 0),
                scope,
                open,
                close,
            ),
            r matches Some(range) ==> range.start <= range.end && is_pos(
                self.bytes(),
                range.start as int,
            ) && is_pos(self.bytes(), range.end as int),
    {
        let ghost t = self.bytes();
        let ghost es = self.marks();
        let ghost c = self@.buf.cursor;
        proof {
            lemma_zero_pos(t);
        }
        let len: usize = byte_len(&self.text);
        let mut stack: Vec<usize> = Vec::new();
        let mut idx: usize = 0;
        assert(positions(stack@) =~= unmatched(t, es, open, close, 0));
        while idx < len
            invariant
                t == self.bytes(),
                es == self.marks(),
                c == self.cursor_pos,
                valid_utf8(t),
                len == t.len(),
                is_pos(t, idx as int),
                positions(stack@) == unmatched(t, es, open, close, idx as int),
                pair_from(t, es, open, close, c, idx as int) == pair_from(
                    t,
                    es,
                    open,
                    close,
                    c,
                    0,
                ),
            decreases len - idx,
        {
            let ch: char = char_from(&self.text, idx);
            let next: usize = next_char(&self.text, idx);
            let ghost before = positions(stack@);
            proof {
                lemma_after_before(t, idx as int);
                lemma_char(t, idx as int);
                lemma_unmatched(t, es, open, close, idx as int);
            }
            if self.is_inside_element(idx) {
            } else if ch == open {
                stack.push(idx);
                assert(positions(stack@) =~= before.push(idx as int));
            } else if ch == close {
                match stack.pop() {
                    Some(open_idx) => {
                        assert(open_idx as int == before.last());
                        assert(positions(stack@) =~= before.drop_last());
                        proof {
                            lemma_char(t, open_idx as int);
                            if after_char(t, open_idx as int) > idx {
                                lemma_char_interior(t, open_idx as int, idx as int);
                            }
                        }
                        if open_idx <= self.cursor_pos && self.cursor_pos <= idx {
                            return Some(
                                match scope {
                                    VimTextObjectScope::Inner => open_idx + width(open)..idx,
                                    VimTextObjectScope::Around => open_idx..next,
                                },
                            );
                        }
                    },
                    None => {},
                }
            }
            idx = next;
        }
        None
    }

    /// The quoted text around the cursor on its line.
    pub fn quoted_text_object_range(&self, scope: VimTextObjectScope, quote: char) -> (r: Option<
        Range<usize>,
    >)
        requires
            self.wf(),
        ensures
            range_view(r) == quoted_object(
                self.bytes(),
                self.marks(),
                self@.buf.cursor,
                scope,
                quote,
            ),
            r matches Some(range) ==> range.start <= range.end && is_pos(
                self.bytes(),
                range.start as int,
            ) && is_pos(self.bytes(), range.end as int),
    {
        let ghost t = self.bytes();
        let ghost es = self.marks();
        let ghost c = self@.buf.cursor;
        let bol: usize = self.beginning_of_current_line();
        let eol: usize = self.end_of_current_line();
        let mut open: Option<usize> = None;
        let mut idx: usize = bol;
        while idx < eol
            invariant
                t == self.bytes(),
                es == self.marks(),
                c == self.cursor_pos,
                valid_utf8(t),
                bol == line_start(t, c),
                eol == line_end(t, c),
                bol <= idx <= eol <= t.len(),
                is_pos(t, bol as int),
                is_pos(t, idx as int),
                is_pos(t, eol as int),
                open_quote(t, es, quote, bol as int, idx as int) == (match open {
                    Some(o) => Some(o as int),
                    None => None,
                }),
                quotes_from(t, es, quote, bol as int, eol as int, c, idx as int) == quotes_from(
                    t,
                    es,
                    quote,
                    bol as int,
                    eol as int,
                    c,
                    bol as int,
                ),
            decreases eol - idx,
        {
            let ch: char = char_from(&self.text, idx);
            let next: usize = next_char(&self.text, idx);
            proof {
                lemma_after_before(t, idx as int);
                lemma_char(t, idx as int);
                lemma_open_quote(t, es, quote, bol as int, idx as int);
                if next > eol {
                    lemma_char_interior(t, idx as int, eol as int);
                }
            }
            if self.is_inside_element(idx) || ch != quote || self.is_escaped(idx) {
                assert(!quote_at(t, es, quote, idx as int));
            } else {
                assert(quote_at(t, es, quote, idx as int));
                match open {
                    Some(open_idx) => {
                        proof {
                            lemma_char(t, open_idx as int);
                            if after_char(t, open_idx as int) > idx {
                                lemma_char_interior(t, open_idx as int, idx as int);
                            }
                        }
                        open = None;
                        if open_idx <= self.cursor_pos && self.cursor_pos <= idx {
                            return Some(
                                match scope {
                                    VimTextObjectScope::Inner => open_idx + width(quote)..idx,
                                    VimTextObjectScope::Around => idx_range(open_idx, idx, quote),
                                },
                            );
                        }
                    },
                    None => {
                        open = Some(idx);
                    },
                }
            }
            idx = next;
        }
        None
    }

    /// Whether the byte at `pos` belongs to an element.
    pub fn is_inside_element(&self, pos: usize) -> (r: bool)
        ensures
            r == covered(self.marks(), pos as int),
    {
        self.find_element_at(pos).is_some()
    }

    /// Whether an odd number of backslashes ends at `pos`.
    pub fn is_escaped(&self, pos: usize) -> (r: bool)
        requires
            pos <= self.bytes().len(),
        ensures
            r == (backslashes(self.bytes(), pos as int) % 2 == 1),
    {
        let mut odd = false;
        let mut at: usize = pos;
        while at > 0 && byte_at(&self.text, at - 1) == 0x5c
            invariant
                at <= pos <= self.bytes().len(),
                backslashes(self.bytes(), pos as int) % 2 == (backslashes(
                    self.bytes(),
                    at as int,
                ) + (if odd {
                    1int
                } else {
                    0
                })) % 2,
            decreases at,
        {
            odd = !odd;
            at = at - 1;
        }
        odd
    }
}

/// Which scope of text objects an event selects.
pub open spec fn scope_for(
    keymap: crate::keymap::VimOperatorKeymap,
    event: KeyEvent,
) -> Option<VimTextObjectScope> {
    if pressed(keymap.select_inner_text_object@, event) {
        Some(VimTextObjectScope::Inner)
    } else if pressed(keymap.select_around_text_object@, event) {
        Some(VimTextObjectScope::Around)
    } else {
        None
    }
}

/// Which text object an event selects.
pub open spec fn object_for(
    keymap: crate::keymap::VimTextObjectKeymap,
    event: KeyEvent,
) -> Option<VimTextObject> {
    if pressed(keymap.word@, event) {
        Some(VimTextObject::Word)
    } else if pressed(keymap.big_word@, event) {
        Some(VimTextObject::BigWord)
    } else if pressed(keymap.parentheses@, event) {
        Some(VimTextObject::Parentheses)
    } else if pressed(keymap.brackets@, event) {
        Some(VimTextObject::Brackets)
    } else if pressed(keymap.braces@, event) {
        Some(VimTextObject::Braces)
    } else if pressed(keymap.double_quote@, event) {
        Some(VimTextObject::DoubleQuote)
    } else if pressed(keymap.single_quote@, event) {
        Some(VimTextObject::SingleQuote)
    } else if pressed(keymap.backtick@, event) {
        Some(VimTextObject::Backtick)
    } else {
        None
    }
}

} // verus!
