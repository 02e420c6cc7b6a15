//! The text area: its state, and the edits and cursor moves that everything else is built from.

use crate::buffer::{
    atomic_after, atomic_before, buffer_ok, covered, covers_at, edited, edited_elements,
    elements_ok, inside, inside_at, lemma_cover, lemma_edges, lemma_edited_ok, lemma_edited_source,
    lemma_snap, lemma_snap_ok, lemma_uncovered_edges, next_atomic, prev_atomic, range_ok, snap_end,
    snap_nearest, snap_start, Buffer, ElementView,
};
use crate::keymap::{VimNormalKeymap, VimOperatorKeymap, VimTextObjectKeymap};
use crate::search::{SearchQuery, VimSearchState};
use crate::segment::{next_grapheme_boundary, prev_grapheme_boundary};
use crate::text::{byte_len, floor, floor_pos, is_pos, lemma_zero_pos, plain_text, splice};
use crate::vim;
use crate::vim::{
    change_begun, change_finished, copy_elements, element_views, VIM_UNDO_LIMIT, KeyStateView,
    TextElement, UndoView, VimMode, VimPending, VimUndoState,
};
use crate::vim_commands;
use crate::vim_commands::{steps_cleared, CommandView};
use std::ops::Range;
use vstd::prelude::*;
use vstd::utf8::*;

verus! {

/// How the register was filled, and so how it is pasted.
#[derive(Debug, Clone, Copy, PartialEq, Eq, Structural)]
pub enum KillBufferKind {
    Characterwise,
    Linewise,
}

/// A text with a cursor, atomic elements and Vim editing.
///
/// Positions are byte offsets into the text.
#[derive(Debug)]
pub struct TextArea {
    pub text: String,
    pub cursor_pos: usize,
    pub elements: Vec<TextElement>,
    pub next_element_id: u64,
    pub preferred_col: Option<usize>,
    pub kill_buffer: String,
    pub kill_buffer_kind: KillBufferKind,
    pub vim_enabled: bool,
    pub vim_mode: VimMode,
    pub vim_pending: VimPending,
    pub vim_command: vim::VimCommandState,
    pub vim_commands: vim_commands::VimCommandState,
    pub vim_undo: VimUndoState,
    pub vim_search: VimSearchState,
    pub vim_normal_keymap: VimNormalKeymap,
    pub vim_operator_keymap: VimOperatorKeymap,
    pub vim_text_object_keymap: VimTextObjectKeymap,
}

/// The model of a text area.
#[verifier::ext_equal]
pub struct AreaView {
    pub buf: Buffer,
    pub next_id: u64,
    pub column: Option<usize>,
    pub register: Seq<u8>,
    pub register_kind: KillBufferKind,
    pub enabled: bool,
    pub mode: VimMode,
    pub pending: VimPending,
    pub keys: KeyStateView,
    pub commands: CommandView,
    pub undo: UndoView,
    pub search: SearchQuery,
    pub normal_keymap: VimNormalKeymap,
    pub operator_keymap: VimOperatorKeymap,
    pub object_keymap: VimTextObjectKeymap,
}

impl View for TextArea {
    type V = AreaView;

    open spec fn view(&self) -> AreaView {
        AreaView {
            buf: self.buf(),
            next_id: self.next_element_id,
            column: self.preferred_col,
            register: encode_utf8(self.kill_buffer@),
            register_kind: self.kill_buffer_kind,
            enabled: self.vim_enabled,
            mode: self.vim_mode,
            pending: self.vim_pending,
            keys: self.vim_command@,
            commands: self.vim_commands@,
            undo: self.vim_undo@,
            search: self.vim_search.last,
            normal_keymap: self.vim_normal_keymap,
            operator_keymap: self.vim_operator_keymap,
            object_keymap: self.vim_text_object_keymap,
        }
    }
}

/// Undo never holds more than its limit, and only well-formed buffers.
pub open spec fn undo_ok(u: UndoView) -> bool {
    &&& u.history.len() <= VIM_UNDO_LIMIT
    &&& forall|i: int| 0 <= i < u.history.len() ==> buffer_ok(#[trigger] u.history[i])
    &&& u.active matches Some(b) ==> buffer_ok(b)
}

/// What every operation keeps.
pub open spec fn area_ok(m: AreaView) -> bool {
    &&& buffer_ok(m.buf)
    &&& undo_ok(m.undo)
}

impl TextArea {
    /// The text, cursor and elements.
    pub open spec fn buf(&self) -> Buffer {
        Buffer {
            text: encode_utf8(self.text@),
            cursor: self.cursor_pos as int,
            elements: element_views(self.elements@),
        }
    }

    /// The encoded text.
    pub open spec fn bytes(&self) -> Seq<u8> {
        encode_utf8(self.text@)
    }

    /// The elements.
    pub open spec fn marks(&self) -> Seq<ElementView> {
        element_views(self.elements@)
    }

    /// The text area is well-formed.
    pub open spec fn wf(&self) -> bool {
        area_ok(self@)
    }

    /// An empty text area with Vim editing off and the default keys.
    pub fn new() -> (r: TextArea)
        ensures
            r@ == (AreaView {
                buf: Buffer { text: Seq::empty(), cursor: 0, elements: Seq::empty() },
                next_id: 0,
                column: None,
                register: Seq::empty(),
                register_kind: KillBufferKind::Characterwise,
                enabled: false,
                mode: VimMode::Normal,
                pending: VimPending::Idle,
                keys: KeyStateView::fresh(),
                commands: CommandView::fresh(),
                undo: UndoView::fresh(),
                ..r@
            }),
            r@.search.is_empty_query(),
            r@.normal_keymap.is_default(),
            r@.operator_keymap.is_default(),
            r@.object_keymap.is_default(),
            r.wf(),
    {
        let r = TextArea {
            text: String::new(),
            cursor_pos: 0,
            elements: Vec::new(),
            next_element_id: 0,
            preferred_col: None,
            kill_buffer: String::new(),
            kill_buffer_kind: KillBufferKind::Characterwise,
            vim_enabled: false,
            vim_mode: VimMode::Normal,
            vim_pending: VimPending::Idle,
            vim_command: vim::VimCommandState::default(),
            vim_commands: vim_commands::VimCommandState::default(),
            vim_undo: VimUndoState::default(),
            vim_search: VimSearchState { last: SearchQuery::default() },
            vim_normal_keymap: VimNormalKeymap::defaults(),
            vim_operator_keymap: VimOperatorKeymap::defaults(),
            vim_text_object_keymap: VimTextObjectKeymap::defaults(),
        };
        proof {
            assert(r.bytes() =~= Seq::<u8>::empty());
            assert(r.marks() =~= Seq::<ElementView>::empty());
            encode_utf8_valid_utf8(r.text@);
        }
        r
    }

    /// The text.
    pub fn text(&self) -> (r: &str)
        ensures
            r@ == self.text@,
            encode_utf8(r@) == self@.buf.text,
    {
        self.text.as_str()
    }

    /// The position of the cursor.
    pub fn cursor(&self) -> (r: usize)
        ensures
            r == self@.buf.cursor,
    {
        self.cursor_pos
    }

    /// The elements, in order.
    pub fn text_element_snapshots(&self) -> (r: Vec<TextElement>)
        ensures
            element_views(r@) == self@.buf.elements,
    {
        copy_elements(&self.elements)
    }

    /// Make `text` the whole text, without elements and without anything to undo. The cursor stays
    /// where it was as far as it can.
    pub fn set_text_clearing_elements(&mut self, text: &str)
        requires
            old(self).wf(),
        ensures
            final(self)@ == text_set(old(self)@, encode_utf8(text@)),
            final(self).wf(),
    {
        self.text = text.to_owned();
        self.elements = Vec::new();
        self.clear_vim_replace_recovery();
        self.clear_vim_command_state();
        self.clear_vim_undo();
        let len: usize = byte_len(&self.text);
        let capped: usize = if self.cursor_pos > len {
            len
        } else {
            self.cursor_pos
        };
        self.cursor_pos = floor(&self.text, capped);
        self.preferred_col = None;
        proof {
            encode_utf8_valid_utf8(self.text@);
            assert(self.marks() =~= Seq::<ElementView>::empty());
            assert(snap_nearest(self.marks(), self.cursor_pos as int) == self.cursor_pos);
        }
    }

    /// Insert `text` at the cursor as an atomic element, and return its number.
    pub fn insert_element(&mut self, text: &str) -> (id: u64)
        requires
            old(self).wf(),
            encode_utf8(text@).len() > 0,
        ensures
            final(self)@ == element_inserted(old(self)@, encode_utf8(text@)),
            id == old(self)@.next_id,
            final(self).wf(),
    {
        let start: usize = self.cursor_pos;
        let id: u64 = self.next_element_id;
        proof {
            reveal(raw_edit);
            encode_utf8_valid_utf8(text@);
            assert(snap_nearest(self.marks(), start as int) == start);
            lemma_edited_ok(self.buf(), start as int, start as int, encode_utf8(text@));
            lemma_gap(self.bytes(), self.marks(), start as int, encode_utf8(text@).len() as int);
        }
        self.insert_str_at(start, text);
        let end: usize = start + byte_len(text);
        let mut i: usize = 0;
        while i < self.elements.len() && self.elements[i].range.start < start
            invariant
                i <= self.elements.len(),
                element_index(self.marks(), start as int, i as int) == element_index(
                    self.marks(),
                    start as int,
                    0,
                ),
                forall|k: int| 0 <= k < i ==> (#[trigger] self.marks()[k]).start < start,
            decreases self.elements.len() - i,
        {
            i = i + 1;
        }
        let ghost before = self.marks();
        let ghost e = ElementView { id, start: start as int, end: end as int };
        proof {
            lemma_element_inserted(self.bytes(), before, i as int, e);
        }
        self.elements.insert(i, TextElement { id, range: start..end });
        assert(self.marks() =~= before.insert(i as int, e));
        self.next_element_id = id.saturating_add(1);
        self.finish_vim_text_change();
        id
    }

    /// Index of the element that holds `pos` strictly inside.
    pub fn find_element_containing(&self, pos: usize) -> (r: Option<usize>)
        ensures
            match r {
                Some(i) => inside_at(self.marks(), i as int, pos as int),
                None => !inside(self.marks(), pos as int),
            },
    {
        let mut i: usize = 0;
        while i < self.elements.len()
            invariant
                i <= self.elements.len(),
                forall|j: int| 0 <= j < i ==> !inside_at(self.marks(), j, pos as int),
            decreases self.elements.len() - i,
        {
            if self.elements[i].range.start < pos && pos < self.elements[i].range.end {
                assert(inside_at(self.marks(), i as int, pos as int));
                return Some(i);
            }
            i = i + 1;
        }
        assert forall|j: int| !inside_at(self.marks(), j, pos as int) by {}
        None
    }

    /// Index of the element that the byte at `pos` belongs to.
    pub fn find_element_at(&self, pos: usize) -> (r: Option<usize>)
        ensures
            match r {
                Some(i) => covers_at(self.marks(), i as int, pos as int),
                None => !covered(self.marks(), pos as int),
            },
    {
        let mut i: usize = 0;
        while i < self.elements.len()
            invariant
                i <= self.elements.len(),
                forall|j: int| 0 <= j < i ==> !covers_at(self.marks(), j, pos as int),
            decreases self.elements.len() - i,
        {
            if self.elements[i].range.start <= pos && pos < self.elements[i].range.end {
                assert(covers_at(self.marks(), i as int, pos as int));
                return Some(i);
            }
            i = i + 1;
        }
        assert forall|j: int| !covers_at(self.marks(), j, pos as int) by {}
        None
    }

    /// The position after the element at `pos`, or after the grapheme there, which ends at `next`.
    pub fn atomic_end(&self, pos: usize, next: Option<usize>) -> (r: usize)
        requires
            self.wf(),
            is_pos(self.bytes(), pos as int),
            next matches Some(q) ==> pos < q && is_pos(self.bytes(), q as int),
        ensures
            r == atomic_after(self.bytes(), self.marks(), pos as int, next),
            pos < self.bytes().len() ==> pos < r,
            pos <= r <= self.bytes().len(),
            is_pos(self.bytes(), r as int),
            !inside(self.marks(), pos as int) ==> !inside(self.marks(), r as int),
    {
        proof {
            lemma_zero_pos(self.bytes());
            lemma_len_outside(self.bytes(), self.marks());
        }
        let len: usize = byte_len(&self.text);
        if let Some(i) = self.find_element_at(pos) {
            proof {
                lemma_cover(self.bytes(), self.marks(), i as int, pos as int);
                lemma_edges(self.bytes(), self.marks(), i as int);
            }
            return self.elements[i].range.end;
        }
        match next {
            Some(q) => {
                proof {
                    lemma_snap_ok(self.bytes(), self.marks(), q as int);
                }
                self.element_end_around(q)
            },
            None => len,
        }
    }

    /// The position after the grapheme or element at `pos`.
    pub fn next_atomic_boundary(&self, pos: usize) -> (r: usize)
        requires
            self.wf(),
            is_pos(self.bytes(), pos as int),
        ensures
            r == next_atomic(self.bytes(), self.marks(), pos as int),
            pos < self.bytes().len() ==> pos < r,
            pos <= r <= self.bytes().len(),
            is_pos(self.bytes(), r as int),
            !inside(self.marks(), pos as int) ==> !inside(self.marks(), r as int),
            plain_text(self.bytes()) && pos < self.bytes().len() && !covered(
                self.marks(),
                pos as int,
            ) ==> r == pos + 1,
    {
        proof {
            reveal(next_atomic);
            encode_utf8_decode_utf8(self.text@);
            if !covered(self.marks(), pos as int) {
                lemma_uncovered_edges(self.marks(), pos as int);
            }
        }
        self.atomic_end(pos, next_grapheme_boundary(&self.text, pos))
    }

    /// The position before the element that ends at `pos`, or before the grapheme that ends there
    /// and starts at `prev`.
    pub fn atomic_start(&self, pos: usize, prev: Option<usize>) -> (r: usize)
        requires
            self.wf(),
            is_pos(self.bytes(), pos as int),
            prev matches Some(q) ==> q < pos && is_pos(self.bytes(), q as int),
        ensures
            r == atomic_before(self.marks(), pos as int, prev),
            pos > 0 ==> r < pos,
            r <= pos,
            is_pos(self.bytes(), r as int),
            !inside(self.marks(), pos as int) ==> !inside(self.marks(), r as int),
    {
        proof {
            lemma_zero_pos(self.bytes());
        }
        if pos == 0 {
            return 0;
        }
        if let Some(i) = self.find_element_at(pos - 1) {
            proof {
                lemma_cover(self.bytes(), self.marks(), i as int, pos - 1);
                lemma_edges(self.bytes(), self.marks(), i as int);
            }
            return self.elements[i].range.start;
        }
        match prev {
            Some(q) => {
                proof {
                    lemma_snap_ok(self.bytes(), self.marks(), q as int);
                }
                self.element_start_around(q)
            },
            None => 0,
        }
    }

    /// The position before the grapheme or element that ends at `pos`.
    pub fn prev_atomic_boundary(&self, pos: usize) -> (r: usize)
        requires
            self.wf(),
            is_pos(self.bytes(), pos as int),
        ensures
            r == prev_atomic(self.bytes(), self.marks(), pos as int),
            pos > 0 ==> r < pos,
            r <= pos,
            is_pos(self.bytes(), r as int),
            !inside(self.marks(), pos as int) ==> !inside(self.marks(), r as int),
            plain_text(self.bytes()) && pos > 0 && !covered(self.marks(), pos - 1) ==> r == pos - 1,
    {
        proof {
            reveal(prev_atomic);
            encode_utf8_decode_utf8(self.text@);
            if !covered(self.marks(), pos - 1) {
                lemma_uncovered_edges(self.marks(), pos - 1);
            }
        }
        self.atomic_start(pos, prev_grapheme_boundary(&self.text, pos))
    }

    /// Put the cursor at `pos`, or at the closest place before it or at the edge of an element
    /// where it may stand.
    pub fn set_cursor(&mut self, pos: usize)
        requires
            old(self).wf(),
        ensures
            final(self)@ == with_cursor(old(self)@, pos as int),
            final(self).wf(),
    {
        let len: usize = byte_len(&self.text);
        let capped: usize = if pos > len {
            len
        } else {
            pos
        };
        let at: usize = floor(&self.text, capped);
        proof {
            lemma_snap_ok(self.bytes(), self.marks(), at as int);
        }
        let snapped: usize = match self.find_element_containing(at) {
            Some(i) => {
                proof {
                    lemma_snap(self.bytes(), self.marks(), i as int, at as int);
                }
                let start: usize = self.elements[i].range.start;
                let end: usize = self.elements[i].range.end;
                if at - start <= end - at {
                    start
                } else {
                    end
                }
            },
            None => at,
        };
        self.cursor_pos = snapped;
        self.preferred_col = None;
    }

    /// Replace a range that cuts no character and no element.
    fn replace_range_raw(&mut self, a: usize, z: usize, ins: &str)
        requires
            old(self).wf(),
            range_ok(old(self).buf(), a as int, z as int),
        ensures
            final(self)@ == raw_edit(old(self)@, a as int, z as int, encode_utf8(ins@)),
            final(self).wf(),
            a < z || encode_utf8(ins@).len() > 0 ==> final(self)@.buf == edited(
                old(self)@.buf,
                a as int,
                z as int,
                encode_utf8(ins@),
            ),
    {
        proof {
            reveal(raw_edit);
        }
        let n: usize = byte_len(ins);
        if a == z && n == 0 {
            return;
        }
        self.begin_vim_text_change();
        let ghost before = self.buf();
        proof {
            encode_utf8_valid_utf8(ins@);
            lemma_edited_ok(before, a as int, z as int, encode_utf8(ins@));
        }
        let text: String = splice(&self.text, a, z, ins);
        proof {
            encode_utf8_valid_utf8(text@);
        }
        let len: usize = byte_len(&text);
        let cursor: usize = if self.cursor_pos < a {
            self.cursor_pos
        } else if self.cursor_pos <= z {
            a + n
        } else {
            self.cursor_pos - (z - a) + n
        };
        let mut elements: Vec<TextElement> = Vec::new();
        let mut i: usize = 0;
        while i < self.elements.len()
            invariant
                i <= self.elements.len(),
                self.wf(),
                before == self.buf(),
                a <= z <= self.bytes().len(),
                len == self.bytes().len() - (z - a) + n,
                element_views(elements@) == edited_elements(
                    self.marks().take(i as int),
                    a as int,
                    z as int,
                    n as int,
                ),
            decreases self.elements.len() - i,
        {
            let ghost done = self.marks().take(i as int);
            let ghost next = self.marks().take(i as int + 1);
            proof {
                assert(next.drop_last() =~= done);
                assert(next.last() == self.marks()[i as int]);
            }
            let ghost views = element_views(elements@);
            let start: usize = self.elements[i].range.start;
            let end: usize = self.elements[i].range.end;
            let id: u64 = self.elements[i].id;
            if a <= start && end <= z {
            } else if start >= z {
                elements.push(
                    TextElement { id, range: start - (z - a) + n..end - (z - a) + n },
                );
                assert(element_views(elements@) =~= views.push(elements@.last()@));
            } else {
                elements.push(TextElement { id, range: start..end });
                assert(element_views(elements@) =~= views.push(elements@.last()@));
            }
            i = i + 1;
        }
        proof {
            assert(self.marks().take(self.marks().len() as int) =~= self.marks());
        }
        self.text = text;
        self.cursor_pos = cursor;
        self.elements = elements;
        self.preferred_col = None;
    }

    /// Replace a range, widened to whole elements, by `ins`, and keep what Replace mode can
    /// restore.
    pub fn replace_range_preserving_recovery(&mut self, range: Range<usize>, ins: &str)
        requires
            old(self).wf(),
            range.start <= range.end,
            is_pos(old(self).bytes(), range.start as int),
            is_pos(old(self).bytes(), range.end as int),
        ensures
            final(self)@ == wide_edit(
                old(self)@,
                range.start as int,
                range.end as int,
                encode_utf8(ins@),
            ),
            final(self).wf(),
    {
        let a: usize = self.element_start_around(range.start);
        let z: usize = self.element_end_around(range.end);
        self.replace_range_raw(a, z, ins);
    }

    /// Replace a range, widened to whole elements, by `ins`.
    pub fn replace_range(&mut self, range: Range<usize>, ins: &str)
        requires
            old(self).wf(),
            range.start <= range.end,
            is_pos(old(self).bytes(), range.start as int),
            is_pos(old(self).bytes(), range.end as int),
        ensures
            final(self)@ == range_replaced(
                old(self)@,
                range.start as int,
                range.end as int,
                encode_utf8(ins@),
            ),
            final(self).wf(),
    {
        self.replace_range_preserving_recovery(range, ins);
        self.clear_vim_replace_recovery();
    }

    /// Start of the element that `pos` is inside of, or `pos`.
    pub fn element_start_around(&self, pos: usize) -> (r: usize)
        requires
            self.wf(),
            is_pos(self.bytes(), pos as int),
        ensures
            r == snap_start(self.marks(), pos as int),
            is_pos(self.bytes(), r as int),
            !inside(self.marks(), r as int),
            r <= pos,
    {
        proof {
            lemma_snap_ok(self.bytes(), self.marks(), pos as int);
        }
        match self.find_element_containing(pos) {
            Some(i) => {
                proof {
                    lemma_snap(self.bytes(), self.marks(), i as int, pos as int);
                }
                self.elements[i].range.start
            },
            None => pos,
        }
    }

    /// End of the element that `pos` is inside of, or `pos`.
    pub fn element_end_around(&self, pos: usize) -> (r: usize)
        requires
            self.wf(),
            is_pos(self.bytes(), pos as int),
        ensures
            r == snap_end(self.marks(), pos as int),
            is_pos(self.bytes(), r as int),
            !inside(self.marks(), r as int),
            pos <= r,
    {
        proof {
            lemma_snap_ok(self.bytes(), self.marks(), pos as int);
        }
        match self.find_element_containing(pos) {
            Some(i) => {
                proof {
                    lemma_snap(self.bytes(), self.marks(), i as int, pos as int);
                }
                self.elements[i].range.end
            },
            None => pos,
        }
    }

    /// Insert `ins` at `pos`, or at the nearer edge of the element that `pos` is inside of.
    pub fn insert_str_at(&mut self, pos: usize, ins: &str)
        requires
            old(self).wf(),
            is_pos(old(self).bytes(), pos as int),
        ensures
            final(self)@ == inserted_at(old(self)@, pos as int, encode_utf8(ins@)),
            final(self).wf(),
    {
        let start: usize = self.element_start_around(pos);
        let end: usize = self.element_end_around(pos);
        let at: usize = if pos - start <= end - pos {
            start
        } else {
            end
        };
        self.replace_range_raw(at, at, ins);
        self.clear_vim_replace_recovery();
    }
}

/// The end of the text is not inside an element.
pub proof fn lemma_len_outside(t: Seq<u8>, es: Seq<ElementView>)
    requires
        elements_ok(t, es),
    ensures
        !inside(es, t.len() as int),
{
    if inside(es, t.len() as int) {
        let i = choose|i: int| inside_at(es, i, t.len() as int);
        assert(es[i].end <= t.len());
    }
}

/// The text replaced as a whole.
pub open spec fn text_set(m: AreaView, text: Seq<u8>) -> AreaView {
    let fresh = AreaView {
        buf: Buffer { text, cursor: m.buf.cursor, elements: Seq::empty() },
        pending: VimPending::Idle,
        keys: KeyStateView::fresh(),
        undo: UndoView::fresh(),
        ..m
    };
    with_cursor(steps_cleared(fresh), m.buf.cursor)
}

/// Index of the first element from the `i`-th on that starts at or after `p`.
pub open spec fn element_index(es: Seq<ElementView>, p: int, i: int) -> int
    decreases es.len() - i,
{
    if 0 <= i < es.len() && es[i].start < p {
        element_index(es, p, i + 1)
    } else {
        i
    }
}

/// The number after `id`; the last one is kept.
pub open spec fn next_number(id: u64) -> u64 {
    if id < u64::MAX {
        (id + 1) as u64
    } else {
        id
    }
}

/// `text` inserted at the cursor as an element with the next free number.
pub open spec fn element_inserted(m: AreaView, text: Seq<u8>) -> AreaView {
    let start = m.buf.cursor;
    let after = inserted_at(m, start, text);
    let e = ElementView { id: m.next_id, start, end: start + text.len() };
    let es = after.buf.elements;
    change_finished(
        AreaView {
            buf: Buffer { elements: es.insert(element_index(es, start, 0), e), ..after.buf },
            next_id: next_number(m.next_id),
            ..after
        },
    )
}

/// After `n` bytes are inserted at `p`, no element reaches into them.
pub proof fn lemma_gap(t: Seq<u8>, es: Seq<ElementView>, p: int, n: int)
    requires
        elements_ok(t, es),
        !inside(es, p),
        0 <= n,
    ensures
        forall|k: int|
            0 <= k < edited_elements(es, p, p, n).len() ==> {
                let o = #[trigger] edited_elements(es, p, p, n)[k];
                o.end <= p || o.start >= p + n
            },
{
    let os = edited_elements(es, p, p, n);
    assert forall|k: int| 0 <= k < os.len() implies (#[trigger] os[k]).end <= p || os[k].start
        >= p + n by {
        lemma_edited_source(es, p, p, n, k);
        let i = choose|i: int|
            0 <= i < es.len() && {
                let e = #[trigger] es[i];
                let o = os[k];
                &&& o.id == e.id
                &&& !(p <= e.start && e.end <= p)
                &&& if e.start >= p {
                    o.start == e.start - (p - p) + n && o.end == e.end - (p - p) + n
                } else {
                    o == e
                }
            };
        assert(!inside_at(es, i, p));
    }
}

/// An element put where none is keeps the elements in order.
pub proof fn lemma_element_inserted(t: Seq<u8>, es: Seq<ElementView>, i: int, e: ElementView)
    requires
        elements_ok(t, es),
        0 <= i <= es.len(),
        0 <= e.start < e.end <= t.len(),
        is_pos(t, e.start),
        is_pos(t, e.end),
        forall|k: int| 0 <= k < i ==> (#[trigger] es[k]).start < e.start,
        i < es.len() ==> es[i].start >= e.start,
        forall|k: int|
            0 <= k < es.len() ==> (#[trigger] es[k]).end <= e.start || es[k].start >= e.end,
    ensures
        elements_ok(t, es.insert(i, e)),
        forall|p: int|
            #[trigger] inside(es.insert(i, e), p) ==> inside(es, p) || e.start < p < e.end,
{
    let os = es.insert(i, e);
    assert forall|k: int| i <= k < es.len() implies (#[trigger] es[k]).start >= e.end by {
        if k > i {
            assert(es[i].end <= es[k].start);
        }
    }
    assert forall|k: int, j: int|
        #![trigger os[k], os[j]]
        0 <= k < j < os.len() implies os[k].end <= os[j].start by {
        let ok = if k < i {
            k
        } else {
            k - 1
        };
        let oj = if j < i {
            j
        } else {
            j - 1
        };
        if k < i {
            assert(os[k] == es[k]);
        } else if k > i {
            assert(os[k] == es[k - 1]);
        }
        if j < i {
            assert(os[j] == es[j]);
        } else if j > i {
            assert(os[j] == es[j - 1]);
        }
        if k != i && j != i {
            assert(es[ok].end <= es[oj].start);
        }
    }
    assert forall|k: int| 0 <= k < os.len() implies {
        let o = #[trigger] os[k];
        0 <= o.start < o.end <= t.len() && is_pos(t, o.start) && is_pos(t, o.end)
    } by {
        if k < i {
            assert(os[k] == es[k]);
        } else if k > i {
            assert(os[k] == es[k - 1]);
        }
    }
    assert forall|p: int| #[trigger] inside(os, p) implies inside(es, p) || e.start < p < e.end by {
        let k = choose|k: int| inside_at(os, k, p);
        assert(inside_at(os, k, p));
        if k < i {
            assert(inside_at(es, k, p));
        } else if k > i {
            assert(inside_at(es, k - 1, p));
        }
    }
}

/// The cursor put at `pos`, or where it may stand close to it.
pub open spec fn with_cursor(m: AreaView, pos: int) -> AreaView {
    let capped = if pos > m.buf.text.len() {
        m.buf.text.len() as int
    } else {
        pos
    };
    let cursor = snap_nearest(m.buf.elements, floor_pos(m.buf.text, capped));
    AreaView { buf: Buffer { cursor, ..m.buf }, column: None, ..m }
}

/// The cursor can be put at a boundary outside every element.
pub proof fn lemma_cursor_there(m: AreaView, pos: int)
    requires
        is_pos(m.buf.text, pos),
        !inside(m.buf.elements, pos),
    ensures
        with_cursor(m, pos).buf == (Buffer { cursor: pos, ..m.buf }),
{
    assert(floor_pos(m.buf.text, pos) == pos);
}

/// The bytes `a..z` replaced by `ins`, as a change that can be undone.
#[verifier::opaque]
pub open spec fn raw_edit(m: AreaView, a: int, z: int, ins: Seq<u8>) -> AreaView {
    if a == z && ins.len() == 0 {
        m
    } else {
        let begun = change_begun(m);
        AreaView { buf: edited(m.buf, a, z, ins), column: None, ..begun }
    }
}

/// `a..z`, widened to whole elements, replaced by `ins`.
pub open spec fn wide_edit(m: AreaView, a: int, z: int, ins: Seq<u8>) -> AreaView {
    raw_edit(m, snap_start(m.buf.elements, a), snap_end(m.buf.elements, z), ins)
}

/// `a..z`, widened to whole elements, replaced by `ins`; what Replace mode overwrote is forgotten.
pub open spec fn range_replaced(m: AreaView, a: int, z: int, ins: Seq<u8>) -> AreaView {
    steps_cleared(wide_edit(m, a, z, ins))
}

/// `ins` inserted at `pos`, outside every element.
pub open spec fn inserted_at(m: AreaView, pos: int, ins: Seq<u8>) -> AreaView {
    let at = snap_nearest(m.buf.elements, pos);
    steps_cleared(raw_edit(m, at, at, ins))
}

} // verus!
