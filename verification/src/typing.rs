//! Text that is typed in: inserted, or in Replace mode written over what is there.

use crate::buffer::{
    cover_end, covered, covers_at, elements_ok, inside, inside_at, lemma_cover, next_atomic, Buffer,
    ElementView,
};
use crate::lines::{line_end, NEWLINE};
use crate::paste_burst::{burst_retracted, lemma_past_elements, none_within, steps_before_cursor};
use crate::replace_laws::{
    law_burst_is_retracted_or_refused, law_typing_over_is_taken_back, lemma_one_taken_back,
    lemma_recovers_itself, lemma_typed_on, overtype_sound, overtyped_upto, restored_times,
    skips_upto, sound_upto, spares_elements, spares_upto,
};
use crate::segment::{grapheme_indices, grapheme_starts};
use crate::text::{byte_at, byte_len, is_boundary, is_pos, lemma_zero_pos, plain_text, slice};
use crate::textarea::{inserted_at, lemma_cursor_there, wide_edit, with_cursor, AreaView, TextArea};
use crate::vim::{change_finished, element_views, TextElement, VimMode};
use crate::vim_commands::{steps_cleared, CommandView, EditView, StepView, VimEdit, VimReplaceStep};
use vstd::prelude::*;
use vstd::utf8::*;

verus! {

/// The first position from `p` on where no element starts, for a `p` outside every element.
pub open spec fn past_elements(es: Seq<ElementView>, p: int, limit: int) -> int
    decreases
            (if p < limit {
                limit - p
            } else {
                0
            }),
{
    if covered(es, p) && p < cover_end(es, p) <= limit {
        past_elements(es, cover_end(es, p), limit)
    } else {
        p
    }
}

/// Where typing over text at `p` stops: behind the grapheme there, but a newline is only inserted,
/// and so is anything at the end of a line.
pub open spec fn overtype_end(t: Seq<u8>, es: Seq<ElementView>, p: int, typed: Seq<u8>) -> int {
    if typed == seq![NEWLINE] || p >= line_end(t, p) {
        p
    } else {
        next_atomic(t, es, p)
    }
}

/// One grapheme typed over the text behind the elements at the cursor; what it takes the place of
/// is kept. Nothing typed is nothing done.
pub open spec fn overtype(m: AreaView, typed: Seq<u8>) -> AreaView {
    if typed.len() == 0 {
        m
    } else {
        typed_over(m, typed)
    }
}

/// Some text typed over the text behind the elements at the cursor.
pub open spec fn typed_over(m: AreaView, typed: Seq<u8>) -> AreaView {
    let t = m.buf.text;
    let es = m.buf.elements;
    let past = past_elements(es, m.buf.cursor, t.len() as int);
    let there = if past == m.buf.cursor {
        m
    } else {
        with_cursor(m, past)
    };
    let start = there.buf.cursor;
    let end = overtype_end(t, es, start, typed);
    let step = StepView {
        cursor_before: m.buf.cursor,
        start,
        inserted_len: typed.len() as int,
        original: t.subrange(start, end),
    };
    let after = wide_edit(there, start, end, typed);
    AreaView {
        commands: CommandView { steps: after.commands.steps.push(step), ..after.commands },
        ..after
    }
}

/// The `i`-th grapheme of `text`.
pub open spec fn nth_grapheme(text: Seq<u8>, starts: Seq<usize>, i: int) -> Seq<u8> {
    text.subrange(
        starts[i] as int,
        if i + 1 < starts.len() {
            starts[i + 1] as int
        } else {
            text.len() as int
        },
    )
}

/// The graphemes of `text` from the `i`-th on typed over the text, one after the other.
pub open spec fn overtyped_from(
    m: AreaView,
    text: Seq<u8>,
    starts: Seq<usize>,
    i: int,
) -> AreaView
    decreases starts.len() - i,
{
    if i < 0 || i >= starts.len() {
        m
    } else {
        overtyped_from(overtype(m, nth_grapheme(text, starts, i)), text, starts, i + 1)
    }
}

/// `text` typed over the text at the cursor, grapheme by grapheme.
pub open spec fn overtyped(m: AreaView, text: Seq<u8>) -> AreaView {
    overtyped_from(m, text, grapheme_starts(decode_utf8(text)), 0)
}

/// The elements that do not reach into `a..z`.
pub open spec fn unmarked(es: Seq<ElementView>, a: int, z: int) -> Seq<ElementView>
    decreases es.len(),
{
    if es.len() == 0 {
        Seq::empty()
    } else {
        let rest = unmarked(es.drop_last(), a, z);
        if es.last().end <= a || es.last().start >= z {
            rest.push(es.last())
        } else {
            rest
        }
    }
}

/// Whether the text that `step` typed ends at the cursor.
pub open spec fn step_at_cursor(b: Buffer, step: StepView) -> bool {
    b.cursor == step.start + step.inserted_len && is_pos(b.text, step.start)
}

/// The grapheme typed last in Replace mode taken back; whether there was one.
#[verifier::opaque]
pub open spec fn restored(m: AreaView) -> (AreaView, bool) {
    let steps = m.commands.steps;
    if steps.len() == 0 || !step_at_cursor(m.buf, steps.last()) {
        (steps_cleared(m), false)
    } else {
        let step = steps.last();
        let open = AreaView {
            buf: Buffer {
                elements: unmarked(m.buf.elements, step.start, step.start + step.inserted_len),
                ..m.buf
            },
            commands: CommandView { steps: steps.drop_last(), ..m.commands },
            ..m
        };
        let back = wide_edit(open, step.start, step.start + step.inserted_len, step.original);
        (with_cursor(back, step.cursor_before), true)
    }
}

/// Whether what is typed is recorded for replay.
pub open spec fn records_typing(m: AreaView) -> bool {
    m.enabled && m.mode != VimMode::Normal && !m.commands.replaying
        && m.commands.pending_change.len() > 0
}

/// The typed `text` recorded: behind the text typed before it in Insert mode, on its own otherwise.
pub open spec fn text_recorded(m: AreaView, text: Seq<u8>) -> AreaView {
    let edits = m.commands.pending_change;
    if !records_typing(m) || text.len() == 0 {
        m
    } else {
        let recorded = if m.mode == VimMode::Insert && edits.last() is Text {
            edits.drop_last().push(EditView::Text(edits.last()->Text_0 + text))
        } else {
            edits.push(EditView::Text(text))
        };
        AreaView {
            commands: CommandView { pending_change: recorded, changed: true, ..m.commands },
            ..m
        }
    }
}

/// `text` typed at the cursor.
pub open spec fn inserted(m: AreaView, text: Seq<u8>) -> AreaView {
    let typed = if m.enabled && m.mode == VimMode::Replace {
        overtyped(m, text)
    } else {
        inserted_at(m, m.buf.cursor, text)
    };
    change_finished(text_recorded(typed, text))
}

/// `after`, the state once the graphemes of `text` are typed over the text, can be taken back to
/// `m`: grapheme by grapheme, and in Replace mode also at once, which is refused if an element was
/// skipped.
pub open spec fn taken_back(
    m: AreaView,
    text: Seq<u8>,
    starts: Seq<usize>,
    after: AreaView,
) -> bool {
    let n = starts.len();
    let spared = spares_upto(m, text, starts, n);
    &&& ({
        let (back, done) = restored_times(after, n);
        &&& done
        &&& back.buf.text == m.buf.text
        &&& back.buf.cursor == m.buf.cursor
        &&& back.commands.steps == m.commands.steps
        &&& spared ==> back.buf == m.buf
    })
    &&& m.enabled && m.mode == VimMode::Replace && steps_before_cursor(m) ==> {
        let (back, done) = burst_retracted(after, m.buf.cursor);
        if skips_upto(m, text, starts, n) {
            !done && back == after
        } else {
            &&& done
            &&& back.buf.text == m.buf.text
            &&& back.buf.cursor == m.buf.cursor
            &&& back.commands.steps == m.commands.steps
            &&& spared ==> back.buf == m.buf
        }
    }
}

/// Unmarking keeps the elements in order, adds none, and leaves none across the edges of `a..z`.
pub proof fn lemma_unmarked(t: Seq<u8>, es: Seq<ElementView>, a: int, z: int)
    requires
        elements_ok(t, es),
        a <= z,
    ensures
        elements_ok(t, unmarked(es, a, z)),
        forall|p: int| #[trigger] inside(unmarked(es, a, z), p) ==> inside(es, p),
        !inside(unmarked(es, a, z), a),
        !inside(unmarked(es, a, z), z),
        unmarked(es, a, z).len() > 0 ==> es.len() > 0 && unmarked(es, a, z).last().end
            <= es.last().end,
    decreases es.len(),
{
    if es.len() > 0 {
        let init = es.drop_last();
        let e = es.last();
        let rest = unmarked(init, a, z);
        assert(e == es[es.len() - 1]);
        assert forall|i: int| 0 <= i < init.len() implies #[trigger] init[i] == es[i] by {}
        lemma_unmarked(t, init, a, z);
        let all = unmarked(es, a, z);
        assert forall|i: int| 0 <= i < rest.len() implies (#[trigger] rest[i]).end <= e.start by {
            if i < rest.len() - 1 {
                assert(rest[i].end <= rest[rest.len() - 1].start);
            }
            assert(init[init.len() - 1] == es[es.len() - 2]);
        }
        assert forall|p: int| inside(all, p) implies inside(es, p) && p != a && p != z by {
            let i = choose|i: int| inside_at(all, i, p);
            assert(inside_at(all, i, p));
            if i < rest.len() {
                assert(inside_at(rest, i, p));
                assert(inside(rest, p));
                let k = choose|k: int| inside_at(init, k, p);
                assert(inside_at(init, k, p));
                assert(inside_at(es, k, p));
            } else {
                assert(inside_at(es, es.len() - 1, p));
            }
        }
    }
}

/// No element lies in an empty range at an edge, nor in a byte that belongs to none.
proof fn lemma_overtyped_range(es: Seq<ElementView>, p: int)
    requires
        !covered(es, p),
    ensures
        none_within(es, p, p),
        none_within(es, p, p + 1),
{
    assert forall|i: int| 0 <= i < es.len() implies (#[trigger] es[i]).end <= p || es[i].start
        >= p + 1 by {
        assert(!covers_at(es, i, p));
    }
}

impl TextArea {
    /// Whether typing writes over the text.
    pub fn is_vim_replace_mode(&self) -> (r: bool)
        ensures
            r == (self@.enabled && self@.mode == VimMode::Replace),
    {
        self.vim_enabled && self.vim_mode == VimMode::Replace
    }

    /// The first position from the cursor on where no element starts.
    fn position_past_elements(&self) -> (r: usize)
        requires
            self.wf(),
        ensures
            r == past_elements(self.marks(), self@.buf.cursor, self.bytes().len() as int),
            is_pos(self.bytes(), r as int),
            !covered(self.marks(), r as int),
    {
        let ghost len = self.bytes().len() as int;
        let mut pos: usize = self.cursor_pos;
        loop
            invariant
                self.wf(),
                len == self.bytes().len(),
                is_pos(self.bytes(), pos as int),
                past_elements(self.marks(), pos as int, len) == past_elements(
                    self.marks(),
                    self@.buf.cursor,
                    len,
                ),
            ensures
                !covered(self.marks(), pos as int),
            decreases len - pos,
        {
            match self.find_element_at(pos) {
                Some(i) => {
                    proof {
                        lemma_cover(self.bytes(), self.marks(), i as int, pos as int);
                    }
                    pos = self.elements[i].range.end;
                },
                None => {
                    break;
                },
            }
        }
        pos
    }

    /// Type one grapheme over the text behind the elements at the cursor.
    ///
    /// Taking it back puts the text and the cursor back as they were, also where elements were
    /// skipped, and the elements too unless one was overwritten. In plain text none is.
    pub fn overtype_grapheme(&mut self, typed: &str)
        requires
            old(self).wf(),
            encode_utf8(typed@).len() > 0,
        ensures
            final(self)@ == overtype(old(self)@, encode_utf8(typed@)),
            final(self).wf(),
            overtype_sound(old(self)@, encode_utf8(typed@)),
            ({
                let (back, done) = restored(final(self)@);
                &&& done
                &&& back.buf.text == old(self)@.buf.text
                &&& back.buf.cursor == old(self)@.buf.cursor
                &&& back.commands.steps == old(self)@.commands.steps
                &&& spares_elements(old(self)@, encode_utf8(typed@)) ==> back.buf
                    == old(self)@.buf
            }),
            plain_text(old(self).bytes()) ==> spares_elements(
                old(self)@,
                encode_utf8(typed@),
            ),
            plain_text(old(self).bytes()) && plain_text(encode_utf8(typed@)) ==> plain_text(
                final(self).bytes(),
            ),
    {
        proof {
            lemma_past_elements(self.bytes(), self.marks(), self@.buf.cursor);
            lemma_cursor_there(
                self@,
                past_elements(self.marks(), self@.buf.cursor, self.bytes().len() as int),
            );
        }
        let inserted_len: usize = byte_len(typed);
        let cursor_before: usize = self.cursor_pos;
        let past: usize = self.position_past_elements();
        if past != cursor_before {
            self.set_cursor(past);
        }
        let start: usize = self.cursor_pos;
        let newline = inserted_len == 1 && byte_at(typed, 0) == NEWLINE;
        proof {
            assert(newline <==> encode_utf8(typed@) =~= seq![NEWLINE]);
        }
        let end: usize = if newline || start >= self.end_of_current_line() {
            start
        } else {
            self.next_atomic_boundary(start)
        };
        let original: String = slice(&self.text, start, end).to_owned();
        self.replace_range_preserving_recovery(start..end, typed);
        let ghost steps = self.vim_commands@.steps;
        self.vim_commands.replace_steps.push(
            VimReplaceStep { cursor_before, start, inserted_len, original },
        );
        assert(self.vim_commands@.steps =~= steps.push(self.vim_commands.replace_steps@.last()@));
        proof {
            encode_utf8_valid_utf8(typed@);
            lemma_overtyped_range(old(self).marks(), start as int);
            lemma_one_taken_back(old(self)@, encode_utf8(typed@));
        }
    }

    /// Type `text` over the text at the cursor, grapheme by grapheme.
    ///
    /// It can be taken back grapheme by grapheme, and also at once unless an element was skipped:
    /// the text and the cursor are then as they were, and the elements too unless one was
    /// overwritten. In plain text none is, and each character typed is a grapheme.
    pub fn replace_vim_text(&mut self, text: &str)
        requires
            old(self).wf(),
        ensures
            final(self)@ == overtyped(old(self)@, encode_utf8(text@)),
            final(self).wf(),
            final(self)@.enabled == old(self)@.enabled,
            final(self)@.mode == old(self)@.mode,
            taken_back(old(self)@, encode_utf8(text@), grapheme_starts(text@), final(self)@),
            plain_text(encode_utf8(text@)) ==> grapheme_starts(text@).len() == encode_utf8(
                text@,
            ).len(),
            plain_text(encode_utf8(text@)) && plain_text(old(self).bytes()) ==> spares_upto(
                old(self)@,
                encode_utf8(text@),
                grapheme_starts(text@),
                grapheme_starts(text@).len(),
            ),
    {
        let starts: Vec<usize> = grapheme_indices(text);
        proof {
            encode_utf8_decode_utf8(text@);
        }
        self.replace_vim_graphemes(text, &starts);
    }

    /// Type `text` over the text at the cursor, grapheme by grapheme, where `starts` are the
    /// offsets of its graphemes.
    pub fn replace_vim_graphemes(&mut self, text: &str, starts: &Vec<usize>)
        requires
            old(self).wf(),
            forall|k: int|
                0 <= k < starts@.len() ==> #[trigger] starts@[k] < encode_utf8(text@).len()
                    && is_pos(encode_utf8(text@), starts@[k] as int),
            forall|k: int, j: int| 0 <= k < j < starts@.len() ==> starts@[k] < starts@[j],
        ensures
            final(self)@ == overtyped_from(old(self)@, encode_utf8(text@), starts@, 0),
            final(self).wf(),
            final(self)@.enabled == old(self)@.enabled,
            final(self)@.mode == old(self)@.mode,
            taken_back(old(self)@, encode_utf8(text@), starts@, final(self)@),
            plain_text(encode_utf8(text@)) && plain_text(old(self).bytes()) ==> spares_upto(
                old(self)@,
                encode_utf8(text@),
                starts@,
                starts@.len(),
            ),
    {
        let ghost whole = encode_utf8(text@);
        let ghost plain = plain_text(whole) && plain_text(old(self).bytes());
        let len: usize = byte_len(text);
        proof {
            encode_utf8_valid_utf8(text@);
            lemma_zero_pos(encode_utf8(text@));
        }
        let mut i: usize = 0;
        while i < starts.len()
            invariant
                self.wf(),
                i <= starts.len(),
                whole == encode_utf8(text@),
                plain == (plain_text(whole) && plain_text(old(self).bytes())),
                len == whole.len(),
                is_pos(whole, len as int),
                forall|k: int|
                    0 <= k < starts@.len() ==> #[trigger] starts@[k] < len && is_pos(
                        whole,
                        starts@[k] as int,
                    ),
                forall|k: int, j: int| 0 <= k < j < starts@.len() ==> starts@[k] < starts@[j],
                overtyped_from(self@, whole, starts@, i as int) == overtyped_from(
                    old(self)@,
                    whole,
                    starts@,
                    0,
                ),
                self@ == overtyped_upto(old(self)@, whole, starts@, i as nat),
                sound_upto(old(self)@, whole, starts@, i as nat),
                plain ==> plain_text(self.bytes()) && spares_upto(
                    old(self)@,
                    whole,
                    starts@,
                    i as nat,
                ),
            decreases starts.len() - i,
        {
            let end: usize = if i + 1 < starts.len() {
                starts[i + 1]
            } else {
                len
            };
            let grapheme: &str = slice(text, starts[i], end);
            proof {
                let typed = encode_utf8(grapheme@);
                if plain {
                    assert forall|k: int| 0 <= k < typed.len() implies #[trigger] typed[k] < 0x80
                        && typed[k] != 0x0d by {
                        assert(typed[k] == whole[starts@[i as int] + k]);
                    }
                }
            }
            self.overtype_grapheme(grapheme);
            i = i + 1;
        }
        proof {
            let n = starts@.len();
            lemma_typed_on(old(self)@, whole, starts@, n);
            lemma_recovers_itself(old(self)@, whole, starts@, n);
            law_typing_over_is_taken_back(old(self)@, whole, starts@, n, self@);
            if old(self)@.enabled && old(self)@.mode == VimMode::Replace && steps_before_cursor(
                old(self)@,
            ) {
                law_burst_is_retracted_or_refused(old(self)@, whole, starts@, n);
            }
        }
    }

    /// Unmark the elements that reach into `a..z`.
    fn unmark_elements(&mut self, a: usize, z: usize)
        requires
            old(self).wf(),
            a <= z,
        ensures
            final(self)@ == (AreaView {
                buf: Buffer {
                    elements: unmarked(old(self)@.buf.elements, a as int, z as int),
                    ..old(self)@.buf
                },
                ..old(self)@
            }),
            final(self).wf(),
    {
        let mut elements: Vec<TextElement> = Vec::new();
        let mut i: usize = 0;
        while i < self.elements.len()
            invariant
                i <= self.elements.len(),
                element_views(elements@) == unmarked(
                    self.marks().take(i as int),
                    a as int,
                    z as int,
                ),
            decreases self.elements.len() - i,
        {
            proof {
                assert(self.marks().take(i as int + 1).drop_last() =~= self.marks().take(
                    i as int,
                ));
                assert(self.marks().take(i as int + 1).last() == self.marks()[i as int]);
            }
            let ghost views = element_views(elements@);
            let start: usize = self.elements[i].range.start;
            let end: usize = self.elements[i].range.end;
            if end <= a || start >= z {
                elements.push(TextElement { id: self.elements[i].id, range: start..end });
                assert(element_views(elements@) =~= views.push(elements@.last()@));
            }
            i = i + 1;
        }
        proof {
            assert(self.marks().take(self.marks().len() as int) =~= self.marks());
            lemma_unmarked(self.bytes(), self.marks(), a as int, z as int);
        }
        self.elements = elements;
    }

    /// Take back the grapheme typed last in Replace mode, and put back what it was written over.
    ///
    /// Replace skips existing elements, so an overlapping marker was added after typing. It is
    /// unmarked before one character is restored; recovery never grows to the whole token.
    pub fn restore_vim_replaced_character(&mut self) -> (r: bool)
        requires
            old(self).wf(),
        ensures
            (final(self)@, r) == restored(old(self)@),
            final(self).wf(),
            !r ==> final(self)@.buf == old(self)@.buf && final(self)@.commands.steps.len() == 0,
            old(self)@.commands.steps.len() == 0 ==> !r,
    {
        proof {
            reveal(restored);
        }
        let ghost steps = self.vim_commands@.steps;
        match self.vim_commands.replace_steps.pop() {
            Some(step) => {
                assert(self.vim_commands@.steps =~= steps.drop_last());
                assert(step@ == steps.last());
                let end: usize = self.cursor_pos;
                if step.start <= end && end - step.start == step.inserted_len && is_boundary(
                    &self.text,
                    step.start,
                ) {
                    self.unmark_elements(step.start, end);
                    self.replace_range_preserving_recovery(step.start..end, &step.original);
                    self.set_cursor(step.cursor_before);
                    return true;
                }
            },
            None => {},
        }
        self.clear_vim_replace_recovery();
        false
    }

    /// Record text typed in Insert or Replace mode as part of the change under way.
    pub fn record_vim_inserted_text(&mut self, text: &str)
        ensures
            final(self)@ == text_recorded(old(self)@, encode_utf8(text@)),
    {
        if !self.vim_enabled || self.vim_mode == VimMode::Normal || self.vim_commands.replaying
            || self.vim_commands.pending_change.len() == 0 || byte_len(text) == 0 {
            return;
        }
        let ghost edits = self.vim_commands@.pending_change;
        let last = self.vim_commands.pending_change.pop();
        assert(self.vim_commands@.pending_change =~= edits.drop_last());
        match last {
            Some(VimEdit::Text(mut pending)) if self.vim_mode == VimMode::Insert => {
                proof {
                    crate::text::lemma_encode_concat(pending@, text@);
                }
                pending.append(text);
                self.vim_commands.pending_change.push(VimEdit::Text(pending));
            },
            Some(edit) => {
                self.vim_commands.pending_change.push(edit);
                assert(self.vim_commands@.pending_change =~= edits);
                self.vim_commands.pending_change.push(VimEdit::Text(text.to_owned()));
            },
            None => {},
        }
        self.vim_commands.changed = true;
        assert(self.vim_commands@.pending_change =~= text_recorded(
            old(self)@,
            encode_utf8(text@),
        ).commands.pending_change);
    }

    /// Type `text` at the cursor.
    pub fn insert_str(&mut self, text: &str)
        requires
            old(self).wf(),
        ensures
            final(self)@ == inserted(old(self)@, encode_utf8(text@)),
            final(self).wf(),
    {
        if self.is_vim_replace_mode() {
            self.replace_vim_text(text);
        } else {
            self.insert_str_at(self.cursor_pos, text);
        }
        self.record_vim_inserted_text(text);
        self.finish_vim_text_change();
    }
}

} // verus!
