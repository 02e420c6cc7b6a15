//! Taking back a paste that was typed in before it was recognised.

use crate::actions::acted;
use crate::buffer::{
    cover_end, covered, covers_at, edited_elements, elements_ok, inside, lemma_cover, lemma_edges,
    ElementView,
};
use crate::text::{is_boundary, is_pos};
use crate::textarea::{range_replaced, raw_edit, AreaView, TextArea};
use crate::typing::{past_elements, restored, unmarked};
use crate::vim::VimMode;
use crate::vim_commands::{insert_acted, StepView, VimAction};
use vstd::prelude::*;
use vstd::utf8::*;

verus! {

/// Where the graphemes typed last in Replace mode, from `start` on, lead back to from `cursor`, if
/// each was typed right where the next one starts and no element was skipped.
pub open spec fn retraced(t: Seq<u8>, steps: Seq<StepView>, cursor: int, start: int) -> Option<int>
    decreases steps.len(),
{
    if steps.len() == 0 || steps.last().start < start {
        Some(cursor)
    } else {
        let step = steps.last();
        if step.start <= cursor && step.start + step.inserted_len == cursor && step.cursor_before
            == step.start && is_pos(t, step.start) {
            retraced(t, steps.drop_last(), step.start, start)
        } else {
            None
        }
    }
}

/// Overwritten graphemes taken back until the cursor is at `start`.
pub open spec fn restored_to(m: AreaView, start: int) -> AreaView
    decreases m.commands.steps.len(),
{
    if m.buf.cursor <= start || m.commands.steps.len() == 0 {
        m
    } else {
        let (after, done) = insert_acted(m, VimAction::RestoreReplacedCharacter);
        if done && after.commands.steps.len() < m.commands.steps.len() {
            restored_to(after, start)
        } else {
            after
        }
    }
}

/// What was typed from `start` up to the cursor taken back; refused in Replace mode if it was not
/// typed in one go.
pub open spec fn burst_retracted(m: AreaView, start: int) -> (AreaView, bool) {
    if m.enabled && m.mode == VimMode::Replace {
        if retraced(m.buf.text, m.commands.steps, m.buf.cursor, start) == Some(start) {
            (restored_to(m, start), true)
        } else {
            (m, false)
        }
    } else {
        (range_replaced(m, start, m.buf.cursor, Seq::empty()), true)
    }
}

/// No element lies in `a..z`.
pub open spec fn none_within(es: Seq<ElementView>, a: int, z: int) -> bool {
    forall|i: int| 0 <= i < es.len() ==> (#[trigger] es[i]).end <= a || es[i].start >= z
}

/// Nothing typed before is recorded behind the cursor.
pub open spec fn steps_before_cursor(m: AreaView) -> bool {
    m.commands.steps.len() == 0 || m.commands.steps.last().start < m.buf.cursor
}

/// Behind elements there is a boundary outside every element.
pub proof fn lemma_past_elements(t: Seq<u8>, es: Seq<ElementView>, p: int)
    requires
        elements_ok(t, es),
        is_pos(t, p),
        !inside(es, p),
    ensures
        is_pos(t, past_elements(es, p, t.len() as int)),
        !inside(es, past_elements(es, p, t.len() as int)),
    decreases t.len() - p,
{
    if covered(es, p) && p < cover_end(es, p) <= t.len() {
        let i = choose|i: int| covers_at(es, i, p);
        assert(covers_at(es, i, p));
        lemma_cover(t, es, i, p);
        lemma_edges(t, es, i);
        lemma_past_elements(t, es, cover_end(es, p));
    }
}

/// Elements that an edit leaves alone come back when it is undone.
pub proof fn lemma_elements_back(t: Seq<u8>, es: Seq<ElementView>, a: int, z: int, n: int)
    requires
        elements_ok(t, es),
        none_within(es, a, z),
        a <= z,
        0 <= n,
    ensures
        unmarked(edited_elements(es, a, z, n), a, a + n) == edited_elements(es, a, z, n),
        edited_elements(edited_elements(es, a, z, n), a, a + n, z - a) == es,
    decreases es.len(),
{
    if es.len() > 0 {
        let init = es.drop_last();
        let e = es.last();
        assert(e == es[es.len() - 1]);
        assert forall|i: int| 0 <= i < init.len() implies #[trigger] init[i] == es[i] by {}
        lemma_elements_back(t, init, a, z, n);
        let rest = edited_elements(init, a, z, n);
        let all = edited_elements(es, a, z, n);
        assert(all == rest.push(all.last()));
        assert(all.drop_last() =~= rest);
        assert(edited_elements(all, a, a + n, z - a) =~= init.push(e));
        assert(init.push(e) =~= es);
    }
}

/// Taking back a grapheme while typing does to the text what taking it back does.
pub proof fn lemma_restore_action(m: AreaView)
    ensures
        insert_acted(m, VimAction::RestoreReplacedCharacter).1 == restored(m).1,
        insert_acted(m, VimAction::RestoreReplacedCharacter).0.buf == restored(m).0.buf,
        insert_acted(m, VimAction::RestoreReplacedCharacter).0.commands.steps == restored(
            m,
        ).0.commands.steps,
        restored(m).1 ==> restored(m).0.commands.steps == m.commands.steps.drop_last()
            && m.commands.steps.len() > 0,
{
    reveal(restored);
    reveal(raw_edit);
    reveal(insert_acted);
    reveal(acted);
}

/// Tracing steps back only looks at the text up to the cursor.
pub proof fn lemma_retraced_prefix(
    t: Seq<u8>,
    u: Seq<u8>,
    steps: Seq<StepView>,
    cursor: int,
    start: int,
)
    requires
        forall|p: int| 0 <= p <= cursor && #[trigger] is_pos(t, p) ==> is_pos(u, p),
        retraced(t, steps, cursor, start) is Some,
    ensures
        retraced(u, steps, cursor, start) == retraced(t, steps, cursor, start),
    decreases steps.len(),
{
    if steps.len() > 0 && steps.last().start >= start {
        assert(is_pos(t, steps.last().start));
        lemma_retraced_prefix(t, u, steps.drop_last(), steps.last().start, start);
    }
}

impl TextArea {
    /// Where the graphemes typed last from `start` on lead back to is `start`.
    fn burst_leads_back(&self, start: usize) -> (r: bool)
        ensures
            r == (retraced(
                self.bytes(),
                self@.commands.steps,
                self@.buf.cursor,
                start as int,
            ) == Some(start as int)),
    {
        let ghost steps = self@.commands.steps;
        let mut cursor: usize = self.cursor_pos;
        let mut i: usize = self.vim_commands.replace_steps.len();
        assert(steps.take(i as int) =~= steps);
        while i > 0 && self.vim_commands.replace_steps[i - 1].start >= start
            invariant
                steps == self@.commands.steps,
                steps.len() == self.vim_commands.replace_steps.len(),
                i <= steps.len(),
                retraced(self.bytes(), steps.take(i as int), cursor as int, start as int)
                    == retraced(self.bytes(), steps, self@.buf.cursor, start as int),
            decreases i,
        {
            let step = &self.vim_commands.replace_steps[i - 1];
            assert(steps.take(i as int).last() == step@);
            assert(steps.take(i as int).drop_last() =~= steps.take(i - 1));
            if step.start > cursor || cursor - step.start != step.inserted_len
                || step.cursor_before != step.start || !is_boundary(&self.text, step.start) {
                return false;
            }
            cursor = step.start;
            i = i - 1;
        }
        proof {
            if i > 0 {
                assert(steps.take(i as int).last() == self.vim_commands.replace_steps[i - 1]@);
            }
        }
        cursor == start
    }

    /// Retract a detected paste prefix without losing overwritten text or crossing attachments.
    pub fn retract_paste_burst(&mut self, start: usize) -> (r: bool)
        requires
            old(self).wf(),
            !(old(self)@.enabled && old(self)@.mode == VimMode::Replace) ==> start
                <= old(self).cursor_pos && is_pos(old(self).bytes(), start as int),
        ensures
            (final(self)@, r) == burst_retracted(old(self)@, start as int),
            final(self).wf(),
    {
        if self.is_vim_replace_mode() {
            if !self.burst_leads_back(start) {
                return false;
            }
            while self.cursor_pos > start && self.vim_commands.replace_steps.len() > 0
                invariant
                    self.wf(),
                    restored_to(self@, start as int) == restored_to(old(self)@, start as int),
                    burst_retracted(old(self)@, start as int) == (
                        restored_to(old(self)@, start as int),
                        true,
                    ),
                decreases self@.commands.steps.len(),
            {
                proof {
                    lemma_restore_action(self@);
                }
                if !self.apply_vim_insert_action(VimAction::RestoreReplacedCharacter) {
                    return true;
                }
            }
        } else {
            self.delete_range(start..self.cursor_pos);
        }
        true
    }
}

} // verus!
