//! What undo promises of every command.

use crate::actions::{
    acted, before_newline, characters_replaced, insert_entered, line_units, target_acted,
    target_applied, times,
};
use crate::buffer::{next_atomic, Buffer};
use crate::editing::{
    current_line_killed, deleted_backward, deleted_forward, killed, line_end_killed,
    line_start_killed, yanked,
};
use crate::finds::{find_range, found, found_by, jump_range, jumped};
use crate::input::{all_typed, editor_action, key_handled, typed};
use crate::keys::{command_char, KeyCode, KeyEvent};
use crate::line_edits::{
    all_shifted, joined_once, joined_times, line_starts, lines_joined, lines_shifted, paste_unit,
    pasted, shifted,
};
use crate::lines::{counted_lines_end, less_one, line_end, line_end_with_newline, line_start};
use crate::operators::{
    in_order, lines_changed, operated, operator_applied, operator_range, other_line,
};
use crate::search::{search_match, searched, SearchQuery};
use crate::segment::grapheme_starts;
use crate::text::repeated;
use crate::text_objects::object_range;
use crate::textarea::{inserted_at, raw_edit, with_cursor, AreaView, KillBufferKind};
use crate::typing::{
    inserted, nth_grapheme, overtype, overtyped_from, records_typing, restored, text_recorded,
};
use crate::vim::{
    change_committed, change_finished, history_with, undone, with_key, VimFindKind,
    VimIndentDirection, VimMode, VimMotion, VimOperator,
};
use crate::vim_commands::{
    change_opened, deletes, edit_started, insert_acted, insert_left, steps_cleared, CommandView,
    VimAction, VimEditTarget, VimInsertPosition,
};
use crate::words::{word_end_from, word_start_before};
use vstd::prelude::*;
use vstd::utf8::*;

verus! {

/// Whether two buffers have the same text and elements.
pub open spec fn same_content(b: Buffer, o: Buffer) -> bool {
    b.text == o.text && b.elements == o.elements
}

/// `n` comes from `m` without losing what undo has to bring back: unless nothing changed, the
/// change under way started from the content of `m`, or was under way already.
pub open spec fn tracks(m: AreaView, n: AreaView) -> bool {
    &&& n.enabled == m.enabled
    &&& n.undo.history == m.undo.history
    &&& m.enabled ==> match m.undo.active {
        Some(_) => n.undo.active == m.undo.active,
        None => match n.undo.active {
            Some(b) => same_content(b, m.buf),
            None => same_content(n.buf, m.buf),
        },
    }
}

/// The recorded changes and the last find are the same.
pub open spec fn same_commands(m: AreaView, n: AreaView) -> bool {
    n.commands == (CommandView { steps: n.commands.steps, ..m.commands })
}

/// The recorded changes and the last find are the same, and nothing new can be taken back in
/// Replace mode.
pub open spec fn keeps_commands(m: AreaView, n: AreaView) -> bool {
    same_commands(m, n) && (n.commands.steps == m.commands.steps || n.commands.steps.len() == 0)
}

/// What Replace mode overwrote is kept only while a change is under way.
pub open spec fn steps_backed(m: AreaView) -> bool {
    m.enabled && m.commands.steps.len() > 0 ==> m.undo.active is Some
}

/// Either nothing changed and nothing is new in the history, or undo brings back the content of
/// `m`.
pub open spec fn undo_restores(m: AreaView, n: AreaView) -> bool {
    ||| same_content(n.buf, m.buf) && n.undo.history == m.undo.history
    ||| same_content(undone(n).buf, m.buf)
}

pub proof fn lemma_tracks_on(m: AreaView, n: AreaView, o: AreaView)
    requires
        tracks(m, n),
        tracks(n, o),
    ensures
        tracks(m, o),
{
}

proof fn lemma_raw_edit_tracks(m: AreaView, a: int, z: int, ins: Seq<u8>)
    ensures
        tracks(m, raw_edit(m, a, z, ins)),
        tracks(m, steps_cleared(raw_edit(m, a, z, ins))),
        keeps_commands(m, raw_edit(m, a, z, ins)),
        raw_edit(m, a, z, ins).mode == m.mode,
{
    reveal(raw_edit);
}

proof fn lemma_killed_tracks(m: AreaView, a: int, z: int, kind: KillBufferKind)
    ensures
        tracks(m, killed(m, a, z, kind)),
        keeps_commands(m, killed(m, a, z, kind)),
        tracks(m, yanked(m, a, z, kind)),
        killed(m, a, z, kind).mode == m.mode,
{
    reveal(raw_edit);
}

proof fn lemma_operated_tracks(m: AreaView, operator: VimOperator, a: int, z: int)
    ensures
        tracks(m, operated(m, operator, a, z)),
        tracks(m, operated(with_cursor(m, a), operator, a, z)),
        keeps_commands(m, operated(m, operator, a, z)),
        operated(m, operator, a, z).mode != VimMode::Normal || m.mode == VimMode::Normal,
{
    lemma_killed_tracks(m, a, z, KillBufferKind::Characterwise);
    lemma_killed_tracks(with_cursor(m, a), a, z, KillBufferKind::Characterwise);
}

proof fn lemma_lines_changed_tracks(m: AreaView, a: int, z: int, e: int)
    ensures
        tracks(m, lines_changed(m, a, z, e)),
        keeps_commands(m, lines_changed(m, a, z, e)),
{
    reveal(raw_edit);
}

proof fn lemma_joined_tracks(m: AreaView, at: Option<int>, count: nat)
    ensures
        tracks(m, joined_times(m, at, count).0),
        keeps_commands(m, joined_times(m, at, count).0),
        joined_times(m, at, count).0.mode == m.mode,
    decreases count,
{
    reveal(raw_edit);
    if count > 0 {
        assert(tracks(m, joined_once(m)));
        lemma_joined_tracks(
            joined_once(m),
            Some(line_end(m.buf.text, m.buf.cursor)),
            (count - 1) as nat,
        );
    }
}

proof fn lemma_shifted_tracks(
    m: AreaView,
    direction: VimIndentDirection,
    starts: Seq<int>,
    changed: bool,
)
    ensures
        tracks(m, all_shifted(m, direction, starts, changed).0),
        keeps_commands(m, all_shifted(m, direction, starts, changed).0),
        all_shifted(m, direction, starts, changed).0.mode == m.mode,
    decreases starts.len(),
{
    reveal(raw_edit);
    if starts.len() > 0 {
        let next = shifted(m, direction, starts.last());
        assert(tracks(m, next));
        lemma_shifted_tracks(
            next,
            direction,
            starts.drop_last(),
            changed || crate::line_edits::shifts(m.buf.text, direction, starts.last()),
        );
    }
}

proof fn lemma_found_tracks(
    m: AreaView,
    kind: VimFindKind,
    operator: Option<VimOperator>,
    target: char,
    count: nat,
)
    ensures
        tracks(m, found(m, kind, operator, target, count).0),
        keeps_commands(m, found(m, kind, operator, target, count).0),
        m.mode != VimMode::Normal ==> found(m, kind, operator, target, count).0.mode
            != VimMode::Normal,
{
    reveal(found);
    let t = m.buf.text;
    let c = m.buf.cursor;
    match found_by(t, m.buf.elements, c, kind, target, count) {
        None => {},
        Some(place) => match operator {
            Some(operator) => {
                let (a, z) = find_range(c, kind, place);
                lemma_operated_tracks(m, operator, a, z);
                lemma_operated_tracks(with_cursor(m, a), operator, a, z);
            },
            None => {},
        },
    }
}

proof fn lemma_searched_tracks(m: AreaView, query: SearchQuery, operator: VimOperator)
    ensures
        tracks(m, searched(m, query, Some(operator)).0),
        keeps_commands(m, searched(m, query, Some(operator)).0),
        m.mode != VimMode::Normal ==> searched(m, query, Some(operator)).0.mode != VimMode::Normal,
{
    reveal(searched);
    match search_match(m.buf.text, encode_utf8(query.pattern@), query.backward, m.buf.cursor) {
        None => {},
        Some(p) => {
            let (a, z) = in_order(m.buf.cursor, p);
            lemma_operated_tracks(m, operator, a, z);
            lemma_operated_tracks(with_cursor(m, a), operator, a, z);
        },
    }
}

proof fn lemma_jumped_tracks(
    m: AreaView,
    last: bool,
    operator: Option<VimOperator>,
    count: Option<usize>,
)
    ensures
        tracks(m, jumped(m, last, operator, count)),
        keeps_commands(m, jumped(m, last, operator, count)),
        m.mode != VimMode::Normal ==> jumped(m, last, operator, count).mode != VimMode::Normal,
{
    reveal(jumped);
    let (a, z) = jump_range(m.buf.text, m.buf.cursor, last, count);
    lemma_killed_tracks(m, a, z, KillBufferKind::Linewise);
}

proof fn lemma_operator_tracks(m: AreaView, operator: VimOperator, motion: VimMotion, n: nat)
    ensures
        tracks(m, operator_applied(m, operator, motion, n)),
        keeps_commands(m, operator_applied(m, operator, motion, n)),
        m.mode != VimMode::Normal ==> operator_applied(m, operator, motion, n).mode
            != VimMode::Normal,
{
    reveal(operator_applied);
    let t = m.buf.text;
    let c = m.buf.cursor;
    let (a, z, lines) = operator_range(t, m.buf.elements, c, operator, motion, n);
    lemma_operated_tracks(m, operator, a, z);
    lemma_killed_tracks(m, a, z, KillBufferKind::Linewise);
    let last = if motion is Down {
        other_line(t, c, n, true)
    } else {
        line_start(t, c)
    };
    lemma_lines_changed_tracks(m, a, z, line_end(t, last));
}

proof fn lemma_target_tracks(
    m: AreaView,
    operator: VimOperator,
    target: VimEditTarget,
    count: Option<usize>,
)
    ensures
        tracks(m, target_applied(m, operator, target, count).0),
        keeps_commands(m, target_applied(m, operator, target, count).0),
        m.mode != VimMode::Normal ==> target_applied(m, operator, target, count).0.mode
            != VimMode::Normal,
{
    let t = m.buf.text;
    let es = m.buf.elements;
    let c = m.buf.cursor;
    let n = times(count);
    match target {
        VimEditTarget::Character => {
            let end = line_units(t, es, c, n, line_end(t, c)).0;
            lemma_killed_tracks(m, c, end, KillBufferKind::Characterwise);
        },
        VimEditTarget::Line => {
            let a = line_start(t, c);
            let z = counted_lines_end(t, c, n);
            lemma_killed_tracks(m, a, z, KillBufferKind::Linewise);
            lemma_lines_changed_tracks(m, a, z, before_newline(t, z));
        },
        VimEditTarget::LineEnd => {
            lemma_killed_tracks(m, c, line_end(t, c), KillBufferKind::Characterwise);
        },
        VimEditTarget::Motion(VimMotion::Find(find)) => {
            lemma_found_tracks(m, find.kind, Some(operator), find.target, n);
        },
        VimEditTarget::Motion(motion) => {
            lemma_operator_tracks(m, operator, motion, n);
        },
        VimEditTarget::Search(query) => {
            lemma_searched_tracks(m, query, operator);
        },
        VimEditTarget::TextObject { scope, object } => {
            match object_range(t, es, c, object, scope) {
                Some((a, z)) => {
                    lemma_operated_tracks(m, operator, a, z);
                },
                None => {},
            }
        },
        VimEditTarget::Find { motion, target } => {
            lemma_found_tracks(m, motion, Some(operator), target, n);
        },
        VimEditTarget::BufferJump { last } => {
            lemma_jumped_tracks(m, last, Some(operator), count);
        },
    }
}

pub proof fn lemma_overtyped_tracks(m: AreaView, text: Seq<u8>, starts: Seq<usize>, i: int)
    ensures
        tracks(m, overtyped_from(m, text, starts, i)),
        same_commands(m, overtyped_from(m, text, starts, i)),
        steps_backed(m) ==> steps_backed(overtyped_from(m, text, starts, i)),
        overtyped_from(m, text, starts, i).mode == m.mode,
    decreases starts.len() - i,
{
    reveal(raw_edit);
    if 0 <= i < starts.len() {
        let next = overtype(m, nth_grapheme(text, starts, i));
        assert(tracks(m, next));
        assert(steps_backed(m) ==> steps_backed(next));
        lemma_overtyped_tracks(next, text, starts, i + 1);
    }
}

/// Typing outside Normal mode, or up to where Normal mode ends the change.
pub proof fn lemma_typing_tracks(m: AreaView, text: Seq<u8>)
    ensures
        m.mode != VimMode::Normal ==> tracks(m, inserted(m, text)) && (steps_backed(m)
            ==> steps_backed(inserted(m, text))),
        inserted(m, text).mode == m.mode,
        !records_typing(m) ==> same_commands(m, inserted(m, text)),
        tracks(m, text_recorded(inserted_at(m, m.buf.cursor, text), text)),
{
    lemma_overtyped_tracks(m, text, grapheme_starts(decode_utf8(text)), 0);
    let at = crate::buffer::snap_nearest(m.buf.elements, m.buf.cursor);
    lemma_raw_edit_tracks(m, at, at, text);
}

/// Whether an action types text: pasting characters.
pub open spec fn pastes_characters(m: AreaView, action: VimAction) -> bool {
    (action is PasteAfter || action is PasteBefore) && m.register_kind
        == KillBufferKind::Characterwise
}

proof fn lemma_insert_entered_tracks(m: AreaView, position: VimInsertPosition)
    ensures
        tracks(m, insert_entered(m, position)),
        keeps_commands(m, insert_entered(m, position)),
        insert_entered(m, position).mode == VimMode::Insert,
{
    reveal(insert_entered);
    reveal(raw_edit);
}

proof fn lemma_characters_replaced_tracks(m: AreaView, ch: char, n: nat)
    ensures
        tracks(m, characters_replaced(m, ch, n).0),
        keeps_commands(m, characters_replaced(m, ch, n).0),
        characters_replaced(m, ch, n).0.mode == m.mode,
{
    reveal(characters_replaced);
    reveal(raw_edit);
}

pub proof fn lemma_restored_tracks(m: AreaView)
    ensures
        steps_backed(m) ==> tracks(m, restored(m).0) && steps_backed(restored(m).0),
        same_commands(m, restored(m).0),
        restored(m).0.mode == m.mode,
{
    reveal(restored);
    reveal(raw_edit);
}

proof fn lemma_pasted_tracks(m: AreaView, after: bool, n: nat)
    ensures
        m.mode != VimMode::Normal || m.register_kind == KillBufferKind::Linewise ==> tracks(
            m,
            pasted(m, after, n),
        ) && (steps_backed(m) ==> steps_backed(pasted(m, after, n))),
        !records_typing(m) ==> same_commands(m, pasted(m, after, n)),
        pasted(m, after, n).mode == m.mode,
{
    reveal(pasted);
    reveal(raw_edit);
    let at = if after {
        next_atomic(m.buf.text, m.buf.elements, m.buf.cursor)
    } else {
        m.buf.cursor
    };
    lemma_typing_tracks(with_cursor(m, at), repeated(paste_unit(m), n));
}

proof fn lemma_lines_joined_tracks(m: AreaView, n: nat)
    ensures
        tracks(m, lines_joined(m, n).0),
        keeps_commands(m, lines_joined(m, n).0),
        lines_joined(m, n).0.mode == m.mode,
{
    reveal(lines_joined);
    lemma_joined_tracks(m, None, less_one(n));
}

proof fn lemma_lines_shifted_tracks(m: AreaView, direction: VimIndentDirection, n: nat)
    ensures
        tracks(m, lines_shifted(m, direction, n).0),
        keeps_commands(m, lines_shifted(m, direction, n).0),
        lines_shifted(m, direction, n).0.mode == m.mode,
{
    reveal(lines_shifted);
    let first = line_start(m.buf.text, m.buf.cursor);
    lemma_shifted_tracks(m, direction, line_starts(m.buf.text, first, n), false);
}

proof fn lemma_deleted_tracks(m: AreaView)
    ensures
        tracks(m, deleted_backward(m)),
        tracks(m, deleted_forward(m)),
        keeps_commands(m, deleted_backward(m)),
        keeps_commands(m, deleted_forward(m)),
        deleted_backward(m).mode == m.mode,
        deleted_forward(m).mode == m.mode,
{
    reveal(raw_edit);
}

proof fn lemma_line_killed_tracks(m: AreaView)
    ensures
        tracks(m, line_start_killed(m)),
        tracks(m, line_end_killed(m)),
        tracks(m, current_line_killed(m)),
        keeps_commands(m, line_start_killed(m)),
        keeps_commands(m, line_end_killed(m)),
        keeps_commands(m, current_line_killed(m)),
        line_start_killed(m).mode == m.mode,
        line_end_killed(m).mode == m.mode,
        current_line_killed(m).mode == m.mode,
{
    let t = m.buf.text;
    let c = m.buf.cursor;
    let bol = line_start(t, c);
    let eol = line_end(t, c);
    lemma_killed_tracks(m, bol, c, KillBufferKind::Characterwise);
    lemma_killed_tracks(m, bol - 1, bol, KillBufferKind::Characterwise);
    lemma_killed_tracks(m, c, eol, KillBufferKind::Characterwise);
    lemma_killed_tracks(m, eol, eol + 1, KillBufferKind::Characterwise);
    lemma_killed_tracks(m, bol, line_end_with_newline(t, bol), KillBufferKind::Characterwise);
}

/// Whether an action moves the cursor or changes the mode, and nothing else.
pub open spec fn moves(action: VimAction) -> bool {
    action is EnterReplaceMode || action is MoveLeft || action is MoveRight || action is MoveUp
        || action is MoveDown || action is MoveWordLeft || action is MoveWordRight
        || action is MoveLineStart || action is MoveLineEnd
}

pub proof fn lemma_moved_tracks(m: AreaView, action: VimAction, count: Option<usize>)
    requires
        moves(action),
    ensures
        tracks(m, acted(m, action, count).0),
        keeps_commands(steps_cleared(m), acted(m, action, count).0),
        m.mode != VimMode::Normal ==> acted(m, action, count).0.mode != VimMode::Normal,
{
    let s = steps_cleared(m);
    let after = acted(m, action, count).0;
    assert(after.commands == s.commands && after.undo == m.undo && after.enabled == m.enabled
        && after.buf.text == m.buf.text && after.buf.elements == m.buf.elements && (after.mode
        == m.mode || after.mode == VimMode::Replace)) by {
        reveal(acted);
    }
}

/// A deletion of Insert mode.
pub open spec fn deletion_done(m: AreaView, action: VimAction) -> AreaView {
    let t = m.buf.text;
    let es = m.buf.elements;
    let c = m.buf.cursor;
    let kind = KillBufferKind::Characterwise;
    match action {
        VimAction::DeleteBackward => deleted_backward(m),
        VimAction::DeleteForward => deleted_forward(m),
        VimAction::DeleteBackwardWord => killed(m, word_start_before(t, es, c), c, kind),
        VimAction::DeleteForwardWord => killed(m, c, word_end_from(t, es, c), kind),
        VimAction::KillLineStart => line_start_killed(m),
        VimAction::KillLine => current_line_killed(m),
        _ => line_end_killed(m),
    }
}

pub proof fn lemma_deletion_done(m: AreaView, action: VimAction, count: Option<usize>)
    requires
        deletes(action),
    ensures
        acted(m, action, count).0 == deletion_done(steps_cleared(m), action),
        acted(m, action, count).1,
{
    reveal(acted);
}

pub proof fn lemma_deletion_tracks(m: AreaView, action: VimAction, count: Option<usize>)
    requires
        deletes(action),
    ensures
        tracks(m, acted(m, action, count).0),
        keeps_commands(steps_cleared(m), acted(m, action, count).0),
        acted(m, action, count).0.mode == m.mode,
{
    let s = steps_cleared(m);
    let t = m.buf.text;
    let es = m.buf.elements;
    let c = m.buf.cursor;
    assert(tracks(m, s));
    let kind = KillBufferKind::Characterwise;
    lemma_deletion_done(m, action, count);
    lemma_deleted_tracks(s);
    lemma_line_killed_tracks(s);
    lemma_killed_tracks(s, word_start_before(t, es, c), c, kind);
    lemma_killed_tracks(s, c, word_end_from(t, es, c), kind);
}

/// Every action keeps what undo has to bring back, and records nothing by itself; but pasting
/// characters in Normal mode ends the change.
pub proof fn lemma_acted_tracks(m: AreaView, action: VimAction, count: Option<usize>)
    ensures
        (action is RestoreReplacedCharacter ==> steps_backed(m)) && (m.mode == VimMode::Normal
            ==> !pastes_characters(m, action)) ==> tracks(m, acted(m, action, count).0)
            && steps_backed(acted(m, action, count).0),
        !records_typing(m) ==> same_commands(m, acted(m, action, count).0),
        m.mode != VimMode::Normal ==> acted(m, action, count).0.mode != VimMode::Normal,
{
    let s = steps_cleared(m);
    let after = acted(m, action, count).0;
    assert(tracks(m, s));
    match action {
        VimAction::RestoreReplacedCharacter => {
            assert(after == restored(m).0) by {
                reveal(acted);
            }
            lemma_restored_tracks(m);
        },
        VimAction::Insert(position) => {
            assert(after == insert_entered(s, position)) by {
                reveal(acted);
            }
            lemma_insert_entered_tracks(s, position);
        },
        VimAction::Delete(target) => {
            assert(after == target_applied(s, VimOperator::Delete, target, count).0) by {
                reveal(acted);
                reveal(target_acted);
            }
            lemma_target_tracks(s, VimOperator::Delete, target, count);
        },
        VimAction::Change(target) => {
            assert(after == target_applied(s, VimOperator::Change, target, count).0) by {
                reveal(acted);
                reveal(target_acted);
            }
            lemma_target_tracks(s, VimOperator::Change, target, count);
        },
        VimAction::Replace(ch) => {
            assert(after == characters_replaced(s, ch, times(count)).0) by {
                reveal(acted);
            }
            lemma_characters_replaced_tracks(s, ch, times(count));
        },
        VimAction::PasteAfter | VimAction::PasteBefore => {
            assert(after == pasted(s, action is PasteAfter, times(count))) by {
                reveal(acted);
            }
            lemma_pasted_tracks(s, action is PasteAfter, times(count));
        },
        VimAction::JoinLines => {
            let n: nat = match count {
                Some(n) => if n < 2 {
                    2
                } else {
                    n as nat
                },
                None => 2,
            };
            assert(after == lines_joined(s, n).0) by {
                reveal(acted);
            }
            lemma_lines_joined_tracks(s, n);
        },
        VimAction::Indent(direction) => {
            assert(after == lines_shifted(s, direction, times(count)).0) by {
                reveal(acted);
            }
            lemma_lines_shifted_tracks(s, direction, times(count));
        },
        _ => {
            if moves(action) {
                lemma_moved_tracks(m, action, count);
            } else {
                lemma_deletion_tracks(m, action, count);
            }
        },
    }
}

/// A change that undo can bring back is brought back once it has ended.
proof fn lemma_tracked_undo(m: AreaView, n: AreaView)
    requires
        m.enabled,
        m.undo.active is None,
        tracks(m, n),
    ensures
        undo_restores(m, change_committed(n)),
{
    match n.undo.active {
        Some(b) => {
            let history = history_with(n.undo.history, b);
            assert(history.last() == b);
        },
        None => {},
    }
}

/// Recording a change does not touch the text.
proof fn lemma_edit_started(m: AreaView, action: VimAction, count: Option<usize>)
    ensures
        ({
            let n = edit_started(m, action, count).0;
            let after = acted(change_opened(m, action, count), action, count).0;
            &&& n.buf == after.buf
            &&& n.undo == after.undo
            &&& n.mode == after.mode
            &&& n.enabled == after.enabled
            &&& n.commands.steps == after.commands.steps
        }),
{
    reveal(edit_started);
}

/// Undo takes back a command of Normal mode: whatever the command was, either it changed nothing,
/// or undo brings back the text and the elements that were there before it.
pub proof fn law_undo_takes_back_a_command(m: AreaView, action: VimAction, count: Option<usize>)
    requires
        m.enabled,
        m.mode == VimMode::Normal,
        m.undo.active is None,
        action is RestoreReplacedCharacter ==> steps_backed(m),
        edit_started(m, action, count).0.mode == VimMode::Normal,
    ensures
        undo_restores(m, change_finished(edit_started(m, action, count).0)),
{
    let ready = change_opened(m, action, count);
    let after = acted(ready, action, count).0;
    lemma_edit_started(m, action, count);
    if !pastes_characters(m, action) {
        lemma_acted_tracks(ready, action, count);
        lemma_tracked_undo(m, edit_started(m, action, count).0);
    } else {
        let s = steps_cleared(ready);
        let at = if action is PasteAfter {
            next_atomic(m.buf.text, m.buf.elements, m.buf.cursor)
        } else {
            m.buf.cursor
        };
        let there = with_cursor(s, at);
        let text = repeated(paste_unit(s), times(count));
        lemma_typing_tracks(there, text);
        assert(tracks(m, there));
        let typed = text_recorded(inserted_at(there, there.buf.cursor, text), text);
        lemma_tracks_on(m, there, typed);
        lemma_tracked_undo(m, typed);
        assert(after == pasted(s, action is PasteAfter, times(count))) by {
            reveal(acted);
        }
        assert(same_content(after.buf, m.buf) && after.undo == m.undo || after.buf
            == change_committed(typed).buf && after.undo == change_committed(typed).undo) by {
            reveal(pasted);
        }
    }
}

/// A key other than Escape typed in Insert or Replace mode.
proof fn lemma_key_tracks(m: AreaView, event: KeyEvent)
    requires
        m.enabled,
        m.mode != VimMode::Normal,
        steps_backed(m),
        event.code != KeyCode::Esc,
    ensures
        tracks(m, typed(m, event)),
        steps_backed(typed(m, event)),
        typed(m, event).mode != VimMode::Normal,
{
    reveal(key_handled);
    let k = with_key(m, event);
    match editor_action(event, k.enabled && k.mode == VimMode::Replace) {
        Some(action) => {
            lemma_acted_tracks(k, action, None);
            let after = insert_acted(k, action).0;
            let done = acted(k, action, None).0;
            assert(after.buf == done.buf && after.undo == done.undo && after.mode == done.mode
                && after.enabled == done.enabled && after.commands.steps
                == done.commands.steps) by {
                reveal(insert_acted);
            }
        },
        None => match command_char(event) {
            Some(ch) => {
                lemma_typing_tracks(k, encode_scalar(ch as u32));
            },
            None => {},
        },
    }
}

proof fn lemma_keys_track(m: AreaView, events: Seq<KeyEvent>, i: int)
    requires
        m.enabled,
        m.mode != VimMode::Normal,
        steps_backed(m),
        forall|k: int| 0 <= k < events.len() ==> (#[trigger] events[k]).code != KeyCode::Esc,
    ensures
        tracks(m, all_typed(m, events, i)),
        all_typed(m, events, i).mode != VimMode::Normal,
    decreases events.len() - i,
{
    if 0 <= i < events.len() {
        lemma_key_tracks(m, events[i]);
        let next = typed(m, events[i]);
        lemma_keys_track(next, events, i + 1);
        lemma_tracks_on(m, next, all_typed(next, events, i + 1));
    }
}

/// A command that enters Insert or Replace mode starts a change that undo can bring back.
pub proof fn lemma_session_start(m: AreaView, action: VimAction, count: Option<usize>)
    requires
        m.enabled,
        m.mode == VimMode::Normal,
        action is RestoreReplacedCharacter ==> steps_backed(m),
        edit_started(m, action, count).0.mode != VimMode::Normal,
    ensures
        tracks(m, edit_started(m, action, count).0),
        steps_backed(edit_started(m, action, count).0),
{
    let ready = change_opened(m, action, count);
    let start = edit_started(m, action, count).0;
    lemma_edit_started(m, action, count);
    assert(!pastes_characters(m, action)) by {
        if pastes_characters(m, action) {
            let s = steps_cleared(ready);
            assert(start.mode == pasted(s, action is PasteAfter, times(count)).mode) by {
                reveal(acted);
            }
            lemma_pasted_tracks(s, action is PasteAfter, times(count));
        }
    }
    lemma_acted_tracks(ready, action, count);
}

/// Escape ends a session so that undo brings back what was there before it.
proof fn lemma_session_end(m: AreaView, n: AreaView, escape: KeyEvent)
    requires
        m.enabled,
        m.undo.active is None,
        tracks(m, n),
        n.mode != VimMode::Normal,
        escape.code == KeyCode::Esc,
    ensures
        undo_restores(m, typed(n, escape)),
{
    let k = with_key(n, escape);
    lemma_tracked_undo(m, k);
    let left = insert_left(k);
    assert(same_content(left.buf, change_committed(k).buf));
    assert(left.undo == change_committed(k).undo);
    assert(typed(n, escape).buf == left.buf && typed(n, escape).undo == left.undo) by {
        reveal(key_handled);
    }
}

/// Undo groups a session: a command that enters Insert or Replace mode, all keys typed there, and
/// the Escape that leaves it are taken back by one undo.
pub proof fn law_undo_groups_a_session(
    m: AreaView,
    action: VimAction,
    count: Option<usize>,
    events: Seq<KeyEvent>,
    escape: KeyEvent,
)
    requires
        m.enabled,
        m.mode == VimMode::Normal,
        m.undo.active is None,
        action is RestoreReplacedCharacter ==> steps_backed(m),
        edit_started(m, action, count).0.mode != VimMode::Normal,
        forall|k: int| 0 <= k < events.len() ==> (#[trigger] events[k]).code != KeyCode::Esc,
        escape.code == KeyCode::Esc,
    ensures
        undo_restores(m, typed(all_typed(edit_started(m, action, count).0, events, 0), escape)),
{
    let start = edit_started(m, action, count).0;
    lemma_session_start(m, action, count);
    lemma_keys_track(start, events, 0);
    let end = all_typed(start, events, 0);
    lemma_tracks_on(m, start, end);
    lemma_session_end(m, end, escape);
}

/// The history never holds more than its limit, however many changes end.
pub proof fn law_history_is_bounded(m: AreaView)
    requires
        m.undo.history.len() <= crate::vim::VIM_UNDO_LIMIT,
    ensures
        change_committed(m).undo.history.len() <= crate::vim::VIM_UNDO_LIMIT,
        undone(m).undo.history.len() <= crate::vim::VIM_UNDO_LIMIT,
{
}

/// Undo does not give numbers of elements back: new elements get new numbers.
pub proof fn law_undo_keeps_numbers(m: AreaView)
    ensures
        undone(m).next_id == m.next_id,
{
}

} // verus!
