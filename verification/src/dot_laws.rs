//! What `.` promises: the last change is carried out again as if it were typed.

use crate::actions::{
    acted, before_newline, characters_replaced, insert_entered, line_units, target_acted, times,
};
use crate::buffer::next_atomic;
use crate::editing::{
    current_line_killed, deleted_backward, deleted_forward, killed, line_end_killed,
    line_start_killed, yanked,
};
use crate::finds::{find_range, found, found_by, jump_range, jumped};
use crate::line_edits::{
    all_shifted, joined_once, joined_times, line_starts, lines_joined, lines_pasted, lines_shifted,
    paste_unit, pasted, shifted, shifts,
};
use crate::lines::{counted_lines_end, less_one, line_end, line_end_with_newline, line_start};
use crate::operators::{
    in_order, lines_changed, operated, operator_applied, operator_range, other_line,
};
use crate::search::{search_match, searched, SearchQuery};
use crate::segment::grapheme_starts;
use crate::text::repeated;
use crate::text_objects::object_range;
use crate::textarea::{raw_edit, with_cursor, AreaView, KillBufferKind};
use crate::typing::{inserted, nth_grapheme, overtype, overtyped_from, restored};
use crate::undo_laws::{lemma_deletion_done, moves};
use crate::vim::{VimFindKind, VimIndentDirection, VimMode, VimMotion, VimOperator};
use crate::vim_commands::{
    change_opened, change_repeated, deletes, edit_applied, edit_started, edits_applied,
    repeat_finished, replayed, steps_cleared, takes_count, with_count, CommandView, EditView,
    VimAction, VimEditTarget, VimInsertPosition,
};
use crate::words::{word_end_from, word_start_before};
use vstd::prelude::*;
use vstd::utf8::*;

verus! {

/// The text areas look and work the same, whatever was typed or recorded before.
pub open spec fn alike(m: AreaView, o: AreaView) -> bool {
    &&& m.buf == o.buf
    &&& m.column == o.column
    &&& m.register == o.register
    &&& m.register_kind == o.register_kind
    &&& m.enabled == o.enabled
    &&& m.mode == o.mode
    &&& m.commands.steps == o.commands.steps
}

proof fn lemma_raw_edit_alike(m: AreaView, o: AreaView, a: int, z: int, ins: Seq<u8>)
    requires
        alike(m, o),
    ensures
        alike(raw_edit(m, a, z, ins), raw_edit(o, a, z, ins)),
{
    reveal(raw_edit);
}

proof fn lemma_killed_alike(m: AreaView, o: AreaView, a: int, z: int, kind: KillBufferKind)
    requires
        alike(m, o),
    ensures
        alike(killed(m, a, z, kind), killed(o, a, z, kind)),
        alike(yanked(m, a, z, kind), yanked(o, a, z, kind)),
{
    reveal(raw_edit);
}

proof fn lemma_operated_alike(m: AreaView, o: AreaView, operator: VimOperator, a: int, z: int)
    requires
        alike(m, o),
    ensures
        alike(operated(m, operator, a, z), operated(o, operator, a, z)),
{
    lemma_killed_alike(m, o, a, z, KillBufferKind::Characterwise);
}

proof fn lemma_lines_changed_alike(m: AreaView, o: AreaView, a: int, z: int, e: int)
    requires
        alike(m, o),
    ensures
        alike(lines_changed(m, a, z, e), lines_changed(o, a, z, e)),
{
    reveal(raw_edit);
}

proof fn lemma_joined_alike(m: AreaView, o: AreaView, at: Option<int>, count: nat)
    requires
        alike(m, o),
    ensures
        alike(joined_times(m, at, count).0, joined_times(o, at, count).0),
        joined_times(m, at, count).1 == joined_times(o, at, count).1,
    decreases count,
{
    reveal(raw_edit);
    if count > 0 {
        assert(alike(joined_once(m), joined_once(o)));
        lemma_joined_alike(
            joined_once(m),
            joined_once(o),
            Some(line_end(m.buf.text, m.buf.cursor)),
            (count - 1) as nat,
        );
    }
}

proof fn lemma_shifted_alike(
    m: AreaView,
    o: AreaView,
    direction: VimIndentDirection,
    starts: Seq<int>,
    changed: bool,
)
    requires
        alike(m, o),
    ensures
        alike(
            all_shifted(m, direction, starts, changed).0,
            all_shifted(o, direction, starts, changed).0,
        ),
        all_shifted(m, direction, starts, changed).1 == all_shifted(
            o,
            direction,
            starts,
            changed,
        ).1,
    decreases starts.len(),
{
    reveal(raw_edit);
    if starts.len() > 0 {
        let p = starts.last();
        assert(alike(shifted(m, direction, p), shifted(o, direction, p)));
        lemma_shifted_alike(
            shifted(m, direction, p),
            shifted(o, direction, p),
            direction,
            starts.drop_last(),
            changed || shifts(m.buf.text, direction, p),
        );
    }
}

proof fn lemma_found_alike(
    m: AreaView,
    o: AreaView,
    kind: VimFindKind,
    operator: Option<VimOperator>,
    target: char,
    count: nat,
)
    requires
        alike(m, o),
    ensures
        alike(
            found(m, kind, operator, target, count).0,
            found(o, kind, operator, target, count).0,
        ),
        found(m, kind, operator, target, count).1 == found(o, kind, operator, target, count).1,
{
    reveal(found);
    let c = m.buf.cursor;
    match found_by(m.buf.text, m.buf.elements, c, kind, target, count) {
        None => {},
        Some(place) => match operator {
            Some(operator) => {
                let (a, z) = find_range(c, kind, place);
                lemma_operated_alike(m, o, operator, a, z);
                lemma_operated_alike(with_cursor(m, a), with_cursor(o, a), operator, a, z);
            },
            None => {},
        },
    }
}

proof fn lemma_searched_alike(
    m: AreaView,
    o: AreaView,
    query: SearchQuery,
    operator: VimOperator,
)
    requires
        alike(m, o),
    ensures
        alike(searched(m, query, Some(operator)).0, searched(o, query, Some(operator)).0),
        searched(m, query, Some(operator)).1 == searched(o, query, Some(operator)).1,
{
    reveal(searched);
    match search_match(m.buf.text, encode_utf8(query.pattern@), query.backward, m.buf.cursor) {
        None => {},
        Some(p) => {
            let (a, z) = in_order(m.buf.cursor, p);
            lemma_operated_alike(m, o, operator, a, z);
            lemma_operated_alike(with_cursor(m, a), with_cursor(o, a), operator, a, z);
        },
    }
}

proof fn lemma_jumped_alike(
    m: AreaView,
    o: AreaView,
    last: bool,
    operator: VimOperator,
    count: Option<usize>,
)
    requires
        alike(m, o),
    ensures
        alike(jumped(m, last, Some(operator), count), jumped(o, last, Some(operator), count)),
{
    reveal(jumped);
    let (a, z) = jump_range(m.buf.text, m.buf.cursor, last, count);
    lemma_killed_alike(m, o, a, z, KillBufferKind::Linewise);
}

proof fn lemma_operator_alike(
    m: AreaView,
    o: AreaView,
    operator: VimOperator,
    motion: VimMotion,
    n: nat,
)
    requires
        alike(m, o),
    ensures
        alike(operator_applied(m, operator, motion, n), operator_applied(o, operator, motion, n)),
{
    reveal(operator_applied);
    let t = m.buf.text;
    let c = m.buf.cursor;
    let (a, z, lines) = operator_range(t, m.buf.elements, c, operator, motion, n);
    lemma_operated_alike(m, o, operator, a, z);
    lemma_killed_alike(m, o, a, z, KillBufferKind::Linewise);
    let last = if motion is Down {
        other_line(t, c, n, true)
    } else {
        line_start(t, c)
    };
    lemma_lines_changed_alike(m, o, a, z, line_end(t, last));
}

proof fn lemma_target_alike(
    m: AreaView,
    o: AreaView,
    operator: VimOperator,
    target: VimEditTarget,
    count: Option<usize>,
)
    requires
        alike(m, o),
    ensures
        alike(
            target_acted(m, operator, target, count).0,
            target_acted(o, operator, target, count).0,
        ),
        target_acted(m, operator, target, count).1 == target_acted(o, operator, target, count).1,
{
    reveal(target_acted);
    let t = m.buf.text;
    let es = m.buf.elements;
    let c = m.buf.cursor;
    let n = times(count);
    match target {
        VimEditTarget::Character => {
            let end = line_units(t, es, c, n, line_end(t, c)).0;
            lemma_killed_alike(m, o, c, end, KillBufferKind::Characterwise);
        },
        VimEditTarget::Line => {
            let a = line_start(t, c);
            let z = counted_lines_end(t, c, n);
            lemma_killed_alike(m, o, a, z, KillBufferKind::Linewise);
            lemma_lines_changed_alike(m, o, a, z, before_newline(t, z));
        },
        VimEditTarget::LineEnd => {
            lemma_killed_alike(m, o, c, line_end(t, c), KillBufferKind::Characterwise);
        },
        VimEditTarget::Motion(VimMotion::Find(find)) => {
            lemma_found_alike(m, o, find.kind, Some(operator), find.target, n);
        },
        VimEditTarget::Motion(motion) => {
            lemma_operator_alike(m, o, operator, motion, n);
        },
        VimEditTarget::Search(query) => {
            lemma_searched_alike(m, o, query, operator);
        },
        VimEditTarget::TextObject { scope, object } => {
            match object_range(t, es, c, object, scope) {
                Some((a, z)) => {
                    lemma_operated_alike(m, o, operator, a, z);
                },
                None => {},
            }
        },
        VimEditTarget::Find { motion, target } => {
            lemma_found_alike(m, o, motion, Some(operator), target, n);
        },
        VimEditTarget::BufferJump { last } => {
            lemma_jumped_alike(m, o, last, operator, count);
        },
    }
}

proof fn lemma_overtyped_alike(
    m: AreaView,
    o: AreaView,
    text: Seq<u8>,
    starts: Seq<usize>,
    i: int,
)
    requires
        alike(m, o),
    ensures
        alike(overtyped_from(m, text, starts, i), overtyped_from(o, text, starts, i)),
    decreases starts.len() - i,
{
    reveal(raw_edit);
    if 0 <= i < starts.len() {
        let typed = nth_grapheme(text, starts, i);
        assert(alike(overtype(m, typed), overtype(o, typed)));
        lemma_overtyped_alike(overtype(m, typed), overtype(o, typed), text, starts, i + 1);
    }
}

pub proof fn lemma_inserted_alike(m: AreaView, o: AreaView, text: Seq<u8>)
    requires
        alike(m, o),
    ensures
        alike(inserted(m, text), inserted(o, text)),
{
    lemma_overtyped_alike(m, o, text, grapheme_starts(decode_utf8(text)), 0);
    let at = crate::buffer::snap_nearest(m.buf.elements, m.buf.cursor);
    lemma_raw_edit_alike(m, o, at, at, text);
}

proof fn lemma_insert_entered_alike(m: AreaView, o: AreaView, position: VimInsertPosition)
    requires
        alike(m, o),
    ensures
        alike(insert_entered(m, position), insert_entered(o, position)),
{
    reveal(insert_entered);
    reveal(raw_edit);
}

proof fn lemma_characters_replaced_alike(m: AreaView, o: AreaView, ch: char, n: nat)
    requires
        alike(m, o),
    ensures
        alike(characters_replaced(m, ch, n).0, characters_replaced(o, ch, n).0),
        characters_replaced(m, ch, n).1 == characters_replaced(o, ch, n).1,
{
    reveal(characters_replaced);
    reveal(raw_edit);
}

proof fn lemma_restored_alike(m: AreaView, o: AreaView)
    requires
        alike(m, o),
    ensures
        alike(restored(m).0, restored(o).0),
        restored(m).1 == restored(o).1,
{
    reveal(restored);
    reveal(raw_edit);
}

proof fn lemma_lines_pasted_alike(m: AreaView, o: AreaView, after: bool, text: Seq<u8>)
    requires
        alike(m, o),
    ensures
        alike(lines_pasted(m, after, text), lines_pasted(o, after, text)),
{
    reveal(raw_edit);
}

proof fn lemma_pasted_alike(m: AreaView, o: AreaView, after: bool, n: nat)
    requires
        alike(m, o),
    ensures
        alike(pasted(m, after, n), pasted(o, after, n)),
{
    reveal(pasted);
    let text = repeated(paste_unit(m), n);
    lemma_lines_pasted_alike(m, o, after, text);
    let at = if after {
        next_atomic(m.buf.text, m.buf.elements, m.buf.cursor)
    } else {
        m.buf.cursor
    };
    lemma_inserted_alike(with_cursor(m, at), with_cursor(o, at), text);
}

proof fn lemma_lines_joined_alike(m: AreaView, o: AreaView, n: nat)
    requires
        alike(m, o),
    ensures
        alike(lines_joined(m, n).0, lines_joined(o, n).0),
        lines_joined(m, n).1 == lines_joined(o, n).1,
{
    reveal(lines_joined);
    lemma_joined_alike(m, o, None, less_one(n));
}

proof fn lemma_lines_shifted_alike(
    m: AreaView,
    o: AreaView,
    direction: VimIndentDirection,
    n: nat,
)
    requires
        alike(m, o),
    ensures
        alike(lines_shifted(m, direction, n).0, lines_shifted(o, direction, n).0),
        lines_shifted(m, direction, n).1 == lines_shifted(o, direction, n).1,
{
    reveal(lines_shifted);
    let first = line_start(m.buf.text, m.buf.cursor);
    lemma_shifted_alike(m, o, direction, line_starts(m.buf.text, first, n), false);
}

proof fn lemma_moved_alike(m: AreaView, o: AreaView, action: VimAction, count: Option<usize>)
    requires
        alike(m, o),
        moves(action),
    ensures
        alike(acted(m, action, count).0, acted(o, action, count).0),
        acted(m, action, count).1 == acted(o, action, count).1,
{
    reveal(acted);
}

proof fn lemma_deleted_alike(m: AreaView, o: AreaView)
    requires
        alike(m, o),
    ensures
        alike(deleted_backward(m), deleted_backward(o)),
        alike(deleted_forward(m), deleted_forward(o)),
{
    reveal(raw_edit);
}

proof fn lemma_line_killed_alike(m: AreaView, o: AreaView)
    requires
        alike(m, o),
    ensures
        alike(line_start_killed(m), line_start_killed(o)),
        alike(line_end_killed(m), line_end_killed(o)),
        alike(current_line_killed(m), current_line_killed(o)),
{
    let t = m.buf.text;
    let c = m.buf.cursor;
    let bol = line_start(t, c);
    let eol = line_end(t, c);
    let kind = KillBufferKind::Characterwise;
    lemma_killed_alike(m, o, bol, c, kind);
    lemma_killed_alike(m, o, bol - 1, bol, kind);
    lemma_killed_alike(m, o, c, eol, kind);
    lemma_killed_alike(m, o, eol, eol + 1, kind);
    lemma_killed_alike(m, o, bol, line_end_with_newline(t, bol), kind);
}

proof fn lemma_deletion_alike(m: AreaView, o: AreaView, action: VimAction, count: Option<usize>)
    requires
        alike(m, o),
        deletes(action),
    ensures
        alike(acted(m, action, count).0, acted(o, action, count).0),
        acted(m, action, count).1 == acted(o, action, count).1,
{
    let s = steps_cleared(m);
    let u = steps_cleared(o);
    let t = m.buf.text;
    let es = m.buf.elements;
    let c = m.buf.cursor;
    let kind = KillBufferKind::Characterwise;
    lemma_deletion_done(m, action, count);
    lemma_deletion_done(o, action, count);
    lemma_deleted_alike(s, u);
    lemma_line_killed_alike(s, u);
    lemma_killed_alike(s, u, word_start_before(t, es, c), c, kind);
    lemma_killed_alike(s, u, c, word_end_from(t, es, c), kind);
}

/// An action does the same to text areas that are alike.
pub proof fn lemma_acted_alike(m: AreaView, o: AreaView, action: VimAction, count: Option<usize>)
    requires
        alike(m, o),
    ensures
        alike(acted(m, action, count).0, acted(o, action, count).0),
        acted(m, action, count).1 == acted(o, action, count).1,
{
    let s = steps_cleared(m);
    let u = steps_cleared(o);
    match action {
        VimAction::RestoreReplacedCharacter => {
            lemma_restored_alike(m, o);
            reveal(acted);
        },
        VimAction::Insert(position) => {
            lemma_insert_entered_alike(s, u, position);
            reveal(acted);
        },
        VimAction::Delete(target) => {
            lemma_target_alike(s, u, VimOperator::Delete, target, count);
            reveal(acted);
        },
        VimAction::Change(target) => {
            lemma_target_alike(s, u, VimOperator::Change, target, count);
            reveal(acted);
        },
        VimAction::Replace(ch) => {
            lemma_characters_replaced_alike(s, u, ch, times(count));
            reveal(acted);
        },
        VimAction::PasteAfter => {
            lemma_pasted_alike(s, u, true, times(count));
            reveal(acted);
        },
        VimAction::PasteBefore => {
            lemma_pasted_alike(s, u, false, times(count));
            reveal(acted);
        },
        VimAction::JoinLines => {
            let n: nat = match count {
                Some(n) => if n < 2 {
                    2
                } else {
                    n as nat
                },
                None => 2,
            };
            lemma_lines_joined_alike(s, u, n);
            reveal(acted);
        },
        VimAction::Indent(direction) => {
            lemma_lines_shifted_alike(s, u, direction, times(count));
            reveal(acted);
        },
        _ => {
            if moves(action) {
                lemma_moved_alike(m, o, action, count);
            } else {
                lemma_deletion_alike(m, o, action, count);
            }
        },
    }
}

proof fn lemma_edits_alike(m: AreaView, o: AreaView, edits: Seq<EditView>, i: int)
    requires
        alike(m, o),
    ensures
        alike(edits_applied(m, edits, i).0, edits_applied(o, edits, i).0),
        edits_applied(m, edits, i).1 == edits_applied(o, edits, i).1,
    decreases edits.len() - i,
{
    if 0 <= i < edits.len() {
        assert(alike(edit_applied(m, edits[i]).0, edit_applied(o, edits[i]).0) && edit_applied(
            m,
            edits[i],
        ).1 == edit_applied(o, edits[i]).1) by {
            reveal(edit_applied);
            match edits[i] {
                EditView::Editor { action, count } => {
                    lemma_acted_alike(m, o, action, count);
                },
                EditView::Text(text) => {
                    lemma_inserted_alike(m, o, text);
                },
            }
        }
        lemma_edits_alike(edit_applied(m, edits[i]).0, edit_applied(o, edits[i]).0, edits, i + 1);
    }
}

proof fn lemma_replayed_alike(m: AreaView, o: AreaView, edits: Seq<EditView>, n: nat)
    requires
        alike(m, o),
    ensures
        alike(replayed(m, edits, n), replayed(o, edits, n)),
    decreases n,
{
    if n > 0 {
        lemma_edits_alike(m, o, edits, 0);
        lemma_replayed_alike(
            edits_applied(m, edits, 0).0,
            edits_applied(o, edits, 0).0,
            edits,
            (n - 1) as nat,
        );
    }
}

pub proof fn lemma_finished_alike(m: AreaView, o: AreaView)
    requires
        alike(m, o),
    ensures
        alike(repeat_finished(m), repeat_finished(o)),
{
}

/// `.` carries out the steps of the last change again, one after the other, and then leaves Insert
/// or Replace mode; with a count it does so as often as the count says, unless the change takes the
/// count itself.
pub proof fn law_dot_carries_out_the_change_again(m: AreaView, count: Option<usize>)
    requires
        m.commands.last_change.len() > 0,
    ensures
        ({
            let edits = m.commands.last_change;
            let substituted = count is Some && takes_count(edits);
            let used = if substituted {
                with_count(edits, count->0)
            } else {
                edits
            };
            let n = if count is Some && !substituted {
                count->0 as nat
            } else {
                1
            };
            alike(change_repeated(m, count), repeat_finished(replayed(m, used, n)))
        }),
{
    reveal(change_repeated);
    let edits = m.commands.last_change;
    let substituted = count is Some && takes_count(edits);
    let used = if substituted {
        with_count(edits, count->0)
    } else {
        edits
    };
    let n = if count is Some && !substituted {
        count->0 as nat
    } else {
        1
    };
    let ready = AreaView {
        keys: crate::vim::KeyStateView { pending_keys: Seq::empty(), replaying: true, ..m.keys },
        commands: CommandView { replaying: true, last_change: used, ..m.commands },
        ..m
    };
    lemma_replayed_alike(ready, m, used, n);
    lemma_finished_alike(replayed(ready, used, n), replayed(m, used, n));
}

/// After a command of Normal mode, `.` does what typing the command again does, and `N.` what
/// typing it with the count `N` does.
pub proof fn law_dot_is_the_command_again(
    m: AreaView,
    action: VimAction,
    recorded: Option<usize>,
    count: Option<usize>,
)
    requires
        m.mode == VimMode::Normal,
        action.counted(),
        m.commands.last_change == seq![EditView::Editor { action, count: recorded }],
        ({
            let used = if count is Some {
                count
            } else {
                recorded
            };
            edit_started(m, action, used).0.mode == VimMode::Normal
        }),
    ensures
        ({
            let used = if count is Some {
                count
            } else {
                recorded
            };
            alike(change_repeated(m, count), edit_started(m, action, used).0)
        }),
{
    let used = if count is Some {
        count
    } else {
        recorded
    };
    let edits = if count is Some {
        with_count(m.commands.last_change, count->0)
    } else {
        m.commands.last_change
    };
    let edit = EditView::Editor { action, count: used };
    law_dot_carries_out_the_change_again(m, count);
    assert(edits =~= seq![edit]);
    let ready = change_opened(m, action, used);
    lemma_acted_alike(m, ready, action, used);
    let (after, done) = acted(m, action, used);
    assert(edit_applied(m, edits[0]) == (after, done)) by {
        reveal(edit_applied);
    }
    assert(edits_applied(after, edits, 1) == (after, true));
    assert(edits_applied(m, edits, 0) == (after, done));
    assert(replayed(after, edits, 0) == after);
    assert(replayed(m, edits, 1) == after);
    reveal(edit_started);
}

} // verus!
