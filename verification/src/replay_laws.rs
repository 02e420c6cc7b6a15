//! What a session is recorded as, action by action, and what replaying it does.

use crate::actions::acted;
use crate::buffer::{buffer_ok, edited, edited_elements, elements_ok, lemma_edited_ok, ElementView};
use crate::dot_laws::{
    alike, law_dot_carries_out_the_change_again, lemma_acted_alike, lemma_finished_alike,
    lemma_inserted_alike,
};
use crate::input::{editor_action, key_handled, typed};
use crate::keys::{KeyCode, KeyEvent};
use crate::segment::grapheme_starts;
use crate::session_laws::lemma_session_opens;
use crate::text::spliced;
use crate::textarea::{inserted_at, raw_edit, AreaView};
use crate::typing::{inserted, overtyped, records_typing, text_recorded};
use crate::undo_laws::{
    lemma_deletion_tracks, lemma_moved_tracks, lemma_overtyped_tracks, same_commands,
};
use crate::vim::{with_key, VimMode};
use crate::vim_commands::{
    change_opened, change_repeated, edit_applied, edit_started, edits_applied, insert_acted,
    insert_left, replayed, EditView, VimAction,
};
use vstd::prelude::*;
use vstd::utf8::*;

verus! {

/// The action moves the cursor and leaves the text alone.
pub open spec fn is_move(action: VimAction) -> bool {
    match action {
        VimAction::MoveLeft
        | VimAction::MoveRight
        | VimAction::MoveUp
        | VimAction::MoveDown
        | VimAction::MoveWordLeft
        | VimAction::MoveWordRight => true,
        VimAction::MoveLineStart { .. } => true,
        VimAction::MoveLineEnd { .. } => true,
        _ => false,
    }
}

/// The action deletes text at the cursor.
pub open spec fn is_deletion(action: VimAction) -> bool {
    match action {
        VimAction::DeleteBackward
        | VimAction::DeleteForward
        | VimAction::DeleteBackwardWord
        | VimAction::DeleteForwardWord
        | VimAction::KillLineStart
        | VimAction::KillLine
        | VimAction::KillLineEnd => true,
        _ => false,
    }
}

/// The action is one that is carried out while typing.
pub open spec fn is_typed_action(action: VimAction) -> bool {
    is_move(action) || is_deletion(action) || action is RestoreReplacedCharacter
}

/// What an action carried out while typing leaves alone.
proof fn lemma_typed_action(n: AreaView, action: VimAction)
    requires
        n.mode != VimMode::Normal,
        is_typed_action(action),
    ensures
        ({
            let after = acted(n, action, None).0;
            &&& same_commands(n, after)
            &&& after.mode == n.mode
            &&& after.enabled == n.enabled
        }),
{
    if is_move(action) {
        lemma_moved_tracks(n, action, None);
        assert(acted(n, action, None).0.mode == n.mode) by {
            reveal(acted);
        }
    } else if is_deletion(action) {
        lemma_deletion_tracks(n, action, None);
    } else {
        assert(acted(n, action, None) == crate::typing::restored(n)) by {
            reveal(acted);
        }
        reveal(crate::typing::restored);
        reveal(raw_edit);
    }
}

/// Every action carried out while typing is recorded, cursor moves included; only a deletion that
/// deleted nothing and an action that did nothing are left out.
pub proof fn law_typed_actions_are_recorded(n: AreaView, action: VimAction)
    requires
        records_typing(n),
        is_typed_action(action),
    ensures
        ({
            let (after, done) = insert_acted(n, action);
            let kept = done && (!is_deletion(action) || after.buf.text.len() != n.buf.text.len());
            &&& is_move(action) ==> done
            &&& is_deletion(action) ==> done
            &&& after.buf == acted(n, action, None).0.buf
            &&& after.commands.pending_change == if kept {
                n.commands.pending_change.push(EditView::Editor { action, count: None })
            } else {
                n.commands.pending_change
            }
            &&& after.mode == n.mode
            &&& after.enabled == n.enabled
            &&& after.commands.replaying == n.commands.replaying
            &&& after.commands.last_change == n.commands.last_change
            &&& after.commands.changed == (n.commands.changed || kept && !is_move(action))
        }),
{
    lemma_typed_action(n, action);
    if is_deletion(action) {
        crate::undo_laws::lemma_deletion_done(n, action, None);
    }
    assert(is_move(action) ==> acted(n, action, None).1 && acted(n, action, None).0.buf.text
        == n.buf.text) by {
        if is_move(action) {
            reveal(acted);
        }
    }
    reveal(insert_acted);
}

/// A key that is bound to an action while typing has that action recorded.
pub proof fn law_typed_action_keys_are_recorded(n: AreaView, event: KeyEvent, action: VimAction)
    requires
        records_typing(n),
        event.code != KeyCode::Esc,
        editor_action(event, n.mode == VimMode::Replace) == Some(action),
        is_typed_action(action),
    ensures
        ({
            let after = typed(n, event);
            let kept = insert_acted(n, action).1 && (!is_deletion(action)
                || after.buf.text.len() != n.buf.text.len());
            &&& after.buf == insert_acted(n, action).0.buf
            &&& after.mode == n.mode
            &&& after.commands.pending_change == if kept {
                n.commands.pending_change.push(EditView::Editor { action, count: None })
            } else {
                n.commands.pending_change
            }
        }),
{
    let k = with_key(n, event);
    law_typed_actions_are_recorded(k, action);
    law_typed_actions_are_recorded(n, action);
    assert(alike(k, n));
    lemma_acted_alike(k, n, action, None);
    assert(insert_acted(k, action).1 == insert_acted(n, action).1) by {
        reveal(insert_acted);
    }
    reveal(key_handled);
}

/// A step of a session: text that is typed, or an action that is carried out.
#[verifier::opaque]
pub open spec fn stepped(n: AreaView, step: EditView) -> AreaView {
    match step {
        EditView::Text(text) => inserted(n, text),
        EditView::Editor { action, count } => insert_acted(n, action).0,
    }
}

/// Steps of a session one after the other.
pub open spec fn run(start: AreaView, steps: Seq<EditView>) -> AreaView
    decreases steps.len(),
{
    if steps.len() == 0 {
        start
    } else {
        stepped(run(start, steps.drop_last()), steps.last())
    }
}

/// A step that does something, carried out at `n`: text that is not empty, a cursor move, a
/// deletion that deletes something, or a character that is taken back.
#[verifier::opaque]
pub open spec fn does_something(n: AreaView, step: EditView) -> bool {
    match step {
        EditView::Text(text) => text.len() > 0 && valid_utf8(text),
        EditView::Editor { action, count } => {
            &&& count is None
            &&& is_typed_action(action)
            &&& insert_acted(n, action).1
            &&& is_deletion(action) ==> insert_acted(n, action).0.buf.text.len()
                != n.buf.text.len()
        },
    }
}

/// Every step of a session does something.
pub open spec fn all_do_something(start: AreaView, steps: Seq<EditView>) -> bool {
    forall|i: int|
        0 <= i < steps.len() ==> does_something(run(start, steps.take(i)), #[trigger] steps[i])
}

/// Steps with one more behind them; in Insert mode text joins the text before it.
pub open spec fn noted(mode: VimMode, edits: Seq<EditView>, step: EditView) -> Seq<EditView> {
    match (step, edits.last()) {
        (EditView::Text(text), EditView::Text(before)) if mode == VimMode::Insert => {
            edits.drop_last().push(EditView::Text(before + text))
        },
        _ => edits.push(step),
    }
}

/// A command and the steps after it, in order.
pub open spec fn noted_all(
    mode: VimMode,
    command: EditView,
    steps: Seq<EditView>,
) -> Seq<EditView>
    decreases steps.len(),
{
    if steps.len() == 0 {
        seq![command]
    } else {
        noted(mode, noted_all(mode, command, steps.drop_last()), steps.last())
    }
}

/// Some step types text.
pub open spec fn types_text(steps: Seq<EditView>) -> bool
    decreases steps.len(),
{
    steps.len() > 0 && (steps.last() is Text || types_text(steps.drop_last()))
}

proof fn lemma_noted_all(mode: VimMode, command: EditView, steps: Seq<EditView>)
    requires
        command is Editor,
    ensures
        noted_all(mode, command, steps).len() > 0,
        noted_all(mode, command, steps)[0] == command,
        noted_all(mode, command, steps).last() is Text ==> noted_all(mode, command, steps).len()
            > 1,
    decreases steps.len(),
{
    if steps.len() > 0 {
        lemma_noted_all(mode, command, steps.drop_last());
    }
}

/// The steps but the last one do something, and so does the last one.
proof fn lemma_do_something(start: AreaView, steps: Seq<EditView>)
    requires
        steps.len() > 0,
        all_do_something(start, steps),
    ensures
        all_do_something(start, steps.drop_last()),
        does_something(run(start, steps.drop_last()), steps.last()),
{
    let init = steps.drop_last();
    assert forall|i: int| 0 <= i < init.len() implies does_something(
        run(start, init.take(i)),
        #[trigger] init[i],
    ) by {
        assert(init.take(i) =~= steps.take(i));
        assert(init[i] == steps[i]);
    }
    assert(steps.take(steps.len() - 1) =~= init);
    assert(does_something(run(start, init), steps[steps.len() - 1]));
}

/// What holds while a session is recorded.
proof fn lemma_run_recorded(
    start: AreaView,
    command: EditView,
    steps: Seq<EditView>,
)
    requires
        command is Editor,
        records_typing(start),
        start.commands.pending_change == seq![command],
        all_do_something(start, steps),
    ensures
        ({
            let n = run(start, steps);
            &&& records_typing(n)
            &&& n.mode == start.mode
            &&& n.commands.pending_change == noted_all(start.mode, command, steps)
            &&& n.commands.last_change == start.commands.last_change
            &&& types_text(steps) || start.commands.changed ==> n.commands.changed
        }),
    decreases steps.len(),
{
    if steps.len() > 0 {
        let init = steps.drop_last();
        let last = steps.last();
        lemma_do_something(start, steps);
        lemma_run_recorded(start, command, init);
        lemma_step_recorded(run(start, init), last);
    }
}

/// A step is recorded.
proof fn lemma_step_recorded(n: AreaView, step: EditView)
    requires
        records_typing(n),
        does_something(n, step),
    ensures
        ({
            let after = stepped(n, step);
            &&& records_typing(after)
            &&& after.mode == n.mode
            &&& after.commands.pending_change == noted(n.mode, n.commands.pending_change, step)
            &&& after.commands.last_change == n.commands.last_change
            &&& n.commands.changed || step is Text ==> after.commands.changed
        }),
{
    reveal(stepped);
    reveal(does_something);
    match step {
        EditView::Text(text) => {
            lemma_text_recorded(n, text);
        },
        EditView::Editor { action, count } => {
            law_typed_actions_are_recorded(n, action);
        },
    }
}

/// Replaying a step does what the step did.
proof fn lemma_step_replayed(r: AreaView, s: AreaView, step: EditView)
    requires
        alike(r, s),
        records_typing(s),
        does_something(s, step),
    ensures
        edit_applied(r, step).1,
        alike(edit_applied(r, step).0, stepped(s, step)),
        step is Text ==> step->Text_0.len() > 0 && valid_utf8(step->Text_0),
{
    reveal(stepped);
    reveal(does_something);
    match step {
        EditView::Text(text) => {
            lemma_inserted_alike(r, s, text);
            reveal(edit_applied);
        },
        EditView::Editor { action, count } => {
            lemma_acted_alike(r, s, action, None);
            assert(edit_applied(r, step) == acted(r, action, None)) by {
                reveal(edit_applied);
            }
            assert(alike(insert_acted(s, action).0, acted(s, action, None).0) && insert_acted(
                s,
                action,
            ).1 == acted(s, action, None).1) by {
                reveal(insert_acted);
            }
        },
    }
}

/// In Insert mode replaying two texts is replaying them as one.
proof fn lemma_texts_join(m: AreaView, a: Seq<u8>, b: Seq<u8>)
    requires
        buffer_ok(m.buf),
        m.mode == VimMode::Insert,
        valid_utf8(a),
        a.len() > 0,
        b.len() > 0,
    ensures
        edit_applied(m, EditView::Text(a + b)).1,
        alike(
            edit_applied(m, EditView::Text(a + b)).0,
            edit_applied(edit_applied(m, EditView::Text(a)).0, EditView::Text(b)).0,
        ),
{
    lemma_inserted_twice(m, a, b);
    assert(inserted(m, a).mode == m.mode) by {
        reveal(raw_edit);
    }
    reveal(edit_applied);
}

/// Typed text is recorded.
proof fn lemma_text_recorded(n: AreaView, text: Seq<u8>)
    requires
        records_typing(n),
        text.len() > 0,
    ensures
        ({
            let after = inserted(n, text);
            &&& records_typing(after)
            &&& after.mode == n.mode
            &&& after.commands.pending_change == noted(
                n.mode,
                n.commands.pending_change,
                EditView::Text(text),
            )
            &&& after.commands.last_change == n.commands.last_change
            &&& after.commands.changed
        }),
{
    reveal(raw_edit);
    let over = if n.enabled && n.mode == VimMode::Replace {
        overtyped(n, text)
    } else {
        inserted_at(n, n.buf.cursor, text)
    };
    lemma_overtyped_tracks(n, text, grapheme_starts(decode_utf8(text)), 0);
    assert(same_commands(n, over));
    assert(over.mode == n.mode && over.enabled == n.enabled);
    assert(text_recorded(over, text).commands.pending_change =~= noted(
        n.mode,
        n.commands.pending_change,
        EditView::Text(text),
    ));
}

/// A session is recorded step by step: a command that enters Insert or Replace mode, and then the
/// typed texts, the cursor moves and the deletions, all in the order in which they came, are the
/// last change once the mode is left.
pub proof fn law_sessions_are_recorded_in_order(
    m: AreaView,
    action: VimAction,
    count: Option<usize>,
    steps: Seq<EditView>,
)
    requires
        m.enabled,
        m.mode == VimMode::Normal,
        !m.commands.replaying,
        edit_started(m, action, count).1,
        edit_started(m, action, count).0.mode != VimMode::Normal,
        all_do_something(edit_started(m, action, count).0, steps),
        types_text(steps),
    ensures
        ({
            let start = edit_started(m, action, count).0;
            let end = insert_left(run(start, steps));
            &&& end.mode == VimMode::Normal
            &&& end.commands.last_change == noted_all(
                start.mode,
                EditView::Editor { action, count },
                steps,
            )
        }),
{
    let start = edit_started(m, action, count).0;
    let command = EditView::Editor { action, count };
    lemma_session_opens(m, action, count);
    assert(crate::session_laws::session_edits(action, count, start.mode, Seq::empty()) =~= seq![
        command,
    ]);
    lemma_run_recorded(start, command, steps);
}

/// Elements moved by two insertions at one place are moved by both at once.
proof fn lemma_elements_twice(t: Seq<u8>, es: Seq<ElementView>, c: int, a: int, b: int)
    requires
        elements_ok(t, es),
        0 <= a,
        0 <= b,
    ensures
        edited_elements(edited_elements(es, c, c, a), c + a, c + a, b) == edited_elements(
            es,
            c,
            c,
            a + b,
        ),
    decreases es.len(),
{
    if es.len() > 0 {
        let init = es.drop_last();
        assert(es.last() == es[es.len() - 1]);
        assert forall|i: int| 0 <= i < init.len() implies #[trigger] init[i] == es[i] by {}
        lemma_elements_twice(t, init, c, a, b);
        let rest = edited_elements(init, c, c, a);
        let all = edited_elements(es, c, c, a);
        assert(all == rest.push(all.last()));
        assert(all.drop_last() =~= rest);
    }
}

/// In Insert mode two texts typed one after the other are one text typed.
proof fn lemma_inserted_twice(m: AreaView, a: Seq<u8>, b: Seq<u8>)
    requires
        buffer_ok(m.buf),
        m.mode == VimMode::Insert,
        valid_utf8(a),
        a.len() > 0,
        b.len() > 0,
    ensures
        alike(inserted(inserted(m, a), b), inserted(m, a + b)),
{
    reveal(raw_edit);
    let t = m.buf.text;
    let c = m.buf.cursor;
    let n = a.len() as int;
    let once = edited(m.buf, c, c, a);
    lemma_edited_ok(m.buf, c, c, a);
    assert(inserted(m, a).buf == once);
    assert(once.cursor == c + n);
    let twice = edited(once, c + n, c + n, b);
    assert(inserted(inserted(m, a), b).buf == twice);
    lemma_elements_twice(t, m.buf.elements, c, n, b.len() as int);
    assert(twice.text =~= spliced(t, c, c, a + b));
    assert(twice =~= edited(m.buf, c, c, a + b));
}

/// One more step behind steps that were all carried out is carried out after them.
proof fn lemma_applied_push(m: AreaView, edits: Seq<EditView>, step: EditView, i: int)
    requires
        0 <= i <= edits.len(),
        edits_applied(m, edits, i).1,
    ensures
        edits_applied(m, edits.push(step), i) == edit_applied(edits_applied(m, edits, i).0, step),
    decreases edits.len() - i,
{
    let more = edits.push(step);
    if i < edits.len() {
        assert(more[i] == edits[i]);
        lemma_applied_push(edit_applied(m, edits[i]).0, edits, step, i + 1);
    } else {
        assert(more[i] == step);
        let (after, done) = edit_applied(m, step);
        assert(edits_applied(after, more, i + 1) == (after, true));
    }
}

/// Every state of a session is in order.
pub open spec fn all_in_order(start: AreaView, steps: Seq<EditView>) -> bool {
    forall|i: int| 0 <= i <= steps.len() ==> buffer_ok((#[trigger] run(start, steps.take(i))).buf)
}

/// Replaying the recorded steps leads where the session led.
#[verifier::rlimit(40)]
proof fn lemma_steps_replayed(
    o: AreaView,
    start: AreaView,
    command: EditView,
    steps: Seq<EditView>,
)
    requires
        command is Editor,
        records_typing(start),
        start.commands.pending_change == seq![command],
        edit_applied(o, command).1,
        alike(edit_applied(o, command).0, start),
        all_do_something(start, steps),
        all_in_order(start, steps),
    ensures
        ({
            let edits = noted_all(start.mode, command, steps);
            let (after, done) = edits_applied(o, edits, 0);
            &&& done
            &&& alike(after, run(start, steps))
            &&& start.mode == VimMode::Insert && edits.last() is Text ==> {
                let (before, also) = edits_applied(o, edits.drop_last(), 0);
                &&& also
                &&& buffer_ok(before.buf)
                &&& before.mode == VimMode::Insert
                &&& valid_utf8(edits.last()->Text_0)
                &&& edits.last()->Text_0.len() > 0
            }
        }),
    decreases steps.len(),
{
    let edits = noted_all(start.mode, command, steps);
    if steps.len() == 0 {
        assert(edits_applied(edit_applied(o, command).0, edits, 1).1);
        assert(edits[0] == command);
    } else {
        let init = steps.drop_last();
        let last = steps.last();
        lemma_do_something(start, steps);
        assert forall|i: int| 0 <= i <= init.len() implies buffer_ok(
            (#[trigger] run(start, init.take(i))).buf,
        ) by {
            assert(init.take(i) =~= steps.take(i));
            assert(buffer_ok(run(start, steps.take(i)).buf));
        }
        lemma_steps_replayed(o, start, command, init);
        lemma_run_recorded(start, command, init);
        lemma_noted_all(start.mode, command, init);
        assert(steps.take(steps.len() - 1) =~= init);
        assert(buffer_ok(run(start, steps.take(steps.len() - 1)).buf));
        let before = noted_all(start.mode, command, init);
        let (r, _) = edits_applied(o, before, 0);
        lemma_step_replayed(r, run(start, init), last);
        if start.mode == VimMode::Insert && before.last() is Text && last is Text {
            let a = before.last()->Text_0;
            let b = last->Text_0;
            let base = before.drop_last();
            let (r0, _) = edits_applied(o, base, 0);
            assert(before =~= base.push(EditView::Text(a)));
            lemma_applied_push(o, base, EditView::Text(a), 0);
            lemma_applied_push(o, base, EditView::Text(a + b), 0);
            lemma_texts_join(r0, a, b);
            valid_utf8_concat(a, b);
            assert(edits.drop_last() =~= base);
            assert(edits =~= base.push(EditView::Text(a + b)));
        } else {
            lemma_applied_push(o, before, last, 0);
            assert(edits =~= before.push(last));
            assert(edits.drop_last() =~= before);
        }
    }
}

/// `.` does what typing the session again does: the command, and then all texts, cursor moves and
/// deletions in their order, and leaving the mode.
pub proof fn law_dot_is_the_session_again(
    o: AreaView,
    action: VimAction,
    count: Option<usize>,
    steps: Seq<EditView>,
)
    requires
        o.enabled,
        o.mode == VimMode::Normal,
        !o.commands.replaying,
        edit_started(o, action, count).1,
        edit_started(o, action, count).0.mode != VimMode::Normal,
        all_do_something(edit_started(o, action, count).0, steps),
        all_in_order(edit_started(o, action, count).0, steps),
        o.commands.last_change == noted_all(
            edit_started(o, action, count).0.mode,
            EditView::Editor { action, count },
            steps,
        ),
    ensures
        alike(
            change_repeated(o, None),
            insert_left(run(edit_started(o, action, count).0, steps)),
        ),
{
    let start = edit_started(o, action, count).0;
    let command = EditView::Editor { action, count };
    let edits = o.commands.last_change;
    lemma_session_opens(o, action, count);
    assert(crate::session_laws::session_edits(action, count, start.mode, Seq::empty()) =~= seq![
        command,
    ]);
    let ready = change_opened(o, action, count);
    assert(alike(o, ready));
    lemma_acted_alike(o, ready, action, count);
    assert(edit_applied(o, command).1 && alike(edit_applied(o, command).0, start)) by {
        reveal(edit_applied);
        reveal(edit_started);
    }
    lemma_steps_replayed(o, start, command, steps);
    lemma_run_recorded(start, command, steps);
    lemma_noted_all(start.mode, command, steps);
    law_dot_carries_out_the_change_again(o, None);
    let (after, done) = edits_applied(o, edits, 0);
    assert(replayed(after, edits, 0) == after);
    assert(replayed(o, edits, 1) == after);
    lemma_finished_alike(after, run(start, steps));
}

} // verus!
