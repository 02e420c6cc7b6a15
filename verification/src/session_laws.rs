//! What is recorded of a session in Insert or Replace mode.

use crate::actions::acted;
use crate::input::{all_typed, editor_action, key_handled, typed};
use crate::keys::{command_char, KeyCode, KeyEvent};
use crate::segment::grapheme_starts;
use crate::textarea::{inserted_at, raw_edit, AreaView};
use crate::typing::{inserted, overtyped, records_typing, restored, text_recorded};
use crate::undo_laws::{
    lemma_acted_tracks, lemma_overtyped_tracks, lemma_session_start, same_commands,
};
use crate::vim::{with_key, VimMode};
use crate::vim_commands::{change_opened, edit_started, insert_left, EditView, VimAction};
use vstd::prelude::*;
use vstd::utf8::*;

verus! {

/// Texts typed one after the other.
pub open spec fn all_inserted(m: AreaView, texts: Seq<Seq<u8>>) -> AreaView
    decreases texts.len(),
{
    if texts.len() == 0 {
        m
    } else {
        inserted(all_inserted(m, texts.drop_last()), texts.last())
    }
}

/// Texts put together.
pub open spec fn put_together(texts: Seq<Seq<u8>>) -> Seq<u8>
    decreases texts.len(),
{
    if texts.len() == 0 {
        Seq::empty()
    } else {
        put_together(texts.drop_last()) + texts.last()
    }
}

/// A command and the texts typed after it, as they are recorded: as one text in Insert mode, one by
/// one in Replace mode.
pub open spec fn session_edits(
    action: VimAction,
    count: Option<usize>,
    mode: VimMode,
    texts: Seq<Seq<u8>>,
) -> Seq<EditView> {
    let command = seq![EditView::Editor { action, count }];
    if mode == VimMode::Insert {
        if texts.len() == 0 {
            command
        } else {
            command.push(EditView::Text(put_together(texts)))
        }
    } else {
        command + texts.map_values(|text: Seq<u8>| EditView::Text(text))
    }
}

/// The session that a command started is under way: nothing but the command and the texts typed
/// since is recorded.
pub open spec fn in_session(
    start: AreaView,
    n: AreaView,
    action: VimAction,
    count: Option<usize>,
    texts: Seq<Seq<u8>>,
) -> bool {
    &&& records_typing(n)
    &&& n.mode == start.mode
    &&& n.commands.pending_change == session_edits(action, count, start.mode, texts)
    &&& n.commands.changed == (texts.len() > 0 || start.commands.changed)
    &&& n.commands.last_change == start.commands.last_change
}

/// A command that enters Insert or Replace mode starts a session.
pub proof fn lemma_session_opens(m: AreaView, action: VimAction, count: Option<usize>)
    requires
        m.enabled,
        m.mode == VimMode::Normal,
        !m.commands.replaying,
        edit_started(m, action, count).1,
        edit_started(m, action, count).0.mode != VimMode::Normal,
    ensures
        ({
            let start = edit_started(m, action, count).0;
            &&& in_session(start, start, action, count, Seq::empty())
            &&& start.commands.last_change == m.commands.last_change
            &&& start.commands.changed == (start.buf.text.len() != m.buf.text.len()
                || action is Replace || action is JoinLines || action is Indent)
        }),
{
    let ready = change_opened(m, action, count);
    let start = edit_started(m, action, count).0;
    lemma_acted_tracks(ready, action, count);
    assert(!(action is RestoreReplacedCharacter)) by {
        reveal(edit_started);
        reveal(acted);
        reveal(restored);
        reveal(raw_edit);
    }
    lemma_session_start(m, action, count);
    reveal(edit_started);
    assert(session_edits(action, count, start.mode, Seq::empty()) =~= seq![
        EditView::Editor { action, count },
    ]);
}

/// A text typed in a session is recorded.
proof fn lemma_session_types(
    start: AreaView,
    n: AreaView,
    action: VimAction,
    count: Option<usize>,
    texts: Seq<Seq<u8>>,
    text: Seq<u8>,
)
    requires
        in_session(start, n, action, count, texts),
        text.len() > 0,
    ensures
        in_session(start, inserted(n, text), action, count, texts.push(text)),
{
    reveal(raw_edit);
    let over = if n.enabled && n.mode == VimMode::Replace {
        overtyped(n, text)
    } else {
        inserted_at(n, n.buf.cursor, text)
    };
    lemma_overtyped_tracks(n, text, grapheme_starts(decode_utf8(text)), 0);
    assert(same_commands(n, over));
    assert(over.mode == n.mode && over.enabled == n.enabled);
    let edits = n.commands.pending_change;
    let all = texts.push(text);
    assert(all.drop_last() =~= texts);
    let recorded = text_recorded(over, text).commands.pending_change;
    if n.mode == VimMode::Insert {
        if texts.len() == 0 {
            assert(put_together(all) =~= text) by {
                assert(put_together(texts) =~= Seq::empty());
            }
            assert(recorded =~= session_edits(action, count, n.mode, all));
        } else {
            assert(edits.last() == EditView::Text(put_together(texts)));
            assert(recorded =~= session_edits(action, count, n.mode, all));
        }
    } else {
        assert(recorded =~= session_edits(action, count, n.mode, all));
    }
}

/// Leaving the session makes what is recorded the last change, if anything changed.
proof fn lemma_session_closes(
    start: AreaView,
    n: AreaView,
    action: VimAction,
    count: Option<usize>,
    texts: Seq<Seq<u8>>,
)
    requires
        in_session(start, n, action, count, texts),
    ensures
        insert_left(n).mode == VimMode::Normal,
        insert_left(n).commands.last_change == if texts.len() > 0 || start.commands.changed {
            session_edits(action, count, start.mode, texts)
        } else {
            start.commands.last_change
        },
{
}

proof fn lemma_session_types_all(
    start: AreaView,
    action: VimAction,
    count: Option<usize>,
    texts: Seq<Seq<u8>>,
)
    requires
        in_session(start, start, action, count, Seq::empty()),
        forall|i: int| 0 <= i < texts.len() ==> (#[trigger] texts[i]).len() > 0,
    ensures
        in_session(start, all_inserted(start, texts), action, count, texts),
    decreases texts.len(),
{
    if texts.len() == 0 {
        assert(texts =~= Seq::empty());
    } else {
        let init = texts.drop_last();
        assert forall|i: int| 0 <= i < init.len() implies (#[trigger] init[i]).len() > 0 by {
            assert(init[i] == texts[i]);
        }
        lemma_session_types_all(start, action, count, init);
        assert(texts.last() == texts[texts.len() - 1]);
        lemma_session_types(
            start,
            all_inserted(start, init),
            action,
            count,
            init,
            texts.last(),
        );
        assert(init.push(texts.last()) =~= texts);
    }
}

/// A command that enters Insert or Replace mode, text typed there and leaving the mode make the
/// command and the text the last change. Without text the command alone becomes the last change,
/// if it changed the text.
pub proof fn law_session_is_recorded(
    m: AreaView,
    action: VimAction,
    count: Option<usize>,
    texts: Seq<Seq<u8>>,
)
    requires
        m.enabled,
        m.mode == VimMode::Normal,
        !m.commands.replaying,
        edit_started(m, action, count).1,
        edit_started(m, action, count).0.mode != VimMode::Normal,
        forall|i: int| 0 <= i < texts.len() ==> (#[trigger] texts[i]).len() > 0,
    ensures
        ({
            let start = edit_started(m, action, count).0;
            let end = insert_left(all_inserted(start, texts));
            let changed = start.buf.text.len() != m.buf.text.len() || action is Replace
                || action is JoinLines || action is Indent;
            &&& end.mode == VimMode::Normal
            &&& end.commands.last_change == if texts.len() > 0 || changed {
                session_edits(action, count, start.mode, texts)
            } else {
                m.commands.last_change
            }
        }),
{
    let start = edit_started(m, action, count).0;
    lemma_session_opens(m, action, count);
    lemma_session_types_all(start, action, count, texts);
    lemma_session_closes(start, all_inserted(start, texts), action, count, texts);
}

/// The key types a character: it is no editing key.
pub open spec fn types_character(event: KeyEvent) -> bool {
    &&& event.code != KeyCode::Esc
    &&& editor_action(event, true) is None
    &&& command_char(event) is Some
}

/// The characters that keys type, each as a text.
pub open spec fn texts_of(events: Seq<KeyEvent>) -> Seq<Seq<u8>> {
    events.map_values(|event: KeyEvent| encode_scalar(command_char(event)->0 as u32))
}

/// A key that types a character records it.
proof fn lemma_session_key(
    start: AreaView,
    n: AreaView,
    action: VimAction,
    count: Option<usize>,
    texts: Seq<Seq<u8>>,
    event: KeyEvent,
)
    requires
        in_session(start, n, action, count, texts),
        types_character(event),
    ensures
        in_session(
            start,
            typed(n, event),
            action,
            count,
            texts.push(encode_scalar(command_char(event)->0 as u32)),
        ),
{
    reveal(key_handled);
    let text = encode_scalar(command_char(event)->0 as u32);
    let k = with_key(n, event);
    assert(in_session(start, k, action, count, texts));
    assert(editor_action(event, n.mode == VimMode::Replace) is None);
    lemma_session_types(start, k, action, count, texts, text);
}

proof fn lemma_session_keys(
    start: AreaView,
    n: AreaView,
    action: VimAction,
    count: Option<usize>,
    events: Seq<KeyEvent>,
    i: int,
)
    requires
        0 <= i <= events.len(),
        in_session(start, n, action, count, texts_of(events.take(i))),
        forall|k: int| 0 <= k < events.len() ==> types_character(#[trigger] events[k]),
    ensures
        in_session(start, all_typed(n, events, i), action, count, texts_of(events)),
    decreases events.len() - i,
{
    if i < events.len() {
        lemma_session_key(start, n, action, count, texts_of(events.take(i)), events[i]);
        assert(texts_of(events.take(i + 1)) =~= texts_of(events.take(i)).push(
            encode_scalar(command_char(events[i])->0 as u32),
        ));
        lemma_session_keys(start, typed(n, events[i]), action, count, events, i + 1);
    } else {
        assert(events.take(i) =~= events);
    }
}

/// The same of keys: a command that enters Insert or Replace mode, keys that type characters and
/// Escape make the command and the characters the last change.
pub proof fn law_typed_session_is_recorded(
    m: AreaView,
    action: VimAction,
    count: Option<usize>,
    events: Seq<KeyEvent>,
    escape: KeyEvent,
)
    requires
        m.enabled,
        m.mode == VimMode::Normal,
        !m.commands.replaying,
        edit_started(m, action, count).1,
        edit_started(m, action, count).0.mode != VimMode::Normal,
        forall|k: int| 0 <= k < events.len() ==> types_character(#[trigger] events[k]),
        events.len() > 0,
        escape.code == KeyCode::Esc,
    ensures
        ({
            let start = edit_started(m, action, count).0;
            let end = typed(all_typed(start, events, 0), escape);
            &&& end.mode == VimMode::Normal
            &&& end.commands.last_change == session_edits(
                action,
                count,
                start.mode,
                texts_of(events),
            )
        }),
{
    reveal(key_handled);
    let start = edit_started(m, action, count).0;
    lemma_session_opens(m, action, count);
    assert(texts_of(events.take(0)) =~= Seq::empty());
    lemma_session_keys(start, start, action, count, events, 0);
    let n = all_typed(start, events, 0);
    let k = with_key(n, escape);
    assert(in_session(start, k, action, count, texts_of(events)));
    lemma_session_closes(start, k, action, count, texts_of(events));
}

} // verus!
