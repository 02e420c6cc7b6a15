//! What finds, motions and text objects aim at, and what the keys of Insert mode do.

use crate::actions::{acted, times};
use crate::buffer::{buffer_ok, covered, inside, next_atomic, prev_atomic, range_ok, ElementView};
use crate::char_laws::lemma_operated_between;
use crate::finds::{hit, hits, picked, places};
use crate::input::{editor_key, object_key};
use crate::keys::{KeyCode, KeyEvent, KeyModifiers};
use crate::lines::{line_end, line_start};
use crate::operators::{hop, motion_applied, reach};
use crate::text::is_pos;
use crate::text_objects::{object_for, object_range};
use crate::textarea::{lemma_cursor_there, AreaView};
use crate::typing::inserted;
use crate::vim::{
    key_press, VimFindKind, VimMode, VimMotion, VimOperator, VimTextObject, VimTextObjectScope,
};
use crate::vim_commands::{
    edit_started, find_repeated, find_run, insert_acted, steps_cleared, swapped, takes_count,
    with_count, CommandView, EditView, VimAction, VimEditTarget,
};
use vstd::prelude::*;
use vstd::utf8::*;

verus! {

/// The hits are the graphemes with the character, each one once and from left to right.
pub proof fn law_hits_are_all_in_order(
    t: Seq<u8>,
    es: Seq<ElementView>,
    target: char,
    a: int,
    starts: Seq<usize>,
)
    ensures
        ({
            let found = hits(t, es, target, a, starts);
            &&& forall|i: int, j: int| 0 <= i < j < found.len() ==> #[trigger] found[i]
                < #[trigger] found[j]
            &&& forall|k: int|
                0 <= k < found.len() ==> 0 <= #[trigger] found[k] < starts.len() && hit(
                    t,
                    es,
                    target,
                    a + starts[found[k]],
                )
            &&& forall|i: int|
                0 <= i < starts.len() && hit(t, es, target, a + #[trigger] starts[i])
                    ==> found.contains(i)
        }),
    decreases starts.len(),
{
    if starts.len() > 0 {
        let init = starts.drop_last();
        law_hits_are_all_in_order(t, es, target, a, init);
        let before = hits(t, es, target, a, init);
        let found = hits(t, es, target, a, starts);
        assert forall|i: int|
            0 <= i < starts.len() && hit(
                t,
                es,
                target,
                a + #[trigger] starts[i],
            ) implies found.contains(i) by {
            if i < init.len() {
                assert(init[i] == starts[i]);
                assert(before.contains(i));
                let k = before.index_of(i);
                assert(found[k] == i);
            } else {
                assert(found.last() == i);
            }
        }
    }
}

/// The places in plain text are all those with the byte, outside elements, from left to right.
pub proof fn law_places_are_all_in_order(
    t: Seq<u8>,
    es: Seq<ElementView>,
    target: char,
    a: int,
    z: int,
)
    ensures
        ({
            let found = places(t, es, target, a, z);
            &&& forall|i: int, j: int| 0 <= i < j < found.len() ==> #[trigger] found[i]
                < #[trigger] found[j]
            &&& forall|k: int|
                0 <= k < found.len() ==> a <= #[trigger] found[k] < z && t[found[k]] as u32
                    == target as u32 && !covered(es, found[k])
            &&& forall|p: int|
                a <= p < z && #[trigger] t[p] as u32 == target as u32 && !covered(es, p)
                    ==> found.contains(p)
        }),
    decreases z - a,
{
    if a < z {
        law_places_are_all_in_order(t, es, target, a, z - 1);
        let before = places(t, es, target, a, z - 1);
        let found = places(t, es, target, a, z);
        assert forall|p: int|
            a <= p < z && #[trigger] t[p] as u32 == target as u32 && !covered(
                es,
                p,
            ) implies found.contains(p) by {
            if p < z - 1 {
                assert(before.contains(p));
                let k = before.index_of(p);
                assert(found[k] == p);
            } else {
                assert(found.last() == p);
            }
        }
    }
}

/// The picked grapheme is the one with so many others before it, from the side that is asked for.
pub proof fn law_picks_count_from_the_side(
    a: int,
    z: int,
    starts: Seq<usize>,
    found: Seq<int>,
    count: nat,
    forward: bool,
)
    ensures
        picked(a, z, starts, found, count, forward) is Some <==> 1 <= count <= found.len(),
        forall|k: int|
            0 <= k < found.len() && count == (if forward {
                k + 1
            } else {
                found.len() - k
            }) ==> (picked(a, z, starts, found, count, forward)->0).0 == a
                + #[trigger] starts[found[k]],
{
}

/// The last find again: the same kind, or with `,` the other direction; a till goes one further if
/// its character is next to the cursor. Without a last find nothing happens.
pub proof fn law_finds_are_repeated(
    m: AreaView,
    reverse: bool,
    operator: Option<VimOperator>,
    count: usize,
)
    requires
        count < usize::MAX,
    ensures
        m.commands.last_find is None ==> find_repeated(m, reverse, operator, count) == m,
        m.commands.last_find matches Some(find) ==> {
            let t = m.buf.text;
            let es = m.buf.elements;
            let c = m.buf.cursor;
            let kind = match (find.kind, reverse) {
                (VimFindKind::Forward, true) => VimFindKind::Backward,
                (VimFindKind::Backward, true) => VimFindKind::Forward,
                (VimFindKind::TillForward, true) => VimFindKind::TillBackward,
                (VimFindKind::TillBackward, true) => VimFindKind::TillForward,
                (kind, false) => kind,
            };
            let next = next_atomic(t, es, c);
            let prev = prev_atomic(t, es, c);
            let further = {
                ||| kind is TillForward && next < line_end(t, c) && hit(t, es, find.target, next)
                ||| kind is TillBackward && line_start(t, c) <= prev && line_start(t, c) < c && hit(
                    t,
                    es,
                    find.target,
                    prev,
                )
            };
            find_repeated(m, reverse, operator, count) == find_run(
                m,
                kind,
                operator,
                find.target,
                Some(
                    if further {
                        (count + 1) as usize
                    } else {
                        count
                    },
                ),
            )
        },
{
}

/// `h` and `l` step one character and stay on the line: `l` stops on its last character. Under an
/// operator they reach up to the ends of the line.
pub proof fn law_side_steps_stay_on_the_line(t: Seq<u8>, es: Seq<ElementView>, p: int)
    ensures
        ({
            let prev = prev_atomic(t, es, p);
            let next = next_atomic(t, es, p);
            let a = line_start(t, p);
            let z = line_end(t, p);
            &&& prev >= a ==> hop(t, es, VimMotion::Left, p) == prev && reach(
                t,
                es,
                VimMotion::Left,
                p,
            ) == prev
            &&& prev < a ==> hop(t, es, VimMotion::Left, p) == a && reach(t, es, VimMotion::Left, p)
                == a
            &&& next < z ==> hop(t, es, VimMotion::Right, p) == next && reach(
                t,
                es,
                VimMotion::Right,
                p,
            ) == next
            &&& next >= z ==> hop(t, es, VimMotion::Right, p) == p && reach(
                t,
                es,
                VimMotion::Right,
                p,
            ) == z
        }),
{
}

/// One step of a motion to the side or over words moves the cursor there and keeps the text.
pub proof fn law_motions_move_the_cursor(m: AreaView, motion: VimMotion)
    requires
        !(motion is Up || motion is Down || motion is LineStart || motion is FirstNonBlank
            || motion is LineEnd || motion is Find),
    ensures
        ({
            let p = hop(m.buf.text, m.buf.elements, motion, m.buf.cursor);
            let after = motion_applied(m, motion, 1);
            &&& is_pos(m.buf.text, p) && !inside(m.buf.elements, p) ==> after.buf.cursor == p
            &&& after.buf.text == m.buf.text
            &&& after.buf.elements == m.buf.elements
            &&& after.register == m.register
            &&& after.mode == m.mode
        }),
{
    let p = hop(m.buf.text, m.buf.elements, motion, m.buf.cursor);
    reveal_with_fuel(crate::operators::hops, 2);
    if is_pos(m.buf.text, p) && !inside(m.buf.elements, p) {
        lemma_cursor_there(m, p);
    }
}

/// A delete or change of a text object takes just that text, and nothing is done where there is no
/// such object. A count makes no difference.
pub proof fn law_objects_are_taken(
    m: AreaView,
    object: VimTextObject,
    scope: VimTextObjectScope,
    count: Option<usize>,
)
    requires
        buffer_ok(m.buf),
        m.mode == VimMode::Normal,
    ensures
        ({
            let t = m.buf.text;
            let target = VimEditTarget::TextObject { scope, object };
            let deleted = acted(m, VimAction::Delete(target), count);
            let changed = acted(m, VimAction::Change(target), count);
            match object_range(t, m.buf.elements, m.buf.cursor, object, scope) {
                None => {
                    &&& !deleted.1 && deleted.0.buf == m.buf && deleted.0.mode == m.mode
                    &&& !changed.1 && changed.0.buf == m.buf && changed.0.mode == m.mode
                },
                Some((a, z)) => range_ok(m.buf, a, z) ==> {
                    let rest = t.subrange(0, a) + t.subrange(z, t.len() as int);
                    &&& deleted.0.buf.text == rest && changed.0.buf.text == rest
                    &&& deleted.0.buf.cursor == a && changed.0.buf.cursor == a
                    &&& deleted.0.mode == VimMode::Normal && changed.0.mode == VimMode::Insert
                    &&& deleted.1 == (a < z) && changed.1
                    &&& a < z ==> deleted.0.register == t.subrange(a, z) && changed.0.register
                        == t.subrange(a, z)
                },
            }
        }),
{
    let t = m.buf.text;
    let s = steps_cleared(m);
    let target = VimEditTarget::TextObject { scope, object };
    reveal(acted);
    reveal(crate::actions::target_acted);
    match object_range(t, m.buf.elements, m.buf.cursor, object, scope) {
        Some((a, z)) => {
            if range_ok(m.buf, a, z) {
                lemma_operated_between(s, VimOperator::Delete, a, z);
                lemma_operated_between(s, VimOperator::Change, a, z);
            }
        },
        None => {},
    }
}

/// The key of a text object behind an operator: a delete or change of it that can be repeated, or a
/// yank that keeps the text. A key of no text object ends the command.
pub proof fn law_object_keys_take_objects(
    m: AreaView,
    scope: VimTextObjectScope,
    count: Option<usize>,
    event: KeyEvent,
)
    requires
        buffer_ok(m.buf),
    ensures
        match object_for(m.object_keymap, event) {
            None => forall|operator: VimOperator| #[trigger]
                object_key(m, operator, scope, count, event) == m,
            Some(object) => {
                let target = VimEditTarget::TextObject { scope, object };
                let yanked = object_key(m, VimOperator::Yank, scope, count, event);
                &&& object_key(m, VimOperator::Delete, scope, count, event) == edit_started(
                    m,
                    VimAction::Delete(target),
                    count,
                ).0
                &&& object_key(m, VimOperator::Change, scope, count, event) == edit_started(
                    m,
                    VimAction::Change(target),
                    count,
                ).0
                &&& yanked.buf == m.buf
                &&& match object_range(m.buf.text, m.buf.elements, m.buf.cursor, object, scope) {
                    None => yanked == m,
                    Some((a, z)) => range_ok(m.buf, a, z) && a < z ==> yanked.register
                        == m.buf.text.subrange(a, z),
                }
            },
        },
{
    match object_for(m.object_keymap, event) {
        None => {},
        Some(object) => match object_range(
            m.buf.text,
            m.buf.elements,
            m.buf.cursor,
            object,
            scope,
        ) {
            None => {},
            Some((a, z)) => {
                if range_ok(m.buf, a, z) {
                    lemma_operated_between(m, VimOperator::Yank, a, z);
                }
            },
        },
    }
}

/// A key without modifiers.
pub open spec fn bare(code: KeyCode) -> KeyEvent {
    KeyEvent {
        code,
        modifiers: KeyModifiers { shift: false, control: false, alt: false, alt_gr: false },
    }
}

/// A character with Control.
pub open spec fn with_control(ch: char) -> KeyEvent {
    KeyEvent {
        code: KeyCode::Char(ch),
        modifiers: KeyModifiers { shift: false, control: true, alt: false, alt_gr: false },
    }
}

/// A character with Alt.
pub open spec fn with_alt(ch: char) -> KeyEvent {
    KeyEvent {
        code: KeyCode::Char(ch),
        modifiers: KeyModifiers { shift: false, control: false, alt: true, alt_gr: false },
    }
}

/// Each editing key of Insert mode has its action, and a character is typed.
pub proof fn law_editing_keys(m: AreaView, ch: char)
    requires
        m.mode == VimMode::Insert,
    ensures
        editor_key(m, key_press(ch)) == inserted(m, encode_scalar(ch as u32)),
        editor_key(m, bare(KeyCode::Enter)) == inserted(m, encode_scalar('\n' as u32)),
        editor_key(m, bare(KeyCode::Backspace)) == insert_acted(m, VimAction::DeleteBackward).0,
        editor_key(m, bare(KeyCode::Delete)) == insert_acted(m, VimAction::DeleteForward).0,
        editor_key(m, bare(KeyCode::Left)) == insert_acted(m, VimAction::MoveLeft).0,
        editor_key(m, bare(KeyCode::Right)) == insert_acted(m, VimAction::MoveRight).0,
        editor_key(m, bare(KeyCode::Up)) == insert_acted(m, VimAction::MoveUp).0,
        editor_key(m, bare(KeyCode::Down)) == insert_acted(m, VimAction::MoveDown).0,
        editor_key(m, bare(KeyCode::Home)) == insert_acted(
            m,
            VimAction::MoveLineStart { move_up_at_bol: false },
        ).0,
        editor_key(m, bare(KeyCode::End)) == insert_acted(
            m,
            VimAction::MoveLineEnd { move_down_at_eol: false },
        ).0,
        editor_key(m, with_control('a')) == insert_acted(
            m,
            VimAction::MoveLineStart { move_up_at_bol: true },
        ).0,
        editor_key(m, with_control('e')) == insert_acted(
            m,
            VimAction::MoveLineEnd { move_down_at_eol: true },
        ).0,
        editor_key(m, with_control('w')) == insert_acted(m, VimAction::DeleteBackwardWord).0,
        editor_key(m, with_control('u')) == insert_acted(m, VimAction::KillLineStart).0,
        editor_key(m, with_control('k')) == insert_acted(m, VimAction::KillLineEnd).0,
        editor_key(m, with_alt('b')) == insert_acted(m, VimAction::MoveWordLeft).0,
        editor_key(m, with_alt('f')) == insert_acted(m, VimAction::MoveWordRight).0,
        editor_key(m, with_alt('d')) == insert_acted(m, VimAction::DeleteForwardWord).0,
{
    crate::key_laws::law_awaited_characters(ch);
}

/// In Replace mode a character is typed over the text, and Backspace brings back what it took the
/// place of.
pub proof fn law_replace_mode_keys(m: AreaView, ch: char)
    requires
        m.enabled,
        m.mode == VimMode::Replace,
    ensures
        editor_key(m, key_press(ch)) == inserted(m, encode_scalar(ch as u32)),
        editor_key(m, bare(KeyCode::Backspace)) == insert_acted(
            m,
            VimAction::RestoreReplacedCharacter,
        ).0,
{
    crate::key_laws::law_awaited_characters(ch);
}

/// A new count goes to the first step of a change and to nothing else.
pub proof fn law_only_the_first_step_is_recounted(edits: Seq<EditView>, count: usize)
    requires
        takes_count(edits),
    ensures
        ({
            let r = with_count(edits, count);
            &&& r.len() == edits.len()
            &&& forall|i: int| 0 < i < edits.len() ==> #[trigger] r[i] == edits[i]
            &&& r[0] == EditView::Editor { action: edits[0]->action, count: Some(count) }
        }),
{
}

/// A count belongs to deletes, changes, `r`, pastes, joins and shifts, and to nothing else.
pub proof fn law_counted_actions(action: VimAction)
    ensures
        action.counted() <==> match action {
            VimAction::Delete(_) => true,
            VimAction::Change(_) => true,
            VimAction::Replace(_) => true,
            VimAction::PasteAfter => true,
            VimAction::PasteBefore => true,
            VimAction::JoinLines => true,
            VimAction::Indent(_) => true,
            _ => false,
        },
        times(None) == 1,
        times(Some(0)) == 1,
        forall|n: usize| n > 0 ==> #[trigger] times(Some(n)) == n,
{
}

/// Swapping hands over what was recorded and takes on the other: the text stays.
pub proof fn law_swapping_hands_over(
    m: AreaView,
    commands: CommandView,
    search: crate::search::SearchQuery,
)
    ensures
        ({
            let (after, old_commands, old_search) = swapped(m, commands, search);
            &&& after.commands == commands
            &&& after.search == search
            &&& old_commands == m.commands
            &&& old_search == m.search
            &&& after.buf == m.buf
            &&& after.mode == m.mode
            &&& after.register == m.register
        }),
{
}

} // verus!
