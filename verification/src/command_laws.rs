//! What counts, recording and replay promise.

use crate::finds::{find_range, found, found_by, grapheme_before, jumped};
use crate::input::{key_handled, normal_key, typed};
use crate::keys::{count_digit, pressed, KeyCode, KeyEvent};
use crate::operators::{motion_applied, operator_applied};
use crate::search::SearchQuery;
use crate::textarea::{with_cursor, AreaView};
use crate::undo_laws::{lemma_acted_tracks, lemma_typing_tracks, same_commands, same_content};
use crate::vim::{
    appended_digit, decimal, events_of, has_count, key_press, key_presses, recounted, VIM_MAX_COUNT,
    VimFindKind, VimIndentDirection, VimMode, VimMotion, VimOperator, VimPending, VimRecordedKey,
};
use crate::vim_commands::{
    change_opened, change_repeated, combined_count, edit_applied, edit_started, edits_applied,
    repeat_finished, replayed, swapped, takes_count, with_count, CommandView, EditView, VimAction,
};
use vstd::prelude::*;

verus! {

/// A find in the other direction of the other direction is the find itself.
pub proof fn law_reversing_twice(kind: VimFindKind)
    ensures
        kind.reverse().reverse() == kind,
        kind.reverse().forward() == !kind.forward(),
        kind.reverse().till() == kind.till(),
{
}

/// Operators over finds: forward, `f` takes the character found and `t` stops before it; backward,
/// `F` takes it and `T` stops after it, and neither takes the character under the cursor.
pub proof fn law_finds_as_operator_motions(c: int, place: (int, int))
    ensures
        find_range(c, VimFindKind::Forward, place) == (c, place.1),
        find_range(c, VimFindKind::TillForward, place) == (c, place.0),
        find_range(c, VimFindKind::Backward, place) == (place.0, c),
        find_range(c, VimFindKind::TillBackward, place) == (place.1, c),
{
}

/// A till motion finds something exactly when the find in its direction does, and both come upon
/// the same place: `t` stops at the grapheme before the one that `f` goes to, `T` behind the one
/// that `F` goes to. With an operator there is something to find exactly when there is without.
pub proof fn law_tills_stop_beside_finds(
    m: AreaView,
    operator: VimOperator,
    target: char,
    count: nat,
)
    ensures
        ({
            let t = m.buf.text;
            let es = m.buf.elements;
            let c = m.buf.cursor;
            let onto = found(m, VimFindKind::Forward, None, target, count);
            let before = found(m, VimFindKind::TillForward, None, target, count);
            match found_by(t, es, c, VimFindKind::Forward, target, count) {
                Some(place) => {
                    &&& onto == (with_cursor(m, place.0), true)
                    &&& before == (with_cursor(m, grapheme_before(t, es, c, place.0)), true)
                },
                None => onto == (m, false) && before == (m, false),
            }
        }),
        ({
            let t = m.buf.text;
            let es = m.buf.elements;
            let c = m.buf.cursor;
            let onto = found(m, VimFindKind::Backward, None, target, count);
            let behind = found(m, VimFindKind::TillBackward, None, target, count);
            match found_by(t, es, c, VimFindKind::Backward, target, count) {
                Some(place) => {
                    &&& onto == (with_cursor(m, place.0), true)
                    &&& behind == (with_cursor(m, place.1), true)
                },
                None => onto == (m, false) && behind == (m, false),
            }
        }),
        forall|kind: VimFindKind| #[trigger]
            found(m, kind, Some(operator), target, count).1 == found(
                m,
                kind,
                None,
                target,
                count,
            ).1,
{
    reveal(found);
}

/// No count gets past the maximum, however many digits are typed and whatever is multiplied.
pub proof fn law_counts_are_bounded(
    count: Option<usize>,
    digit: u8,
    operator_count: Option<usize>,
    motion_count: Option<usize>,
)
    ensures
        appended_digit(count, digit, 0) <= VIM_MAX_COUNT,
        1 <= appended_digit(count, digit, 1) <= VIM_MAX_COUNT,
        combined_count(operator_count, motion_count) matches Some(n) ==> n <= VIM_MAX_COUNT,
        combined_count(operator_count, motion_count) is None <==> operator_count is None
            && motion_count is None,
{
}

/// The count after digits are typed, one after the other.
pub open spec fn count_after(digits: Seq<char>) -> Option<usize>
    decreases digits.len(),
{
    if digits.len() == 0 {
        None
    } else {
        match count_digit(key_press(digits.last())) {
            Some(digit) => Some(appended_digit(count_after(digits.drop_last()), digit, 1)),
            None => count_after(digits.drop_last()),
        }
    }
}

/// Typing the decimal digits of a number as a count gives that number.
pub proof fn law_count_reads_back(n: nat)
    requires
        1 <= n <= VIM_MAX_COUNT,
    ensures
        count_after(decimal(n)) == Some(n as usize),
    decreases n,
{
    let digits = decimal(n);
    let d = (n % 10) as u8;
    let c = ((n % 10) as u8 + '0' as u8) as u8 as char;
    assert(digits.last() == c);
    assert(count_digit(key_press(c)) == Some(d));
    if n < 10 {
        assert(digits.drop_last() =~= Seq::<char>::empty());
        assert(count_after(digits.drop_last()) is None);
    } else {
        assert(digits.drop_last() =~= decimal(n / 10));
        law_count_reads_back(n / 10);
    }
}

/// The events of the keys that are no count digits.
pub open spec fn plain_events(keys: Seq<VimRecordedKey>) -> Seq<KeyEvent>
    decreases keys.len(),
{
    if keys.len() == 0 {
        Seq::empty()
    } else {
        let before = plain_events(keys.drop_last());
        if keys.last().is_count {
            before
        } else {
            before.push(keys.last().event)
        }
    }
}

/// Without a recorded count, recounting gives the keys as they were typed.
pub proof fn law_recount_without_count(keys: Seq<VimRecordedKey>, count: nat)
    requires
        !has_count(keys),
    ensures
        recounted(keys, count) == events_of(keys),
        plain_events(keys) == events_of(keys),
    decreases keys.len(),
{
    if keys.len() > 0 {
        let init = keys.drop_last();
        assert(!keys.last().is_count) by {
            if keys.last().is_count {
                assert(keys[keys.len() - 1].is_count);
            }
        }
        assert(!has_count(init)) by {
            if has_count(init) {
                let i = choose|i: int| 0 <= i < init.len() && (#[trigger] init[i]).is_count;
                assert(keys[i].is_count);
            }
        }
        law_recount_without_count(init, count);
        assert(events_of(keys) =~= events_of(init).push(keys.last().event));
    } else {
        assert(recounted(keys, count) =~= events_of(keys));
    }
}

/// Recounting puts the digits of the new count where the first recorded digit was, and keeps every
/// key that is no count digit in its order.
pub proof fn law_recount_keeps_the_other_keys(keys: Seq<VimRecordedKey>, count: nat, first: int)
    requires
        0 <= first < keys.len(),
        keys[first].is_count,
        !has_count(keys.take(first)),
    ensures
        recounted(keys, count) == events_of(keys.take(first)) + key_presses(decimal(count))
            + plain_events(keys.skip(first)),
    decreases keys.len(),
{
    let init = keys.drop_last();
    if first < init.len() {
        assert(init[first].is_count);
        assert(init.take(first) =~= keys.take(first));
        law_recount_keeps_the_other_keys(init, count, first);
        assert(keys.skip(first).drop_last() =~= init.skip(first));
        assert(recounted(keys, count) =~= events_of(keys.take(first)) + key_presses(
            decimal(count),
        ) + plain_events(keys.skip(first)));
    } else {
        assert(init =~= keys.take(first));
        law_recount_without_count(init, count);
        assert(keys.skip(first).drop_last() =~= Seq::<VimRecordedKey>::empty());
        assert(plain_events(keys.skip(first).drop_last()) =~= Seq::<KeyEvent>::empty());
        assert(keys.skip(first).last() == keys[first]);
        assert(plain_events(keys.skip(first)) =~= Seq::<KeyEvent>::empty());
        assert(recounted(keys, count) =~= events_of(keys.take(first)) + key_presses(
            decimal(count),
        ) + plain_events(keys.skip(first)));
    }
}

/// An action of Normal mode that changes something becomes the last change, with the count that
/// was typed; one that does nothing leaves the last change as it was.
pub proof fn law_edits_are_recorded(m: AreaView, action: VimAction, count: Option<usize>)
    requires
        m.mode == VimMode::Normal,
    ensures
        ({
            let (n, done) = edit_started(m, action, count);
            let changed = n.buf.text.len() != m.buf.text.len() || action is Replace
                || action is JoinLines || action is Indent;
            &&& done && n.mode == VimMode::Normal && changed ==> n.commands.last_change == seq![
                EditView::Editor { action, count },
            ]
            &&& !done ==> n.commands.last_change == m.commands.last_change
        }),
{
    reveal(edit_started);
    lemma_acted_tracks(change_opened(m, action, count), action, count);
}

proof fn lemma_edits_quiet(m: AreaView, edits: Seq<EditView>, i: int)
    requires
        m.commands.replaying,
    ensures
        same_commands(m, edits_applied(m, edits, i).0),
    decreases edits.len() - i,
{
    if 0 <= i < edits.len() {
        reveal(edit_applied);
        let next = edit_applied(m, edits[i]).0;
        match edits[i] {
            EditView::Editor { action, count } => {
                lemma_acted_tracks(m, action, count);
            },
            EditView::Text(text) => {
                lemma_typing_tracks(m, text);
            },
        }
        assert(same_commands(m, next));
        lemma_edits_quiet(next, edits, i + 1);
    }
}

proof fn lemma_replay_quiet(m: AreaView, edits: Seq<EditView>, n: nat)
    requires
        m.commands.replaying,
    ensures
        same_commands(m, replayed(m, edits, n)),
    decreases n,
{
    if n > 0 {
        lemma_edits_quiet(m, edits, 0);
        let (next, done) = edits_applied(m, edits, 0);
        if done {
            lemma_replay_quiet(next, edits, (n - 1) as nat);
        }
    }
}

/// A replay records nothing: the last change stays what it was, but for a count given with `.`,
/// which takes the place of the recorded one for the replays that follow.
pub proof fn law_replay_records_nothing(m: AreaView, count: Option<usize>)
    requires
        !m.commands.changed,
    ensures
        change_repeated(m, count).commands.last_change == if count is Some && takes_count(
            m.commands.last_change,
        ) {
            with_count(m.commands.last_change, count->0)
        } else {
            m.commands.last_change
        },
        change_repeated(m, count).commands.last_find == m.commands.last_find,
{
    reveal(change_repeated);
    let edits = m.commands.last_change;
    if edits.len() > 0 {
        let substituted = count is Some && takes_count(edits);
        let used = if substituted {
            with_count(edits, count->0)
        } else {
            edits
        };
        let n = if count is Some && !substituted {
            count->0 as nat
        } else {
            1
        };
        let ready = AreaView {
            keys: crate::vim::KeyStateView {
                pending_keys: Seq::empty(),
                replaying: true,
                ..m.keys
            },
            commands: CommandView { replaying: true, last_change: used, ..m.commands },
            ..m
        };
        lemma_replay_quiet(ready, used, n);
        let end = replayed(ready, used, n);
        assert(!end.commands.changed);
        assert(repeat_finished(end).commands.last_change == used);
    }
}

/// A replay ends in Normal mode with no command under way, if it started there.
pub proof fn law_replay_ends_in_normal_mode(m: AreaView, count: Option<usize>)
    requires
        m.mode == VimMode::Normal,
        m.pending is Idle,
    ensures
        change_repeated(m, count).mode == VimMode::Normal,
        change_repeated(m, count).pending is Idle,
{
    reveal(change_repeated);
}

/// Exchanging the recorded changes and the last search twice gives back both sides.
pub proof fn law_swapping_twice(m: AreaView, commands: CommandView, search: SearchQuery)
    ensures
        ({
            let (n, kept_commands, kept_search) = swapped(m, commands, search);
            swapped(n, kept_commands, kept_search) == (m, commands, search)
        }),
{
}

/// Escape in Normal mode ends the command and the count under way, and edits nothing.
pub proof fn law_escape_cancels(m: AreaView, event: KeyEvent)
    requires
        m.enabled,
        m.mode == VimMode::Normal,
        event.code == KeyCode::Esc,
    ensures
        typed(m, event).buf == m.buf,
        typed(m, event).pending is Idle,
        typed(m, event).keys.count is None,
        typed(m, event).register == m.register,
{
    reveal(key_handled);
}

/// A second key that does not fit the first one of `>>` or `<<` cancels without editing.
pub proof fn law_mismatched_shift_cancels(
    m: AreaView,
    direction: VimIndentDirection,
    count: Option<usize>,
    event: KeyEvent,
)
    requires
        event.code != KeyCode::Esc,
        m.pending == (VimPending::Indent { direction, count }),
        match direction {
            VimIndentDirection::Increase => !pressed(m.normal_keymap.indent_lines@, event),
            VimIndentDirection::Decrease => !pressed(m.normal_keymap.dedent_lines@, event),
        },
    ensures
        normal_key(m, event) == (AreaView { pending: VimPending::Idle, ..m }),
{
}

/// Moving the cursor and yanking change neither the text nor the elements.
pub proof fn law_motions_and_yanks_keep_the_text(
    m: AreaView,
    motion: VimMotion,
    n: nat,
    kind: VimFindKind,
    target: char,
    last: bool,
    count: Option<usize>,
)
    ensures
        same_content(motion_applied(m, motion, n).buf, m.buf),
        same_content(operator_applied(m, VimOperator::Yank, motion, n).buf, m.buf),
        same_content(found(m, kind, None, target, n).0.buf, m.buf),
        same_content(found(m, kind, Some(VimOperator::Yank), target, n).0.buf, m.buf),
        same_content(jumped(m, last, None, count).buf, m.buf),
        same_content(jumped(m, last, Some(VimOperator::Yank), count).buf, m.buf),
{
    reveal(operator_applied);
    reveal(found);
    reveal(jumped);
}

} // verus!
