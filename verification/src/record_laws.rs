//! How keys and steps are gathered, and how they are carried out again.

use crate::input::{all_typed, keys_repeated, operand_key, operator_key, typed, typed_times};
use crate::keys::KeyEvent;
use crate::textarea::AreaView;
use crate::vim::{
    change_begun, change_committed, events_of, has_count, key_finished, key_press,
    recording_begun, recounted, with_count_tag, with_key, KeyStateView, VimMode, VimOperator,
    VimPending, VimRecordedKey, VIM_MAX_COUNT,
};
use crate::vim_commands::{
    change_repeated, edit_applied, edits_applied, pending_finished, repeat_finished, replayed,
    takes_count, with_count, EditView,
};
use vstd::prelude::*;

verus! {

/// The keys typed so far for the command under way.
pub open spec fn gathered(m: AreaView) -> Seq<VimRecordedKey> {
    match m.keys.recording {
        Some(rec) => rec,
        None => m.keys.pending_keys,
    }
}

/// No key is lost: each one typed comes behind those before it, a count digit is marked as one, and
/// beginning to record keeps what was typed. A replay gathers nothing.
pub proof fn law_keys_are_gathered(m: AreaView, event: KeyEvent)
    ensures
        !m.keys.replaying ==> {
            let after = with_key(m, event);
            let marked = with_count_tag(after);
            &&& gathered(after) == gathered(m).push(VimRecordedKey { event, is_count: false })
            &&& gathered(marked) == gathered(m).push(VimRecordedKey { event, is_count: true })
            &&& after.buf == m.buf && marked.buf == m.buf
            &&& after.keys.last_change == m.keys.last_change
            &&& gathered(recording_begun(m)) == gathered(m)
            &&& recording_begun(m).keys.recording is Some
        },
        m.keys.replaying ==> with_key(m, event) == m && with_count_tag(m) == m && recording_begun(m)
            == m,
{
    let after = with_key(m, event);
    assert(gathered(with_count_tag(after)) =~= if m.keys.replaying {
        gathered(m)
    } else {
        gathered(m).push(VimRecordedKey { event, is_count: true })
    });
}

/// A change of the text begins with what was typed for it, and keeps the text to go back to.
pub proof fn law_changes_begin_with_their_keys(m: AreaView)
    requires
        m.enabled,
        m.undo.active is None,
    ensures
        change_begun(m).undo.active == Some(m.buf),
        change_begun(m).buf == m.buf,
        gathered(change_begun(m)) == gathered(m),
        !m.keys.replaying ==> change_begun(m).keys.recording is Some,
        change_begun(change_begun(m)) == change_begun(m),
{
}

/// The keys of a change are kept as the last one if and only if it changed the text or the
/// elements, and was no replay. Either way the recording is over.
pub proof fn law_keys_of_changes_are_kept(m: AreaView)
    requires
        m.undo.active is Some,
        m.keys.recording is Some,
    ensures
        ({
            let b = m.undo.active->0;
            let changed = b.text != m.buf.text || b.elements != m.buf.elements;
            let after = change_committed(m);
            &&& changed && !m.keys.replaying && gathered(m).len() > 0 ==> after.keys.last_change
                == gathered(m)
            &&& !changed || m.keys.replaying || gathered(m).len() == 0 ==> after.keys.last_change
                == m.keys.last_change
            &&& gathered(after).len() == 0
            &&& after.keys.recording is None
            &&& after.buf == m.buf
        }),
{
}

/// What was typed is forgotten only when nothing is under way any more: in Normal mode, with no
/// command waiting, no count and no recording.
pub proof fn law_keys_are_forgotten_after_a_command(m: AreaView)
    requires
        !m.keys.replaying,
    ensures
        m.mode == VimMode::Normal && m.pending is Idle && m.keys.count is None
            && m.keys.recording is None ==> gathered(key_finished(m)).len() == 0,
        m.mode != VimMode::Normal || !(m.pending is Idle) || m.keys.count is Some
            || m.keys.recording is Some ==> key_finished(m) == m,
{
}

/// Typing keys is typing the first ones and then the others.
pub proof fn law_typing_adds_up(m: AreaView, events: Seq<KeyEvent>, k: int)
    requires
        0 <= k <= events.len(),
    ensures
        all_typed(m, events, 0) == all_typed(all_typed(m, events.take(k), 0), events.skip(k), 0),
    decreases k,
{
    if k == 0 {
        assert(events.skip(0) =~= events);
        assert(all_typed(m, events.take(0), 0) == m);
    } else {
        law_typing_adds_up(m, events, k - 1);
        let before = all_typed(m, events.take(k - 1), 0);
        let tail = events.skip(k - 1);
        assert(tail[0] == events[k - 1]);
        lemma_typed_from(typed(before, tail[0]), tail, 1);
        assert(tail.skip(1) =~= events.skip(k));
        lemma_typed_last(m, events.take(k));
        assert(events.take(k).drop_last() =~= events.take(k - 1));
    }
}

/// Typing the keys from the `i`-th on is typing what is left.
proof fn lemma_typed_from(m: AreaView, events: Seq<KeyEvent>, i: int)
    requires
        0 <= i <= events.len(),
    ensures
        all_typed(m, events, i) == all_typed(m, events.skip(i), 0),
{
    assert(events.skip(i).skip(0) =~= events.skip(i));
    lemma_typed_shift(m, events, events.skip(i), i, 0);
}

proof fn lemma_typed_shift(m: AreaView, a: Seq<KeyEvent>, b: Seq<KeyEvent>, i: int, j: int)
    requires
        0 <= i <= a.len(),
        0 <= j <= b.len(),
        a.skip(i) == b.skip(j),
    ensures
        all_typed(m, a, i) == all_typed(m, b, j),
    decreases a.len() - i,
{
    assert(a.skip(i).len() == a.len() - i);
    assert(b.skip(j).len() == b.len() - j);
    if i < a.len() {
        assert(a.skip(i)[0] == a[i]);
        assert(b.skip(j)[0] == b[j]);
        assert(a.skip(i + 1) =~= a.skip(i).skip(1));
        assert(b.skip(j + 1) =~= b.skip(j).skip(1));
        lemma_typed_shift(typed(m, a[i]), a, b, i + 1, j + 1);
    }
}

proof fn lemma_typed_last(m: AreaView, events: Seq<KeyEvent>)
    requires
        events.len() > 0,
    ensures
        all_typed(m, events, 0) == typed(all_typed(m, events.drop_last(), 0), events.last()),
{
    lemma_typed_last_from(m, events, 0);
}

proof fn lemma_typed_last_from(m: AreaView, events: Seq<KeyEvent>, i: int)
    requires
        0 <= i < events.len(),
    ensures
        all_typed(m, events, i) == typed(all_typed(m, events.drop_last(), i), events.last()),
    decreases events.len() - i,
{
    if i + 1 < events.len() {
        lemma_typed_last_from(typed(m, events[i]), events, i + 1);
    } else {
        reveal_with_fuel(all_typed, 2);
    }
}

/// Typing keys `a + b` times is typing them `a` times and then `b` times; typing them once is
/// typing each of them.
pub proof fn law_typing_times_add_up(m: AreaView, events: Seq<KeyEvent>, a: nat, b: nat)
    ensures
        typed_times(m, events, a + b) == typed_times(typed_times(m, events, a), events, b),
        typed_times(m, events, 1) == all_typed(m, events, 0),
        typed_times(m, events, 0) == m,
    decreases a,
{
    reveal_with_fuel(typed_times, 2);
    if a > 0 {
        law_typing_times_add_up(all_typed(m, events, 0), events, (a - 1) as nat, b);
    }
}

/// Repeating the keys of the last change does to the text what typing them again does. A count
/// takes the place of the one that was typed, or where none was typed, says how often.
pub proof fn law_keys_are_repeated(m: AreaView, count: Option<usize>)
    ensures
        m.keys.last_change.len() == 0 ==> keys_repeated(m, count) == m,
        m.keys.last_change.len() > 0 ==> {
            let keys = m.keys.last_change;
            let ready = AreaView {
                keys: KeyStateView { pending_keys: Seq::empty(), replaying: true, ..m.keys },
                ..m
            };
            let again = match count {
                None => all_typed(ready, events_of(keys), 0),
                Some(n) => if has_count(keys) {
                    all_typed(ready, recounted(keys, n as nat), 0)
                } else {
                    typed_times(ready, events_of(keys), n as nat)
                },
            };
            &&& keys_repeated(m, count).buf == again.buf
            &&& keys_repeated(m, count).mode == again.mode
            &&& keys_repeated(m, count).register == again.register
            &&& !keys_repeated(m, count).keys.replaying
        },
{
    reveal_with_fuel(typed_times, 2);
}

/// Replaying a change `a + b` times is replaying it `a` times and then `b` times, as long as every
/// step does something.
pub proof fn law_replays_add_up(m: AreaView, edits: Seq<EditView>, a: nat, b: nat)
    ensures
        replayed(m, edits, 0) == m,
        replayed(m, edits, 1) == edits_applied(m, edits, 0).0,
        all_done(m, edits, a) ==> replayed(m, edits, a + b) == replayed(
            replayed(m, edits, a),
            edits,
            b,
        ),
    decreases a,
{
    reveal_with_fuel(replayed, 2);
    if a > 0 {
        law_replays_add_up(edits_applied(m, edits, 0).0, edits, (a - 1) as nat, b);
    }
}

/// Every step of `n` replays does something.
pub open spec fn all_done(m: AreaView, edits: Seq<EditView>, n: nat) -> bool
    decreases n,
{
    n == 0 || edits_applied(m, edits, 0).1 && all_done(
        edits_applied(m, edits, 0).0,
        edits,
        (n - 1) as nat,
    )
}

/// The steps of a change are carried out one after the other, up to one that does nothing.
pub proof fn law_steps_are_carried_out_in_order(m: AreaView, edits: Seq<EditView>, i: int)
    requires
        0 <= i <= edits.len(),
    ensures
        i == edits.len() ==> edits_applied(m, edits, i) == (m, true),
        i < edits.len() ==> {
            let (after, done) = edit_applied(m, edits[i]);
            &&& done ==> edits_applied(m, edits, i) == edits_applied(after, edits, i + 1)
            &&& !done ==> edits_applied(m, edits, i) == (after, false)
        },
{
}

/// `.` carries out the last change again. A count takes the place of that of a command that takes
/// one, and is kept for the next time; of anything else it says how often.
pub proof fn law_dot_counts(m: AreaView, n: usize)
    ensures
        m.commands.last_change.len() == 0 ==> change_repeated(m, Some(n)) == m && change_repeated(
            m,
            None,
        ) == m,
        m.commands.last_change.len() > 0 ==> {
            let edits = m.commands.last_change;
            let ready = replay_ready(m, edits);
            let other = replay_ready(m, with_count(edits, n));
            let counted = change_repeated(m, Some(n));
            let plain = change_repeated(m, None);
            &&& plain.buf == repeat_finished(replayed(ready, edits, 1)).buf
            &&& takes_count(edits) ==> counted.buf == repeat_finished(
                replayed(other, with_count(edits, n), 1),
            ).buf
            &&& !takes_count(edits) ==> counted.buf == repeat_finished(
                replayed(ready, edits, n as nat),
            ).buf
            &&& plain.mode == VimMode::Normal && counted.mode == VimMode::Normal
        },
{
    reveal(change_repeated);
}

/// The text area as a replay of `edits` starts.
pub open spec fn replay_ready(m: AreaView, edits: Seq<EditView>) -> AreaView {
    AreaView {
        keys: KeyStateView { pending_keys: Seq::empty(), replaying: true, ..m.keys },
        commands: crate::vim_commands::CommandView {
            replaying: true,
            last_change: edits,
            ..m.commands
        },
        ..m
    }
}

/// A change that changed something is the last one; another one leaves the last one alone.
pub proof fn law_only_changes_are_kept(m: AreaView)
    ensures
        m.commands.changed ==> pending_finished(m).commands.last_change
            == m.commands.pending_change,
        !m.commands.changed ==> pending_finished(m).commands.last_change == m.commands.last_change,
        pending_finished(m).commands.pending_change.len() == 0,
        pending_finished(m).buf == m.buf,
{
}

/// Behind an operator a digit adds to the count of the motion, and any other key says what the
/// operator works on, with the product of both counts.
pub proof fn law_operator_counts_multiply(
    m: AreaView,
    operator: VimOperator,
    before: Option<usize>,
    behind: Option<usize>,
    ch: char,
)
    ensures
        ({
            let after = operator_key(m, operator, before, behind, key_press(ch));
            let product: int = (match before {
                Some(a) => a as int,
                None => 1,
            }) * (match behind {
                Some(b) => b as int,
                None => 1,
            });
            if '1' <= ch <= '9' || ch == '0' && behind is Some {
                let next = (match behind {
                    Some(b) => b as int,
                    None => 0,
                }) * 10 + (ch as int - '0' as int);
                &&& after.pending matches VimPending::Operator {
                    operator: o,
                    operator_count,
                    motion_count,
                }
                &&& o == operator
                &&& operator_count == before
                &&& motion_count == Some(
                    if next > VIM_MAX_COUNT {
                        VIM_MAX_COUNT
                    } else if next < 1 {
                        1
                    } else {
                        next as usize
                    },
                )
                &&& after.buf == m.buf
            } else {
                after == operand_key(
                    m,
                    operator,
                    key_press(ch),
                    if before is None && behind is None {
                        None
                    } else if product > VIM_MAX_COUNT {
                        Some(VIM_MAX_COUNT)
                    } else {
                        Some(product as usize)
                    },
                )
            }
        }),
{
}

} // verus!
