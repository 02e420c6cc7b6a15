//! What the keys do out of the box.

use crate::finds::{found, jumped};
use crate::input::{
    buffer_start_key, command_key, edit_for, editor_key, key_handled, lines_yanked, motion_for,
    normal_key, object_key, operand_key, operator_key, operator_motion,
};
use crate::keymap::{bound, bound_pair, VimMotionKeymap, VimOperatorKeymap, VimTextObjectKeymap};
use crate::keys::{
    command_char, count_digit, pressed, presses, KeyBinding, KeyCode, KeyEvent, KeyModifiers,
};
use crate::lines::line_end;
use crate::operators::motion_applied;
use crate::text_objects::{object_for, scope_for};
use crate::textarea::AreaView;
use crate::vim::{
    appended_digit, key_press, undone, KeyStateView, VimFind, VimFindKind, VimIndentDirection,
    VimMode, VimMotion, VimOperator, VimPending, VimTextObject, VimTextObjectScope,
    VIM_MAX_COUNT,
};
use crate::vim_commands::{
    change_repeated, combined_count, edit_started, extra_command, find_repeated, find_run,
    insert_left, pending_command, CommandView, VimAction, VimEditTarget, VimInsertPosition,
};
use vstd::prelude::*;

verus! {

/// A plain binding is pressed by its own key.
proof fn lemma_bound(c: char, ch: char)
    ensures
        pressed(bound(c), key_press(ch)) == (c == ch),
        !pressed(Seq::<KeyBinding>::empty(), key_press(ch)),
{
    let b = bound(c)[0];
    assert(presses(b, key_press(ch)) == (c == ch));
    if c == ch {
        assert(presses(bound(c)[0], key_press(ch)));
    }
}

proof fn lemma_bound_pair(c: char, code: KeyCode, ch: char)
    ensures
        pressed(bound_pair(c, code), key_press(ch)) == (c == ch || code == KeyCode::Char(ch)),
{
    let b = bound_pair(c, code);
    assert(presses(b[0], key_press(ch)) == (c == ch));
    assert(presses(b[1], key_press(ch)) == (code == KeyCode::Char(ch)));
}

/// The motion of a key out of the box.
pub open spec fn motion_of(ch: char) -> Option<VimMotion> {
    if ch == 'h' {
        Some(VimMotion::Left)
    } else if ch == 'l' {
        Some(VimMotion::Right)
    } else if ch == 'k' {
        Some(VimMotion::Up)
    } else if ch == 'j' {
        Some(VimMotion::Down)
    } else if ch == 'w' {
        Some(VimMotion::WordForward)
    } else if ch == 'b' {
        Some(VimMotion::WordBackward)
    } else if ch == 'e' {
        Some(VimMotion::WordEnd)
    } else if ch == 'W' {
        Some(VimMotion::BigWordForward)
    } else if ch == 'B' {
        Some(VimMotion::BigWordBackward)
    } else if ch == 'E' {
        Some(VimMotion::BigWordEnd)
    } else if ch == '0' {
        Some(VimMotion::LineStart)
    } else if ch == '^' {
        Some(VimMotion::FirstNonBlank)
    } else if ch == '$' {
        Some(VimMotion::LineEnd)
    } else {
        None
    }
}

/// Each motion has its key.
pub proof fn law_motion_keys(keymap: VimMotionKeymap, ch: char)
    requires
        keymap.is_default(),
    ensures
        motion_for(keymap, key_press(ch)) == motion_of(ch),
{
    lemma_bound_pair('h', KeyCode::Left, ch);
    lemma_bound_pair('l', KeyCode::Right, ch);
    lemma_bound_pair('k', KeyCode::Up, ch);
    lemma_bound_pair('j', KeyCode::Down, ch);
    lemma_bound('w', ch);
    lemma_bound('b', ch);
    lemma_bound('e', ch);
    lemma_bound('W', ch);
    lemma_bound('B', ch);
    lemma_bound('E', ch);
    lemma_bound_pair('0', KeyCode::Home, ch);
    lemma_bound('^', ch);
    lemma_bound_pair('$', KeyCode::End, ch);
}

/// The edit that a key of Normal mode starts out of the box. Entering Insert mode takes no count.
pub open spec fn edit_of(ch: char, count: Option<usize>) -> Option<(VimAction, Option<usize>)> {
    if ch == 'i' {
        Some((VimAction::Insert(VimInsertPosition::Cursor), None))
    } else if ch == 'a' {
        Some((VimAction::Insert(VimInsertPosition::AfterCursor), None))
    } else if ch == 'I' {
        Some((VimAction::Insert(VimInsertPosition::LineStart), None))
    } else if ch == 'A' {
        Some((VimAction::Insert(VimInsertPosition::LineEnd), None))
    } else if ch == 'o' {
        Some((VimAction::Insert(VimInsertPosition::OpenBelow), None))
    } else if ch == 'O' {
        Some((VimAction::Insert(VimInsertPosition::OpenAbove), None))
    } else if ch == 'x' {
        Some((VimAction::Delete(VimEditTarget::Character), count))
    } else if ch == 's' {
        Some((VimAction::Change(VimEditTarget::Character), count))
    } else if ch == 'D' {
        Some((VimAction::Delete(VimEditTarget::LineEnd), count))
    } else if ch == 'C' {
        Some((VimAction::Change(VimEditTarget::LineEnd), count))
    } else if ch == 'S' {
        Some((VimAction::Change(VimEditTarget::Line), count))
    } else if ch == 'p' {
        Some((VimAction::PasteAfter, count))
    } else {
        None
    }
}

proof fn lemma_edit_keys(m: AreaView, ch: char, count: Option<usize>)
    requires
        m.normal_keymap.is_default(),
    ensures
        edit_for(m, key_press(ch), count) == edit_of(ch, count),
{
    lemma_bound('i', ch);
    lemma_bound('a', ch);
    lemma_bound('I', ch);
    lemma_bound('A', ch);
    lemma_bound('o', ch);
    lemma_bound('O', ch);
    lemma_bound('x', ch);
    lemma_bound('s', ch);
    lemma_bound('D', ch);
    lemma_bound('C', ch);
    lemma_bound('S', ch);
    lemma_bound('p', ch);
}

/// Each motion key of Normal mode moves the cursor as often as is counted, and each editing key
/// starts its edit.
pub proof fn law_motions_and_edits_have_their_keys(m: AreaView, ch: char, count: Option<usize>)
    requires
        m.normal_keymap.is_default(),
    ensures
        motion_of(ch) matches Some(motion) ==> command_key(m, key_press(ch), count)
            == motion_applied(m, motion, crate::edit_laws::asked(count)),
        edit_of(ch, count) matches Some((action, used)) ==> command_key(m, key_press(ch), count)
            == edit_started(m, action, used).0,
{
    law_motion_keys(m.normal_keymap.motions, ch);
    lemma_edit_keys(m, ch, count);
}

/// A command that waits for another key.
pub open spec fn waits(m: AreaView, pending: VimPending) -> AreaView {
    AreaView { pending, ..m }
}

/// The other keys of Normal mode: operators, finds, `r` and the shifts wait for what comes next,
/// and the rest is carried out.
pub proof fn law_commands_have_their_keys(m: AreaView, count: Option<usize>)
    requires
        m.normal_keymap.is_default(),
    ensures
        command_key(m, key_press('d'), count) == waits(
            m,
            VimPending::Operator {
                operator: VimOperator::Delete,
                operator_count: count,
                motion_count: None,
            },
        ),
        command_key(m, key_press('y'), count) == waits(
            m,
            VimPending::Operator {
                operator: VimOperator::Yank,
                operator_count: count,
                motion_count: None,
            },
        ),
        command_key(m, key_press('c'), count) == waits(
            m,
            VimPending::Operator {
                operator: VimOperator::Change,
                operator_count: count,
                motion_count: None,
            },
        ),
        command_key(m, key_press('Y'), count) == lines_yanked(m, count),
        command_key(m, key_press('u'), count) == undone(m),
        command_key(m, key_press('g'), count) == waits(
            m,
            VimPending::BufferStart { operator: None, count },
        ),
        command_key(m, key_press('G'), count) == jumped(m, true, None, count),
{
    lemma_command_key(m, 'd', count);
    lemma_command_key(m, 'y', count);
    lemma_command_key(m, 'c', count);
    lemma_command_key(m, 'Y', count);
    lemma_command_key(m, 'u', count);
    lemma_command_key(m, 'g', count);
    lemma_command_key(m, 'G', count);
}

proof fn lemma_command_key(m: AreaView, ch: char, count: Option<usize>)
    requires
        m.normal_keymap.is_default(),
        motion_of(ch) is None,
        edit_of(ch, count) is None,
    ensures
        pressed(m.normal_keymap.start_delete@, key_press(ch)) == (ch == 'd'),
        pressed(m.normal_keymap.start_yank@, key_press(ch)) == (ch == 'y'),
        pressed(m.normal_keymap.start_change@, key_press(ch)) == (ch == 'c'),
        pressed(m.normal_keymap.yank_line@, key_press(ch)) == (ch == 'Y'),
        pressed(m.normal_keymap.undo@, key_press(ch)) == (ch == 'u'),
        pressed(m.normal_keymap.move_buffer_start@, key_press(ch)) == (ch == 'g'),
        pressed(m.normal_keymap.move_buffer_end@, key_press(ch)) == (ch == 'G'),
        motion_for(m.normal_keymap.motions, key_press(ch)) is None,
        edit_for(m, key_press(ch), count) is None,
{
    law_motion_keys(m.normal_keymap.motions, ch);
    lemma_edit_keys(m, ch, count);
    lemma_bound('d', ch);
    lemma_bound('y', ch);
    lemma_bound('c', ch);
    lemma_bound('Y', ch);
    lemma_bound('u', ch);
    lemma_bound('g', ch);
    lemma_bound('G', ch);
}

/// What a further command key does out of the box.
pub open spec fn further_command(m: AreaView, ch: char, count: Option<usize>) -> Option<AreaView> {
    let once = match count {
        Some(n) => n,
        None => 1,
    };
    if ch == 'R' {
        Some(edit_started(m, VimAction::EnterReplaceMode, None).0)
    } else if ch == '.' {
        Some(change_repeated(m, count))
    } else if ch == 'P' {
        Some(edit_started(m, VimAction::PasteBefore, count).0)
    } else if ch == 'J' {
        Some(edit_started(m, VimAction::JoinLines, count).0)
    } else if ch == '>' {
        Some(waits(m, VimPending::Indent { direction: VimIndentDirection::Increase, count }))
    } else if ch == '<' {
        Some(waits(m, VimPending::Indent { direction: VimIndentDirection::Decrease, count }))
    } else if ch == 'f' {
        Some(waits(m, VimPending::Find { operator: None, kind: VimFindKind::Forward, count }))
    } else if ch == 'F' {
        Some(waits(m, VimPending::Find { operator: None, kind: VimFindKind::Backward, count }))
    } else if ch == 't' {
        Some(waits(m, VimPending::Find { operator: None, kind: VimFindKind::TillForward, count }))
    } else if ch == 'T' {
        Some(waits(m, VimPending::Find { operator: None, kind: VimFindKind::TillBackward, count }))
    } else if ch == ';' {
        Some(find_repeated(m, false, None, once))
    } else if ch == ',' {
        Some(find_repeated(m, true, None, once))
    } else {
        None
    }
}

/// Each further command has its key; `r` waits for its character unless the cursor is at the end of
/// the line.
pub proof fn law_further_commands_have_their_keys(m: AreaView, ch: char, count: Option<usize>)
    requires
        m.normal_keymap.is_default(),
    ensures
        further_command(m, ch, count) matches Some(after) ==> command_key(m, key_press(ch), count)
            == after && extra_command(m, key_press(ch), count) == (after, true),
        ch == 'r' && m.buf.cursor < line_end(m.buf.text, m.buf.cursor) ==> command_key(
            m,
            key_press(ch),
            count,
        ) == waits(m, VimPending::ReplaceChar { count }),
        ch == 'r' && m.buf.cursor >= line_end(m.buf.text, m.buf.cursor) ==> command_key(
            m,
            key_press(ch),
            count,
        ) == m,
{
    if further_command(m, ch, count) is Some || ch == 'r' {
        lemma_command_key(m, ch, count);
        lemma_bound('R', ch);
        lemma_bound('r', ch);
        lemma_bound('.', ch);
        lemma_bound('P', ch);
        lemma_bound('J', ch);
        lemma_bound('>', ch);
        lemma_bound('<', ch);
        lemma_bound('f', ch);
        lemma_bound('F', ch);
        lemma_bound('t', ch);
        lemma_bound('T', ch);
        lemma_bound(';', ch);
        lemma_bound(',', ch);
        assert(!pressed(m.normal_keymap.jump_top@, key_press(ch)));
        assert(!pressed(m.normal_keymap.jump_bottom@, key_press(ch)));
    }
}

/// What the key that a command waits for does: `r` writes its character, a find goes to it and is
/// kept for `;` and `,`, and a shift wants its own key twice.
pub proof fn law_awaited_keys(m: AreaView, ch: char, count: Option<usize>)
    requires
        m.normal_keymap.is_default(),
    ensures
        pending_command(m, VimPending::ReplaceChar { count }, key_press(ch)) == edit_started(
            m,
            VimAction::Replace(ch),
            count,
        ).0,
        forall|kind: VimFindKind, operator: Option<VimOperator>| #[trigger]
            pending_command(m, VimPending::Find { operator, kind, count }, key_press(ch))
                == find_run(
                AreaView {
                    commands: CommandView {
                        last_find: Some(VimFind { kind, target: ch }),
                        ..m.commands
                    },
                    ..m
                },
                kind,
                operator,
                ch,
                count,
            ),
        pending_command(
            m,
            VimPending::Indent { direction: VimIndentDirection::Increase, count },
            key_press(ch),
        ) == if ch == '>' {
            edit_started(m, VimAction::Indent(VimIndentDirection::Increase), count).0
        } else {
            m
        },
        pending_command(
            m,
            VimPending::Indent { direction: VimIndentDirection::Decrease, count },
            key_press(ch),
        ) == if ch == '<' {
            edit_started(m, VimAction::Indent(VimIndentDirection::Decrease), count).0
        } else {
            m
        },
{
    lemma_bound('>', ch);
    lemma_bound('<', ch);
}

/// A find goes to its character as often as is counted, once without a count; `d` and `c` make it a
/// change that can be repeated.
pub proof fn law_finds_are_run(
    m: AreaView,
    kind: VimFindKind,
    target: char,
    count: Option<usize>,
)
    ensures
        ({
            let n = match count {
                Some(n) => n as nat,
                None => 1,
            };
            let place = VimEditTarget::Find { motion: kind, target };
            &&& find_run(m, kind, None, target, count) == found(m, kind, None, target, n).0
            &&& find_run(m, kind, Some(VimOperator::Yank), target, count) == found(
                m,
                kind,
                Some(VimOperator::Yank),
                target,
                n,
            ).0
            &&& find_run(m, kind, Some(VimOperator::Delete), target, count) == edit_started(
                m,
                VimAction::Delete(place),
                count,
            ).0
            &&& find_run(m, kind, Some(VimOperator::Change), target, count) == edit_started(
                m,
                VimAction::Change(place),
                count,
            ).0
        }),
{
}

/// Which text object a key names out of the box.
pub open spec fn object_of(ch: char) -> Option<VimTextObject> {
    if ch == 'w' {
        Some(VimTextObject::Word)
    } else if ch == 'W' {
        Some(VimTextObject::BigWord)
    } else if ch == '(' || ch == ')' {
        Some(VimTextObject::Parentheses)
    } else if ch == '[' || ch == ']' {
        Some(VimTextObject::Brackets)
    } else if ch == '{' || ch == '}' {
        Some(VimTextObject::Braces)
    } else if ch == '"' {
        Some(VimTextObject::DoubleQuote)
    } else if ch == '\'' {
        Some(VimTextObject::SingleQuote)
    } else if ch == '`' {
        Some(VimTextObject::Backtick)
    } else {
        None
    }
}

/// Each text object has its keys, and so have inner and around.
pub proof fn law_object_keys(keymap: VimTextObjectKeymap, operators: VimOperatorKeymap, ch: char)
    requires
        keymap.is_default(),
        operators.is_default(),
    ensures
        object_for(keymap, key_press(ch)) == object_of(ch),
        scope_for(operators, key_press(ch)) == if ch == 'i' {
            Some(VimTextObjectScope::Inner)
        } else if ch == 'a' {
            Some(VimTextObjectScope::Around)
        } else {
            None
        },
{
    lemma_bound('w', ch);
    lemma_bound('W', ch);
    lemma_bound_pair('(', KeyCode::Char(')'), ch);
    lemma_bound_pair('[', KeyCode::Char(']'), ch);
    lemma_bound_pair('{', KeyCode::Char('}'), ch);
    lemma_bound('"', ch);
    lemma_bound('\'', ch);
    lemma_bound('`', ch);
    lemma_bound('i', ch);
    lemma_bound('a', ch);
}

/// Behind an operator its own key takes lines, a motion key works up to where the motion goes, and
/// `i` and `a` wait for a text object.
pub proof fn law_operands_have_their_keys(
    m: AreaView,
    operator: VimOperator,
    ch: char,
    count: Option<usize>,
)
    requires
        m.operator_keymap.is_default(),
    ensures
        ({
            let own = match operator {
                VimOperator::Delete => 'd',
                VimOperator::Yank => 'y',
                VimOperator::Change => 'c',
            };
            let after = operand_key(m, operator, key_press(ch), count);
            &&& ch == own ==> after == match operator {
                VimOperator::Delete => edit_started(
                    m,
                    VimAction::Delete(VimEditTarget::Line),
                    count,
                ).0,
                VimOperator::Change => edit_started(
                    m,
                    VimAction::Change(VimEditTarget::Line),
                    count,
                ).0,
                VimOperator::Yank => lines_yanked(m, count),
            }
            &&& motion_of(ch) matches Some(motion) ==> after == operator_motion(
                m,
                operator,
                motion,
                count,
            )
            &&& ch == 'i' ==> after == waits(
                m,
                VimPending::TextObject { operator, scope: VimTextObjectScope::Inner, count },
            )
            &&& ch == 'a' ==> after == waits(
                m,
                VimPending::TextObject { operator, scope: VimTextObjectScope::Around, count },
            )
            &&& ch == 'g' ==> after == waits(
                m,
                VimPending::BufferStart { operator: Some(operator), count },
            )
        }),
{
    lemma_operand(m, operator, ch);
}

proof fn lemma_operand(m: AreaView, operator: VimOperator, ch: char)
    requires
        m.operator_keymap.is_default(),
    ensures
        motion_for(m.operator_keymap.motions, key_press(ch)) == motion_of(ch),
        crate::input::doubles(m, operator, key_press(ch)) == (ch == match operator {
            VimOperator::Delete => 'd',
            VimOperator::Yank => 'y',
            VimOperator::Change => 'c',
        }),
        scope_for(m.operator_keymap, key_press(ch)) == if ch == 'i' {
            Some(VimTextObjectScope::Inner)
        } else if ch == 'a' {
            Some(VimTextObjectScope::Around)
        } else {
            None
        },
        pressed(m.operator_keymap.motion_buffer_start@, key_press(ch)) == (ch == 'g'),
{
    law_motion_keys(m.operator_keymap.motions, ch);
    lemma_bound('d', ch);
    lemma_bound('y', ch);
    lemma_bound('c', ch);
    lemma_bound('i', ch);
    lemma_bound('a', ch);
    lemma_bound('g', ch);
}

/// A delete or change over a motion is an edit that can be repeated; a yank takes the same.
pub proof fn law_operators_over_motions(
    m: AreaView,
    motion: VimMotion,
    count: Option<usize>,
)
    ensures
        operator_motion(m, VimOperator::Delete, motion, count) == edit_started(
            m,
            VimAction::Delete(VimEditTarget::Motion(motion)),
            count,
        ).0,
        operator_motion(m, VimOperator::Change, motion, count) == edit_started(
            m,
            VimAction::Change(VimEditTarget::Motion(motion)),
            count,
        ).0,
        operator_motion(m, VimOperator::Yank, motion, count)
            == crate::operators::operator_applied(
            m,
            VimOperator::Yank,
            motion,
            crate::edit_laws::asked(count),
        ),
{
}

/// Behind an operator the find keys wait for their character, `;` and `,` repeat the last find, and
/// `G` takes lines up to a jump.
pub proof fn law_finds_behind_operators_have_their_keys(
    m: AreaView,
    operator: VimOperator,
    ch: char,
    count: Option<usize>,
)
    requires
        m.operator_keymap.is_default(),
    ensures
        ({
            let kind = if ch == 'f' {
                Some(VimFindKind::Forward)
            } else if ch == 'F' {
                Some(VimFindKind::Backward)
            } else if ch == 't' {
                Some(VimFindKind::TillForward)
            } else if ch == 'T' {
                Some(VimFindKind::TillBackward)
            } else {
                None
            };
            let once = match count {
                Some(n) => n,
                None => 1,
            };
            let after = operand_key(m, operator, key_press(ch), count);
            let last = VimEditTarget::BufferJump { last: true };
            &&& kind matches Some(kind) ==> after == waits(
                m,
                VimPending::Find { operator: Some(operator), kind, count },
            )
            &&& ch == ';' ==> after == find_repeated(m, false, Some(operator), once)
            &&& ch == ',' ==> after == find_repeated(m, true, Some(operator), once)
            &&& ch == 'G' ==> after == match operator {
                VimOperator::Delete => edit_started(m, VimAction::Delete(last), count).0,
                VimOperator::Change => edit_started(m, VimAction::Change(last), count).0,
                VimOperator::Yank => jumped(m, true, Some(operator), count),
            }
        }),
{
    lemma_operand(m, operator, ch);
    lemma_bound('f', ch);
    lemma_bound('F', ch);
    lemma_bound('t', ch);
    lemma_bound('T', ch);
    lemma_bound(';', ch);
    lemma_bound(',', ch);
    lemma_bound('G', ch);
    assert(!pressed(m.operator_keymap.motion_jump_top@, key_press(ch)));
}

/// A digit adds to the count, but a zero starts none; any other key of Normal mode is a command
/// that takes the count.
pub proof fn law_counts_go_to_the_next_command(m: AreaView, ch: char)
    requires
        m.pending is Idle,
    ensures
        ({
            let count = m.keys.count;
            let after = normal_key(m, key_press(ch));
            if '1' <= ch <= '9' || ch == '0' && count is Some {
                let so_far: int = match count {
                    Some(n) => n as int,
                    None => 0,
                };
                let next = so_far * 10 + (ch as int - '0' as int);
                &&& after.keys.count == Some(
                    if next > VIM_MAX_COUNT {
                        VIM_MAX_COUNT
                    } else if next < 1 {
                        1
                    } else {
                        next as usize
                    },
                )
                &&& after.buf == m.buf
            } else {
                after == command_key(
                    AreaView { keys: KeyStateView { count: None, ..m.keys }, ..m },
                    key_press(ch),
                    count,
                )
            }
        }),
{
    assert(m == (AreaView { pending: VimPending::Idle, ..m }));
}

/// A count before an operator and one behind it are multiplied, up to the maximum; one of them
/// alone stands for itself.
pub proof fn law_counts_multiply(a: usize, b: usize)
    ensures
        combined_count(Some(a), Some(b)) == Some(
            if a * b > VIM_MAX_COUNT {
                VIM_MAX_COUNT
            } else {
                (a * b) as usize
            },
        ),
        combined_count(Some(a), None) == combined_count(Some(a), Some(1)),
        combined_count(None, Some(a)) == combined_count(Some(a), Some(1)),
        combined_count(None, None) is None,
        combined_count(Some(a), Some(b)) == combined_count(Some(b), Some(a)),
        VIM_MAX_COUNT == 1000,
{
    assert(a * b == b * a) by (nonlinear_arith);
}

/// A digit key stands for its digit, and no other key for one.
pub proof fn law_digit_keys(event: KeyEvent)
    ensures
        count_digit(event) matches Some(d) ==> d <= 9 && event == key_press(
            (d + '0' as u8) as u8 as char,
        ),
        count_digit(event) is None ==> forall|ch: char|
            '0' <= ch <= '9' ==> event != #[trigger] key_press(ch),
{
}

/// A digit that is appended to a count makes it ten times as large and adds to it, within the
/// bounds.
pub proof fn law_digits_append(count: Option<usize>, digit: u8, least: usize)
    requires
        least <= VIM_MAX_COUNT,
    ensures
        ({
            let so_far: int = match count {
                Some(n) => n as int,
                None => 0,
            };
            let next = 10 * so_far + digit;
            let r = appended_digit(count, digit, least);
            &&& least <= r <= VIM_MAX_COUNT
            &&& least <= next <= VIM_MAX_COUNT ==> r == next
            &&& next < least ==> r == least
            &&& next > VIM_MAX_COUNT ==> r == VIM_MAX_COUNT
        }),
{
}

/// The character that a command waiting for one gets: what a plain key types, a newline from Enter,
/// a capital letter with Shift, and none with Control or Alt alone.
pub proof fn law_awaited_characters(ch: char)
    ensures
        command_char(key_press(ch)) == Some(ch),
        forall|modifiers: KeyModifiers| #[trigger]
            command_char(KeyEvent { code: KeyCode::Enter, modifiers }) == Some('\n'),
        !('a' <= ch <= 'z') ==> command_char(
            KeyEvent { code: KeyCode::Char(ch), modifiers: KeyModifiers::shift_held() },
        ) == Some(ch),
        'a' <= ch <= 'z' ==> (command_char(
            KeyEvent { code: KeyCode::Char(ch), modifiers: KeyModifiers::shift_held() },
        ) matches Some(up) && 'A' <= up <= 'Z' && up as int - 'A' as int == ch as int - 'a' as int),
        forall|modifiers: KeyModifiers|
            !modifiers.alt_gr && (modifiers.control || modifiers.alt) ==> #[trigger]
                command_char(KeyEvent { code: KeyCode::Char(ch), modifiers }) is None,
        command_char(
            KeyEvent { code: KeyCode::Backspace, modifiers: KeyModifiers::none_held() },
        ) is None,
{
    if 'a' <= ch <= 'z' {
        let u = ch as u8;
        assert(0x61 <= u <= 0x7a);
    }
}

/// `gg` goes to the first line, or to the line that was asked for, and behind an operator takes the
/// lines up to it. Any other second key ends the command.
pub proof fn law_second_keys_of_jumps(
    m: AreaView,
    operator: VimOperator,
    ch: char,
    count: Option<usize>,
)
    requires
        m.normal_keymap.is_default(),
        m.operator_keymap.is_default(),
    ensures
        ({
            let first = VimEditTarget::BufferJump { last: false };
            let alone = buffer_start_key(m, None, count, key_press(ch));
            let behind = buffer_start_key(m, Some(operator), count, key_press(ch));
            &&& ch != 'g' ==> alone == m && behind == m
            &&& ch == 'g' ==> alone == jumped(m, false, None, count)
            &&& ch == 'g' ==> behind == match operator {
                VimOperator::Delete => edit_started(m, VimAction::Delete(first), count).0,
                VimOperator::Change => edit_started(m, VimAction::Change(first), count).0,
                VimOperator::Yank => jumped(m, false, Some(operator), count),
            }
        }),
{
    lemma_bound('g', ch);
}

/// A key goes to the command that waits for it, which waits no more.
pub proof fn law_keys_go_to_the_waiting_command(m: AreaView, ch: char)
    ensures
        ({
            let idle = waits(m, VimPending::Idle);
            let event = key_press(ch);
            let after = normal_key(m, event);
            match m.pending {
                VimPending::Idle => true,
                VimPending::Operator { operator, operator_count, motion_count } => after
                    == operator_key(idle, operator, operator_count, motion_count, event),
                VimPending::TextObject { operator, scope, count } => after == object_key(
                    idle,
                    operator,
                    scope,
                    count,
                    event,
                ),
                VimPending::BufferStart { operator, count } => after == buffer_start_key(
                    idle,
                    operator,
                    count,
                    event,
                ),
                pending => after == pending_command(idle, pending, event),
            }
        }),
{
}

/// Each mode handles its keys: Normal mode takes commands, Escape leaves the others, and everything
/// else is typed there. A text area that is no Vim one types everything.
pub proof fn law_modes_handle_their_keys(m: AreaView, event: KeyEvent)
    ensures
        !m.enabled ==> key_handled(m, event) == editor_key(m, event),
        m.enabled && m.mode == VimMode::Normal ==> key_handled(m, event) == normal_key(m, event),
        m.enabled && m.mode != VimMode::Normal && event.code == KeyCode::Esc ==> key_handled(
            m,
            event,
        ) == insert_left(m),
        m.enabled && m.mode != VimMode::Normal && event.code != KeyCode::Esc ==> key_handled(
            m,
            event,
        ) == editor_key(m, event),
{
    reveal(key_handled);
}

} // verus!
