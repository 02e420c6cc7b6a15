//! What each key does.

use crate::actions::{command_times, times};
use crate::editing::yanked;
use crate::finds::jumped;
use crate::keymap::VimMotionKeymap;
use crate::keys::{
    command_char, count_digit, is_pressed, pressed, vim_command_char, vim_count_digit, KeyCode,
    KeyEvent, KeyModifiers,
};
use crate::lines::{counted_lines_end, line_start};
use crate::operators::{motion_applied, operated, operator_applied};
use crate::text::char_text;
use crate::text_objects::{object_for, object_range, scope_for};
use crate::textarea::{AreaView, KillBufferKind, TextArea};
use crate::typing::inserted;
use crate::vim::{
    appended_digit, change_finished, events_of, has_count, key_finished, recorded_vim_events,
    recounted, replace_recorded_vim_count, undone, with_count_tag, with_key, KeyStateView, UndoView,
    VimMode, VimMotion, VimOperator, VimPending, VimTextObjectScope,
};
use crate::vim_commands::{
    combined_count, combined_vim_count, edit_started, extra_command, insert_acted, insert_left,
    operator_command, operator_jump, pending_command, VimAction, VimEditTarget, VimInsertPosition,
};
use vstd::prelude::*;
use vstd::utf8::*;

verus! {

/// The motion that a key is bound to.
pub open spec fn motion_for(keymap: VimMotionKeymap, event: KeyEvent) -> Option<VimMotion> {
    if pressed(keymap.left@, event) {
        Some(VimMotion::Left)
    } else if pressed(keymap.right@, event) {
        Some(VimMotion::Right)
    } else if pressed(keymap.up@, event) {
        Some(VimMotion::Up)
    } else if pressed(keymap.down@, event) {
        Some(VimMotion::Down)
    } else if pressed(keymap.word_forward@, event) {
        Some(VimMotion::WordForward)
    } else if pressed(keymap.word_backward@, event) {
        Some(VimMotion::WordBackward)
    } else if pressed(keymap.word_end@, event) {
        Some(VimMotion::WordEnd)
    } else if pressed(keymap.big_word_forward@, event) {
        Some(VimMotion::BigWordForward)
    } else if pressed(keymap.big_word_backward@, event) {
        Some(VimMotion::BigWordBackward)
    } else if pressed(keymap.big_word_end@, event) {
        Some(VimMotion::BigWordEnd)
    } else if pressed(keymap.line_start@, event) {
        Some(VimMotion::LineStart)
    } else if pressed(keymap.first_non_blank@, event) {
        Some(VimMotion::FirstNonBlank)
    } else if pressed(keymap.line_end@, event) {
        Some(VimMotion::LineEnd)
    } else {
        None
    }
}

/// The digit by which a key extends a count: a zero starts none.
pub open spec fn further_digit(count: Option<usize>, event: KeyEvent) -> Option<u8> {
    match count_digit(event) {
        Some(digit) => if digit > 0 || count is Some {
            Some(digit)
        } else {
            None
        },
        None => None,
    }
}

/// The current and following lines put in the register.
pub open spec fn lines_yanked(m: AreaView, count: Option<usize>) -> AreaView {
    let t = m.buf.text;
    yanked(
        m,
        line_start(t, m.buf.cursor),
        counted_lines_end(t, m.buf.cursor, times(count)),
        KillBufferKind::Linewise,
    )
}

/// An operator that waits for what it works on.
pub open spec fn operator_pending(
    m: AreaView,
    operator: VimOperator,
    operator_count: Option<usize>,
    motion_count: Option<usize>,
) -> AreaView {
    AreaView { pending: VimPending::Operator { operator, operator_count, motion_count }, ..m }
}

/// The edit that a key of Normal mode starts, with the count that goes with it.
pub open spec fn edit_for(m: AreaView, event: KeyEvent, count: Option<usize>) -> Option<
    (VimAction, Option<usize>),
> {
    let keymap = m.normal_keymap;
    if pressed(keymap.enter_insert@, event) {
        Some((VimAction::Insert(VimInsertPosition::Cursor), None))
    } else if pressed(keymap.append@, event) {
        Some((VimAction::Insert(VimInsertPosition::AfterCursor), None))
    } else if pressed(keymap.insert_line_start@, event) {
        Some((VimAction::Insert(VimInsertPosition::LineStart), None))
    } else if pressed(keymap.append_line_end@, event) {
        Some((VimAction::Insert(VimInsertPosition::LineEnd), None))
    } else if pressed(keymap.open_below@, event) {
        Some((VimAction::Insert(VimInsertPosition::OpenBelow), None))
    } else if pressed(keymap.open_above@, event) {
        Some((VimAction::Insert(VimInsertPosition::OpenAbove), None))
    } else if pressed(keymap.delete_char@, event) {
        Some((VimAction::Delete(VimEditTarget::Character), count))
    } else if pressed(keymap.substitute_char@, event) {
        Some((VimAction::Change(VimEditTarget::Character), count))
    } else if pressed(keymap.delete_to_line_end@, event) {
        Some((VimAction::Delete(VimEditTarget::LineEnd), count))
    } else if pressed(keymap.change_to_line_end@, event) {
        Some((VimAction::Change(VimEditTarget::LineEnd), count))
    } else if pressed(keymap.change_whole_line@, event) {
        Some((VimAction::Change(VimEditTarget::Line), count))
    } else if pressed(keymap.paste_after@, event) {
        Some((VimAction::PasteAfter, count))
    } else {
        None
    }
}

/// A command key in Normal mode, with the count typed before it.
pub open spec fn command_key(m: AreaView, event: KeyEvent, count: Option<usize>) -> AreaView {
    let keymap = m.normal_keymap;
    match motion_for(keymap.motions, event) {
        Some(motion) => motion_applied(m, motion, times(count)),
        None => match edit_for(m, event, count) {
            Some((action, used)) => edit_started(m, action, used).0,
            None => if pressed(keymap.start_delete@, event) {
                operator_pending(m, VimOperator::Delete, count, None)
            } else if pressed(keymap.start_yank@, event) {
                operator_pending(m, VimOperator::Yank, count, None)
            } else if pressed(keymap.start_change@, event) {
                operator_pending(m, VimOperator::Change, count, None)
            } else if pressed(keymap.yank_line@, event) {
                lines_yanked(m, count)
            } else if pressed(keymap.undo@, event) {
                undone(m)
            } else if pressed(keymap.move_buffer_start@, event) {
                AreaView { pending: VimPending::BufferStart { operator: None, count }, ..m }
            } else if pressed(keymap.move_buffer_end@, event) {
                jumped(m, true, None, count)
            } else {
                extra_command(m, event, count).0
            },
        },
    }
}

/// A key in Normal mode when no command is under way: a digit of a count, or a command.
pub open spec fn idle_key(m: AreaView, event: KeyEvent) -> AreaView {
    let count = m.keys.count;
    match further_digit(count, event) {
        Some(digit) => with_count_tag(
            AreaView {
                keys: KeyStateView { count: Some(appended_digit(count, digit, 1)), ..m.keys },
                ..m
            },
        ),
        None => command_key(
            AreaView { keys: KeyStateView { count: None, ..m.keys }, ..m },
            event,
            count,
        ),
    }
}

/// An operator over a target: as a change that can be replayed, or as a yank.
pub open spec fn operator_motion(
    m: AreaView,
    operator: VimOperator,
    motion: VimMotion,
    count: Option<usize>,
) -> AreaView {
    let target = VimEditTarget::Motion(motion);
    match operator {
        VimOperator::Delete => edit_started(m, VimAction::Delete(target), count).0,
        VimOperator::Change => edit_started(m, VimAction::Change(target), count).0,
        VimOperator::Yank => operator_applied(m, operator, motion, times(count)),
    }
}

/// Whether a key is the second one of `dd`, `yy` or `cc`.
pub open spec fn doubles(m: AreaView, operator: VimOperator, event: KeyEvent) -> bool {
    match operator {
        VimOperator::Delete => pressed(m.operator_keymap.delete_line@, event),
        VimOperator::Yank => pressed(m.operator_keymap.yank_line@, event),
        VimOperator::Change => pressed(m.operator_keymap.change_line@, event),
    }
}

/// An operator on whole lines.
pub open spec fn operator_lines(
    m: AreaView,
    operator: VimOperator,
    count: Option<usize>,
) -> AreaView {
    match operator {
        VimOperator::Delete => edit_started(m, VimAction::Delete(VimEditTarget::Line), count).0,
        VimOperator::Change => edit_started(m, VimAction::Change(VimEditTarget::Line), count).0,
        VimOperator::Yank => lines_yanked(m, count),
    }
}

/// The key that says what an operator works on.
pub open spec fn operand_key(
    m: AreaView,
    operator: VimOperator,
    event: KeyEvent,
    count: Option<usize>,
) -> AreaView {
    let keymap = m.operator_keymap;
    if doubles(m, operator, event) {
        operator_lines(m, operator, count)
    } else {
        match motion_for(keymap.motions, event) {
            Some(motion) => operator_motion(m, operator, motion, count),
            None => match scope_for(keymap, event) {
                Some(scope) => AreaView {
                    pending: VimPending::TextObject { operator, scope, count },
                    ..m
                },
                None => if pressed(keymap.motion_buffer_start@, event) {
                    AreaView {
                        pending: VimPending::BufferStart { operator: Some(operator), count },
                        ..m
                    }
                } else {
                    operator_command(m, operator, event, count).0
                },
            },
        }
    }
}

/// A key behind an operator: a digit of a count, or what the operator works on.
pub open spec fn operator_key(
    m: AreaView,
    operator: VimOperator,
    operator_count: Option<usize>,
    motion_count: Option<usize>,
    event: KeyEvent,
) -> AreaView {
    match further_digit(motion_count, event) {
        Some(digit) => with_count_tag(
            operator_pending(
                m,
                operator,
                operator_count,
                Some(appended_digit(motion_count, digit, 1)),
            ),
        ),
        None => operand_key(m, operator, event, combined_count(operator_count, motion_count)),
    }
}

/// The key that names a text object behind an operator.
pub open spec fn object_key(
    m: AreaView,
    operator: VimOperator,
    scope: VimTextObjectScope,
    count: Option<usize>,
    event: KeyEvent,
) -> AreaView {
    match object_for(m.object_keymap, event) {
        None => m,
        Some(object) => {
            let target = VimEditTarget::TextObject { scope, object };
            match operator {
                VimOperator::Delete => edit_started(m, VimAction::Delete(target), count).0,
                VimOperator::Change => edit_started(m, VimAction::Change(target), count).0,
                VimOperator::Yank => match object_range(
                    m.buf.text,
                    m.buf.elements,
                    m.buf.cursor,
                    object,
                    scope,
                ) {
                    Some((a, z)) => operated(m, operator, a, z),
                    None => m,
                },
            }
        },
    }
}

/// The second key of `gg`, alone or behind an operator; any other key ends the command.
pub open spec fn buffer_start_key(
    m: AreaView,
    operator: Option<VimOperator>,
    count: Option<usize>,
    event: KeyEvent,
) -> AreaView {
    match operator {
        None => if pressed(m.normal_keymap.move_buffer_start@, event) {
            jumped(m, false, None, count)
        } else {
            m
        },
        Some(operator) => if pressed(m.operator_keymap.motion_buffer_start@, event) {
            operator_jump(m, operator, false, count)
        } else {
            m
        },
    }
}

/// A key in Normal mode. Escape ends the command and the count under way.
pub open spec fn normal_key(m: AreaView, event: KeyEvent) -> AreaView {
    let idle = AreaView { pending: VimPending::Idle, ..m };
    if event.code == KeyCode::Esc {
        AreaView { keys: KeyStateView { count: None, ..m.keys }, ..idle }
    } else {
        match m.pending {
            VimPending::Idle => idle_key(idle, event),
            VimPending::Operator { operator, operator_count, motion_count } => operator_key(
                idle,
                operator,
                operator_count,
                motion_count,
                event,
            ),
            VimPending::TextObject { operator, scope, count } => object_key(
                idle,
                operator,
                scope,
                count,
                event,
            ),
            VimPending::BufferStart { operator, count } => buffer_start_key(
                idle,
                operator,
                count,
                event,
            ),
            pending => pending_command(idle, pending, event),
        }
    }
}

/// Control alone held.
pub open spec fn control_held() -> KeyModifiers {
    KeyModifiers { shift: false, control: true, alt: false, alt_gr: false }
}

/// Alt alone held.
pub open spec fn alt_held() -> KeyModifiers {
    KeyModifiers { shift: false, control: false, alt: true, alt_gr: false }
}

/// The action of an editing key that types no text.
pub open spec fn editor_action(event: KeyEvent, replacing: bool) -> Option<VimAction> {
    if event.modifiers == KeyModifiers::none_held() {
        match event.code {
            KeyCode::Backspace => if replacing {
                Some(VimAction::RestoreReplacedCharacter)
            } else {
                Some(VimAction::DeleteBackward)
            },
            KeyCode::Delete => Some(VimAction::DeleteForward),
            KeyCode::Left => Some(VimAction::MoveLeft),
            KeyCode::Right => Some(VimAction::MoveRight),
            KeyCode::Up => Some(VimAction::MoveUp),
            KeyCode::Down => Some(VimAction::MoveDown),
            KeyCode::Home => Some(VimAction::MoveLineStart { move_up_at_bol: false }),
            KeyCode::End => Some(VimAction::MoveLineEnd { move_down_at_eol: false }),
            _ => None,
        }
    } else if event.modifiers == control_held() {
        match event.code {
            KeyCode::Char(c) => if c == 'a' {
                Some(VimAction::MoveLineStart { move_up_at_bol: true })
            } else if c == 'e' {
                Some(VimAction::MoveLineEnd { move_down_at_eol: true })
            } else if c == 'w' {
                Some(VimAction::DeleteBackwardWord)
            } else if c == 'u' {
                Some(VimAction::KillLineStart)
            } else if c == 'k' {
                Some(VimAction::KillLineEnd)
            } else {
                None
            },
            _ => None,
        }
    } else if event.modifiers == alt_held() {
        match event.code {
            KeyCode::Char(c) => if c == 'b' {
                Some(VimAction::MoveWordLeft)
            } else if c == 'f' {
                Some(VimAction::MoveWordRight)
            } else if c == 'd' {
                Some(VimAction::DeleteForwardWord)
            } else {
                None
            },
            _ => None,
        }
    } else {
        None
    }
}

/// A key that edits the text at the cursor or types into it.
pub open spec fn editor_key(m: AreaView, event: KeyEvent) -> AreaView {
    match editor_action(event, m.enabled && m.mode == VimMode::Replace) {
        Some(action) => insert_acted(m, action).0,
        None => match command_char(event) {
            Some(ch) => inserted(m, encode_scalar(ch as u32)),
            None => m,
        },
    }
}

/// A key handled by the mode.
#[verifier::opaque]
pub open spec fn key_handled(m: AreaView, event: KeyEvent) -> AreaView {
    if !m.enabled {
        editor_key(m, event)
    } else if m.mode == VimMode::Normal {
        normal_key(m, event)
    } else if event.code == KeyCode::Esc {
        insert_left(m)
    } else {
        editor_key(m, event)
    }
}

/// A key typed into the text area.
pub open spec fn typed(m: AreaView, event: KeyEvent) -> AreaView {
    if !m.enabled {
        key_handled(m, event)
    } else {
        key_finished(change_finished(key_handled(with_key(m, event), event)))
    }
}

/// Keys from the `i`-th on typed one after the other.
pub open spec fn all_typed(m: AreaView, events: Seq<KeyEvent>, i: int) -> AreaView
    decreases events.len() - i,
{
    if i < 0 || i >= events.len() {
        m
    } else {
        all_typed(typed(m, events[i]), events, i + 1)
    }
}

/// Keys typed `n` times over.
pub open spec fn typed_times(m: AreaView, events: Seq<KeyEvent>, n: nat) -> AreaView
    decreases n,
{
    if n == 0 {
        m
    } else {
        typed_times(all_typed(m, events, 0), events, (n - 1) as nat)
    }
}

/// The keys of the last change typed again: with the count in them replaced, or, where they hold
/// none, as often as the count says.
pub open spec fn keys_repeated(m: AreaView, count: Option<usize>) -> AreaView {
    let keys = m.keys.last_change;
    if keys.len() == 0 {
        m
    } else {
        let ready = AreaView {
            keys: KeyStateView { pending_keys: Seq::empty(), replaying: true, ..m.keys },
            ..m
        };
        let after = match count {
            Some(n) => if has_count(keys) {
                typed_times(ready, recounted(keys, n as nat), 1)
            } else {
                typed_times(ready, events_of(keys), n as nat)
            },
            None => typed_times(ready, events_of(keys), 1),
        };
        AreaView { keys: KeyStateView { replaying: false, ..after.keys }, ..after }
    }
}

/// The label of a mode.
pub open spec fn mode_label(mode: VimMode) -> Seq<char> {
    match mode {
        VimMode::Normal => "Normal"@,
        VimMode::Insert => "Insert"@,
        VimMode::Replace => "Replace"@,
    }
}

/// The motion that `event` is bound to.
fn vim_motion_for_event(keymap: &VimMotionKeymap, event: KeyEvent) -> (r: Option<VimMotion>)
    ensures
        r == motion_for(*keymap, event),
{
    if is_pressed(&keymap.left, event) {
        Some(VimMotion::Left)
    } else if is_pressed(&keymap.right, event) {
        Some(VimMotion::Right)
    } else if is_pressed(&keymap.up, event) {
        Some(VimMotion::Up)
    } else if is_pressed(&keymap.down, event) {
        Some(VimMotion::Down)
    } else if is_pressed(&keymap.word_forward, event) {
        Some(VimMotion::WordForward)
    } else if is_pressed(&keymap.word_backward, event) {
        Some(VimMotion::WordBackward)
    } else if is_pressed(&keymap.word_end, event) {
        Some(VimMotion::WordEnd)
    } else if is_pressed(&keymap.big_word_forward, event) {
        Some(VimMotion::BigWordForward)
    } else if is_pressed(&keymap.big_word_backward, event) {
        Some(VimMotion::BigWordBackward)
    } else if is_pressed(&keymap.big_word_end, event) {
        Some(VimMotion::BigWordEnd)
    } else if is_pressed(&keymap.line_start, event) {
        Some(VimMotion::LineStart)
    } else if is_pressed(&keymap.first_non_blank, event) {
        Some(VimMotion::FirstNonBlank)
    } else if is_pressed(&keymap.line_end, event) {
        Some(VimMotion::LineEnd)
    } else {
        None
    }
}

/// The digit by which `event` extends `count`.
fn next_count_digit(count: Option<usize>, event: KeyEvent) -> (r: Option<u8>)
    ensures
        r == further_digit(count, event),
{
    match vim_count_digit(event) {
        Some(digit) => if digit > 0 || count.is_some() {
            Some(digit)
        } else {
            None
        },
        None => None,
    }
}

/// The action of an editing key that types no text.
fn editor_action_for(event: KeyEvent, replacing: bool) -> (r: Option<VimAction>)
    ensures
        r == editor_action(event, replacing),
{
    let control = KeyModifiers { shift: false, control: true, alt: false, alt_gr: false };
    let alt = KeyModifiers { shift: false, control: false, alt: true, alt_gr: false };
    if event.modifiers == KeyModifiers::none() {
        match event.code {
            KeyCode::Backspace => if replacing {
                Some(VimAction::RestoreReplacedCharacter)
            } else {
                Some(VimAction::DeleteBackward)
            },
            KeyCode::Delete => Some(VimAction::DeleteForward),
            KeyCode::Left => Some(VimAction::MoveLeft),
            KeyCode::Right => Some(VimAction::MoveRight),
            KeyCode::Up => Some(VimAction::MoveUp),
            KeyCode::Down => Some(VimAction::MoveDown),
            KeyCode::Home => Some(VimAction::MoveLineStart { move_up_at_bol: false }),
            KeyCode::End => Some(VimAction::MoveLineEnd { move_down_at_eol: false }),
            _ => None,
        }
    } else if event.modifiers == control {
        match event.code {
            KeyCode::Char(c) => if c == 'a' {
                Some(VimAction::MoveLineStart { move_up_at_bol: true })
            } else if c == 'e' {
                Some(VimAction::MoveLineEnd { move_down_at_eol: true })
            } else if c == 'w' {
                Some(VimAction::DeleteBackwardWord)
            } else if c == 'u' {
                Some(VimAction::KillLineStart)
            } else if c == 'k' {
                Some(VimAction::KillLineEnd)
            } else {
                None
            },
            _ => None,
        }
    } else if event.modifiers == alt {
        match event.code {
            KeyCode::Char(c) => if c == 'b' {
                Some(VimAction::MoveWordLeft)
            } else if c == 'f' {
                Some(VimAction::MoveWordRight)
            } else if c == 'd' {
                Some(VimAction::DeleteForwardWord)
            } else {
                None
            },
            _ => None,
        }
    } else {
        None
    }
}

impl TextArea {
    /// Put the current and following lines in the register.
    fn yank_lines(&mut self, count: Option<usize>)
        requires
            old(self).wf(),
        ensures
            final(self)@ == lines_yanked(old(self)@, count),
            final(self).wf(),
    {
        let range = self.counted_line_range(command_times(count));
        self.yank_line_range(range);
    }

    /// The edit that `event` starts in Normal mode.
    fn edit_for_event(&self, event: KeyEvent, count: Option<usize>) -> (r: Option<
        (VimAction, Option<usize>),
    >)
        ensures
            r == edit_for(self@, event, count),
    {
        let keymap = &self.vim_normal_keymap;
        if is_pressed(&keymap.enter_insert, event) {
            Some((VimAction::Insert(VimInsertPosition::Cursor), None))
        } else if is_pressed(&keymap.append, event) {
            Some((VimAction::Insert(VimInsertPosition::AfterCursor), None))
        } else if is_pressed(&keymap.insert_line_start, event) {
            Some((VimAction::Insert(VimInsertPosition::LineStart), None))
        } else if is_pressed(&keymap.append_line_end, event) {
            Some((VimAction::Insert(VimInsertPosition::LineEnd), None))
        } else if is_pressed(&keymap.open_below, event) {
            Some((VimAction::Insert(VimInsertPosition::OpenBelow), None))
        } else if is_pressed(&keymap.open_above, event) {
            Some((VimAction::Insert(VimInsertPosition::OpenAbove), None))
        } else if is_pressed(&keymap.delete_char, event) {
            Some((VimAction::Delete(VimEditTarget::Character), count))
        } else if is_pressed(&keymap.substitute_char, event) {
            Some((VimAction::Change(VimEditTarget::Character), count))
        } else if is_pressed(&keymap.delete_to_line_end, event) {
            Some((VimAction::Delete(VimEditTarget::LineEnd), count))
        } else if is_pressed(&keymap.change_to_line_end, event) {
            Some((VimAction::Change(VimEditTarget::LineEnd), count))
        } else if is_pressed(&keymap.change_whole_line, event) {
            Some((VimAction::Change(VimEditTarget::Line), count))
        } else if is_pressed(&keymap.paste_after, event) {
            Some((VimAction::PasteAfter, count))
        } else {
            None
        }
    }

    /// A command key in Normal mode.
    fn handle_vim_command_key(&mut self, event: KeyEvent, count: Option<usize>)
        requires
            old(self).wf(),
        ensures
            final(self)@ == command_key(old(self)@, event, count),
            final(self).wf(),
    {
        match vim_motion_for_event(&self.vim_normal_keymap.motions, event) {
            Some(motion) => {
                self.apply_vim_motion(motion, command_times(count));
            },
            None => match self.edit_for_event(event, count) {
                Some((action, used)) => {
                    self.start_vim_edit(action, used);
                },
                None => self.handle_other_vim_command_key(event, count),
            },
        }
    }

    /// A command key in Normal mode that is neither a motion nor an edit.
    fn handle_other_vim_command_key(&mut self, event: KeyEvent, count: Option<usize>)
        requires
            old(self).wf(),
            motion_for(old(self)@.normal_keymap.motions, event) is None,
            edit_for(old(self)@, event, count) is None,
        ensures
            final(self)@ == command_key(old(self)@, event, count),
            final(self).wf(),
    {
        let motion_count: Option<usize> = None;
        if is_pressed(&self.vim_normal_keymap.start_delete, event) {
            let operator = VimOperator::Delete;
            let operator_count = count;
            self.vim_pending = VimPending::Operator { operator, operator_count, motion_count };
        } else if is_pressed(&self.vim_normal_keymap.start_yank, event) {
            let operator = VimOperator::Yank;
            let operator_count = count;
            self.vim_pending = VimPending::Operator { operator, operator_count, motion_count };
        } else if is_pressed(&self.vim_normal_keymap.start_change, event) {
            let operator = VimOperator::Change;
            let operator_count = count;
            self.vim_pending = VimPending::Operator { operator, operator_count, motion_count };
        } else if is_pressed(&self.vim_normal_keymap.yank_line, event) {
            self.yank_lines(count);
        } else if is_pressed(&self.vim_normal_keymap.undo, event) {
            self.undo_vim_edit();
        } else if is_pressed(&self.vim_normal_keymap.move_buffer_start, event) {
            self.vim_pending = VimPending::BufferStart { operator: None, count };
        } else if is_pressed(&self.vim_normal_keymap.move_buffer_end, event) {
            self.jump_to_vim_buffer_line(true, None, count);
        } else {
            self.handle_vim_extra_command(event, count);
        }
    }

    /// A key in Normal mode when no command is under way.
    fn handle_vim_idle_key(&mut self, event: KeyEvent)
        requires
            old(self).wf(),
        ensures
            final(self)@ == idle_key(old(self)@, event),
            final(self).wf(),
    {
        let mut count: Option<usize> = self.vim_command.count;
        match next_count_digit(count, event) {
            Some(digit) => {
                TextArea::push_vim_count_digit(&mut count, digit);
                self.vim_command.count = count;
                self.mark_vim_key_as_count();
            },
            None => {
                self.vim_command.count = None;
                self.handle_vim_command_key(event, count);
            },
        }
    }

    /// Apply an operator over a motion.
    fn operate_over_motion(&mut self, operator: VimOperator, motion: VimMotion, count: Option<
        usize,
    >)
        requires
            old(self).wf(),
        ensures
            final(self)@ == operator_motion(old(self)@, operator, motion, count),
            final(self).wf(),
    {
        match operator {
            VimOperator::Delete => {
                self.start_vim_edit(VimAction::Delete(VimEditTarget::Motion(motion)), count);
            },
            VimOperator::Change => {
                self.start_vim_edit(VimAction::Change(VimEditTarget::Motion(motion)), count);
            },
            VimOperator::Yank => self.apply_vim_operator(operator, motion, command_times(count)),
        }
    }

    /// Apply an operator to whole lines.
    fn operate_on_lines(&mut self, operator: VimOperator, count: Option<usize>)
        requires
            old(self).wf(),
        ensures
            final(self)@ == operator_lines(old(self)@, operator, count),
            final(self).wf(),
    {
        match operator {
            VimOperator::Delete => {
                self.start_vim_edit(VimAction::Delete(VimEditTarget::Line), count);
            },
            VimOperator::Change => {
                self.start_vim_edit(VimAction::Change(VimEditTarget::Line), count);
            },
            VimOperator::Yank => self.yank_lines(count),
        }
    }

    /// The key that says what an operator works on.
    fn handle_vim_operand_key(
        &mut self,
        operator: VimOperator,
        event: KeyEvent,
        count: Option<usize>,
    )
        requires
            old(self).wf(),
        ensures
            final(self)@ == operand_key(old(self)@, operator, event, count),
            final(self).wf(),
    {
        let doubled = match operator {
            VimOperator::Delete => is_pressed(&self.vim_operator_keymap.delete_line, event),
            VimOperator::Yank => is_pressed(&self.vim_operator_keymap.yank_line, event),
            VimOperator::Change => is_pressed(&self.vim_operator_keymap.change_line, event),
        };
        if doubled {
            self.operate_on_lines(operator, count);
            return;
        }
        match vim_motion_for_event(&self.vim_operator_keymap.motions, event) {
            Some(motion) => self.operate_over_motion(operator, motion, count),
            None => match self.vim_text_object_scope_for_event(event) {
                Some(scope) => {
                    self.vim_pending = VimPending::TextObject { operator, scope, count };
                },
                None => {
                    if is_pressed(&self.vim_operator_keymap.motion_buffer_start, event) {
                        self.vim_pending = VimPending::BufferStart {
                            operator: Some(operator),
                            count,
                        };
                    } else {
                        self.handle_vim_operator_command(operator, event, count);
                    }
                },
            },
        }
    }

    /// A key behind an operator.
    fn handle_vim_operator_key(
        &mut self,
        operator: VimOperator,
        operator_count: Option<usize>,
        motion_count: Option<usize>,
        event: KeyEvent,
    )
        requires
            old(self).wf(),
        ensures
            final(self)@ == operator_key(
                old(self)@,
                operator,
                operator_count,
                motion_count,
                event,
            ),
            final(self).wf(),
    {
        match next_count_digit(motion_count, event) {
            Some(digit) => {
                let mut motion_count = motion_count;
                TextArea::push_vim_count_digit(&mut motion_count, digit);
                self.vim_pending = VimPending::Operator { operator, operator_count, motion_count };
                self.mark_vim_key_as_count();
            },
            None => {
                let count = combined_vim_count(operator_count, motion_count);
                self.handle_vim_operand_key(operator, event, count);
            },
        }
    }

    /// The key that names a text object behind an operator.
    fn handle_vim_object_key(
        &mut self,
        operator: VimOperator,
        scope: VimTextObjectScope,
        count: Option<usize>,
        event: KeyEvent,
    )
        requires
            old(self).wf(),
        ensures
            final(self)@ == object_key(old(self)@, operator, scope, count, event),
            final(self).wf(),
    {
        match self.vim_text_object_for_event(event) {
            None => {},
            Some(object) => {
                let target = VimEditTarget::TextObject { scope, object };
                match operator {
                    VimOperator::Delete => {
                        self.start_vim_edit(VimAction::Delete(target), count);
                    },
                    VimOperator::Change => {
                        self.start_vim_edit(VimAction::Change(target), count);
                    },
                    VimOperator::Yank => {
                        if let Some(range) = self.text_object_range(object, scope) {
                            self.apply_vim_operator_to_range(operator, range);
                        }
                    },
                }
            },
        }
    }

    /// The second key of `gg`, alone or behind an operator.
    fn handle_vim_buffer_start_key(
        &mut self,
        operator: Option<VimOperator>,
        count: Option<usize>,
        event: KeyEvent,
    )
        requires
            old(self).wf(),
        ensures
            final(self)@ == buffer_start_key(old(self)@, operator, count, event),
            final(self).wf(),
    {
        match operator {
            None => {
                if is_pressed(&self.vim_normal_keymap.move_buffer_start, event) {
                    self.jump_to_vim_buffer_line(false, None, count);
                }
            },
            Some(operator) => {
                if is_pressed(&self.vim_operator_keymap.motion_buffer_start, event) {
                    self.operate_to_buffer_line(operator, false, count);
                }
            },
        }
    }

    /// A key in Normal mode.
    fn handle_vim_normal_key(&mut self, event: KeyEvent)
        requires
            old(self).wf(),
        ensures
            final(self)@ == normal_key(old(self)@, event),
            final(self).wf(),
    {
        let pending = self.vim_pending;
        self.vim_pending = VimPending::Idle;
        if event.code == KeyCode::Esc {
            self.vim_command.count = None;
            return;
        }
        match pending {
            VimPending::Idle => self.handle_vim_idle_key(event),
            VimPending::Operator { operator, operator_count, motion_count } => {
                self.handle_vim_operator_key(operator, operator_count, motion_count, event);
            },
            VimPending::TextObject { operator, scope, count } => {
                self.handle_vim_object_key(operator, scope, count, event);
            },
            VimPending::BufferStart { operator, count } => {
                self.handle_vim_buffer_start_key(operator, count, event);
            },
            _ => self.handle_vim_pending_command(pending, event),
        }
    }

    /// A key that edits the text at the cursor or types into it.
    fn handle_editor_key(&mut self, event: KeyEvent)
        requires
            old(self).wf(),
        ensures
            final(self)@ == editor_key(old(self)@, event),
            final(self).wf(),
    {
        match editor_action_for(event, self.is_vim_replace_mode()) {
            Some(action) => {
                self.apply_vim_insert_action(action);
            },
            None => {
                if let Some(ch) = vim_command_char(event) {
                    self.insert_str(&char_text(ch));
                }
            },
        }
    }

    /// A key handled by the mode.
    fn handle_key(&mut self, event: KeyEvent)
        requires
            old(self).wf(),
        ensures
            final(self)@ == key_handled(old(self)@, event),
            final(self).wf(),
    {
        proof {
            reveal(key_handled);
        }
        if !self.vim_enabled {
            self.handle_editor_key(event);
        } else if self.vim_mode == VimMode::Normal {
            self.handle_vim_normal_key(event);
        } else if event.code == KeyCode::Esc {
            self.leave_vim_insert_mode();
        } else {
            self.handle_editor_key(event);
        }
    }

    /// Type a key into the text area.
    pub fn input(&mut self, event: KeyEvent)
        requires
            old(self).wf(),
        ensures
            final(self)@ == typed(old(self)@, event),
            final(self).wf(),
    {
        if !self.vim_enabled {
            self.handle_key(event);
            return;
        }
        self.begin_vim_key(event);
        self.handle_key(event);
        self.finish_vim_text_change();
        self.finish_vim_key();
    }

    /// Type keys a number of times over.
    fn type_keys(&mut self, events: &Vec<KeyEvent>, n: usize)
        requires
            old(self).wf(),
        ensures
            final(self)@ == typed_times(old(self)@, events@, n as nat),
            final(self).wf(),
    {
        let mut left: usize = n;
        while left > 0
            invariant
                self.wf(),
                typed_times(self@, events@, left as nat) == typed_times(
                    old(self)@,
                    events@,
                    n as nat,
                ),
            decreases left,
        {
            let ghost round = self@;
            let mut i: usize = 0;
            while i < events.len()
                invariant
                    self.wf(),
                    i <= events.len(),
                    all_typed(self@, events@, i as int) == all_typed(round, events@, 0),
                decreases events.len() - i,
            {
                self.input(events[i]);
                i = i + 1;
            }
            left = left - 1;
        }
    }

    /// Type the keys of the last change again.
    ///
    /// A count takes the place of the recorded one, so `2x` repeated with 3 deletes three
    /// characters, not six. With no recorded count there is nothing to substitute into, so the
    /// keys are repeated instead; that keeps insert sessions, which ignore counts, correct.
    pub fn repeat_recorded_vim_keys(&mut self, count: Option<usize>)
        requires
            old(self).wf(),
        ensures
            final(self)@ == keys_repeated(old(self)@, count),
            final(self).wf(),
    {
        if self.vim_command.last_change.len() == 0 {
            return;
        }
        let counted = holds_count(&self.vim_command.last_change);
        let (events, n): (Vec<KeyEvent>, usize) = match count {
            Some(count) => if counted {
                (replace_recorded_vim_count(&self.vim_command.last_change, count), 1)
            } else {
                (recorded_vim_events(&self.vim_command.last_change), count)
            },
            None => (recorded_vim_events(&self.vim_command.last_change), 1),
        };
        self.vim_command.pending_keys.clear();
        self.vim_command.replaying = true;
        self.type_keys(&events, n);
        self.vim_command.replaying = false;
    }

    /// Turn Vim editing on or off. Either way it starts over in Normal mode with nothing to undo.
    pub fn set_vim_enabled(&mut self, enabled: bool)
        requires
            old(self).wf(),
        ensures
            final(self)@ == (AreaView {
                enabled,
                mode: VimMode::Normal,
                pending: VimPending::Idle,
                keys: KeyStateView::fresh(),
                undo: UndoView::fresh(),
                ..old(self)@
            }),
            final(self).wf(),
    {
        self.vim_enabled = enabled;
        self.vim_mode = VimMode::Normal;
        self.clear_vim_command_state();
        self.clear_vim_undo();
    }

    /// The name of the mode, while Vim editing is on.
    pub fn vim_mode_label(&self) -> (r: Option<&'static str>)
        ensures
            match r {
                Some(label) => self@.enabled && label@ == mode_label(self@.mode),
                None => !self@.enabled,
            },
    {
        if !self.vim_enabled {
            return None;
        }
        Some(
            match self.vim_mode {
                VimMode::Normal => "Normal",
                VimMode::Insert => "Insert",
                VimMode::Replace => "Replace",
            },
        )
    }

    /// Whether a command or a count is under way.
    pub fn is_vim_operator_pending(&self) -> (r: bool)
        ensures
            r == (!(self@.pending is Idle) || self@.keys.count is Some),
    {
        !matches!(self.vim_pending, VimPending::Idle) || self.vim_command.count.is_some()
    }
}

/// Whether recorded keys hold a count.
fn holds_count(keys: &Vec<crate::vim::VimRecordedKey>) -> (r: bool)
    ensures
        r == has_count(keys@),
{
    let mut i: usize = 0;
    while i < keys.len()
        invariant
            i <= keys.len(),
            forall|j: int| 0 <= j < i ==> !(#[trigger] keys@[j]).is_count,
        decreases keys.len() - i,
    {
        if keys[i].is_count {
            return true;
        }
        i = i + 1;
    }
    false
}

} // verus!
