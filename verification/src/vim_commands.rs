//! Editing transactions, character find and till motions, and complete-change replay.
//!
//! `f`/`F` land on a matching grapheme; `t`/`T` stop just before/after it. Forward operator
//! motions hold the destination, while backward motions leave out the original cursor. All four
//! motions share these boundaries for navigation, `c`/`d`/`y`, and `.` replay.
//!
//! A count typed before a command is stored with the recorded edit, so `3.` can replace it.

use crate::actions::acted;
use crate::buffer::{covered, lemma_uncovered_edges, prev_atomic};
use crate::finds::{found, jumped, till_adjacent};
use crate::keys::{command_char, is_pressed, pressed, vim_command_char, KeyEvent};
use crate::lines::{line_end, line_start};
use crate::search::SearchQuery;
use crate::text::{byte_len, plain_text};
use crate::textarea::{with_cursor, AreaView, TextArea};
use crate::typing::{inserted, records_typing};
use crate::vim::{
    appended_digit, change_committed, VIM_MAX_COUNT, KeyStateView, VimFind, VimFindKind,
    VimIndentDirection, VimMode, VimMotion, VimOperator, VimPending, VimTextObject,
    VimTextObjectScope,
};
use vstd::prelude::*;
use vstd::utf8::*;

verus! {

/// The kind of a find motion.
pub type VimFindMotion = VimFindKind;

/// One step of a recorded change.
#[derive(Debug)]
pub enum VimEdit {
    Editor(VimEditorEdit),
    Text(String),
}

/// An editor action with its count.
#[derive(Debug)]
pub struct VimEditorEdit {
    pub action: VimAction,
    /// Explicit count typed before the command; `None` means the command default.
    pub count: Option<usize>,
}

/// Vim command recording and searches preserved across same-draft restoration.
#[derive(Debug)]
pub struct VimPersistentState {
    pub commands: VimCommandState,
    pub search: SearchQuery,
}

#[derive(Clone, Copy, Debug, PartialEq, Eq, Structural)]
pub enum VimInsertPosition {
    Cursor,
    AfterCursor,
    LineStart,
    LineEnd,
    OpenAbove,
    OpenBelow,
}

/// What a delete or change works on.
#[derive(Debug)]
pub enum VimEditTarget {
    Character,
    Line,
    LineEnd,
    Motion(VimMotion),
    Search(SearchQuery),
    TextObject { scope: VimTextObjectScope, object: VimTextObject },
    Find { motion: VimFindMotion, target: char },
    BufferJump { last: bool },
}

impl Clone for VimEditTarget {
    fn clone(&self) -> (r: Self)
        ensures
            r == *self,
    {
        match self {
            VimEditTarget::Character => VimEditTarget::Character,
            VimEditTarget::Line => VimEditTarget::Line,
            VimEditTarget::LineEnd => VimEditTarget::LineEnd,
            VimEditTarget::Motion(motion) => VimEditTarget::Motion(*motion),
            VimEditTarget::Search(query) => VimEditTarget::Search(query.clone()),
            VimEditTarget::TextObject { scope, object } => VimEditTarget::TextObject {
                scope: *scope,
                object: *object,
            },
            VimEditTarget::Find { motion, target } => VimEditTarget::Find {
                motion: *motion,
                target: *target,
            },
            VimEditTarget::BufferJump { last } => VimEditTarget::BufferJump { last: *last },
        }
    }
}

/// An action that can be recorded and replayed.
#[derive(Debug)]
pub enum VimAction {
    Insert(VimInsertPosition),
    EnterReplaceMode,
    RestoreReplacedCharacter,
    Delete(VimEditTarget),
    Change(VimEditTarget),
    Replace(char),
    PasteAfter,
    PasteBefore,
    JoinLines,
    Indent(VimIndentDirection),
    DeleteBackward,
    DeleteForward,
    DeleteBackwardWord,
    DeleteForwardWord,
    KillLineStart,
    KillLine,
    KillLineEnd,
    MoveLeft,
    MoveRight,
    MoveUp,
    MoveDown,
    MoveWordLeft,
    MoveWordRight,
    MoveLineStart { move_up_at_bol: bool },
    MoveLineEnd { move_down_at_eol: bool },
}

impl Clone for VimAction {
    fn clone(&self) -> (r: Self)
        ensures
            r == *self,
    {
        match self {
            VimAction::Insert(position) => VimAction::Insert(*position),
            VimAction::EnterReplaceMode => VimAction::EnterReplaceMode,
            VimAction::RestoreReplacedCharacter => VimAction::RestoreReplacedCharacter,
            VimAction::Delete(target) => VimAction::Delete(target.clone()),
            VimAction::Change(target) => VimAction::Change(target.clone()),
            VimAction::Replace(ch) => VimAction::Replace(*ch),
            VimAction::PasteAfter => VimAction::PasteAfter,
            VimAction::PasteBefore => VimAction::PasteBefore,
            VimAction::JoinLines => VimAction::JoinLines,
            VimAction::Indent(direction) => VimAction::Indent(*direction),
            VimAction::DeleteBackward => VimAction::DeleteBackward,
            VimAction::DeleteForward => VimAction::DeleteForward,
            VimAction::DeleteBackwardWord => VimAction::DeleteBackwardWord,
            VimAction::DeleteForwardWord => VimAction::DeleteForwardWord,
            VimAction::KillLineStart => VimAction::KillLineStart,
            VimAction::KillLine => VimAction::KillLine,
            VimAction::KillLineEnd => VimAction::KillLineEnd,
            VimAction::MoveLeft => VimAction::MoveLeft,
            VimAction::MoveRight => VimAction::MoveRight,
            VimAction::MoveUp => VimAction::MoveUp,
            VimAction::MoveDown => VimAction::MoveDown,
            VimAction::MoveWordLeft => VimAction::MoveWordLeft,
            VimAction::MoveWordRight => VimAction::MoveWordRight,
            VimAction::MoveLineStart { move_up_at_bol } => VimAction::MoveLineStart {
                move_up_at_bol: *move_up_at_bol,
            },
            VimAction::MoveLineEnd { move_down_at_eol } => VimAction::MoveLineEnd {
                move_down_at_eol: *move_down_at_eol,
            },
        }
    }
}

impl VimAction {
    /// Whether a count belongs to the action.
    pub open spec fn counted(self) -> bool {
        self is Delete || self is Change || self is Replace || self is PasteAfter
            || self is PasteBefore || self is JoinLines || self is Indent
    }

    /// Whether `N.` should replace this command's count rather than replay the whole change.
    pub fn accepts_count(&self) -> (r: bool)
        ensures
            r == self.counted(),
    {
        matches!(
            self,
            VimAction::Delete(_)
                | VimAction::Change(_)
                | VimAction::Replace(_)
                | VimAction::PasteAfter
                | VimAction::PasteBefore
                | VimAction::JoinLines
                | VimAction::Indent(_)
        )
    }
}

/// Recorded changes, the last find, and what Replace mode overwrote.
#[derive(Debug)]
pub struct VimCommandState {
    pub pending_change: Vec<VimEdit>,
    pub last_change: Vec<VimEdit>,
    pub changed: bool,
    pub replaying: bool,
    pub replace_steps: Vec<VimReplaceStep>,
    pub last_find: Option<VimFind>,
}

/// One overwritten grapheme of Replace mode.
#[derive(Debug)]
pub struct VimReplaceStep {
    /// Backspace also retraces attachments skipped before the replacement.
    pub cursor_before: usize,
    pub start: usize,
    pub inserted_len: usize,
    pub original: String,
}

/// A step of a recorded change, its text encoded.
pub enum EditView {
    Editor { action: VimAction, count: Option<usize> },
    Text(Seq<u8>),
}

impl View for VimEdit {
    type V = EditView;

    open spec fn view(&self) -> EditView {
        match *self {
            VimEdit::Editor(edit) => EditView::Editor { action: edit.action, count: edit.count },
            VimEdit::Text(text) => EditView::Text(encode_utf8(text@)),
        }
    }
}

/// The views of edits, in order.
pub open spec fn edit_views(edits: Seq<VimEdit>) -> Seq<EditView> {
    Seq::new(edits.len(), |i: int| edits[i]@)
}

/// One overwritten grapheme, its text encoded.
pub struct StepView {
    pub cursor_before: int,
    pub start: int,
    pub inserted_len: int,
    pub original: Seq<u8>,
}

impl View for VimReplaceStep {
    type V = StepView;

    open spec fn view(&self) -> StepView {
        StepView {
            cursor_before: self.cursor_before as int,
            start: self.start as int,
            inserted_len: self.inserted_len as int,
            original: encode_utf8(self.original@),
        }
    }
}

/// The views of replace steps, in order.
pub open spec fn step_views(steps: Seq<VimReplaceStep>) -> Seq<StepView> {
    Seq::new(steps.len(), |i: int| steps[i]@)
}

/// The command state as sequences.
#[verifier::ext_equal]
pub struct CommandView {
    pub pending_change: Seq<EditView>,
    pub last_change: Seq<EditView>,
    pub changed: bool,
    pub replaying: bool,
    pub steps: Seq<StepView>,
    pub last_find: Option<VimFind>,
}

impl View for VimCommandState {
    type V = CommandView;

    open spec fn view(&self) -> CommandView {
        CommandView {
            pending_change: edit_views(self.pending_change@),
            last_change: edit_views(self.last_change@),
            changed: self.changed,
            replaying: self.replaying,
            steps: step_views(self.replace_steps@),
            last_find: self.last_find,
        }
    }
}

impl CommandView {
    /// Nothing recorded.
    pub open spec fn fresh() -> CommandView {
        CommandView {
            pending_change: Seq::empty(),
            last_change: Seq::empty(),
            changed: false,
            replaying: false,
            steps: Seq::empty(),
            last_find: None,
        }
    }
}

impl Default for VimCommandState {
    fn default() -> (r: Self)
        ensures
            r@ == CommandView::fresh(),
    {
        let r = VimCommandState {
            pending_change: Vec::new(),
            last_change: Vec::new(),
            changed: false,
            replaying: false,
            replace_steps: Vec::new(),
            last_find: None,
        };
        assert(r@ =~= CommandView::fresh());
        r
    }
}

impl Default for VimPersistentState {
    fn default() -> (r: Self)
        ensures
            r.commands@ == CommandView::fresh(),
            r.search.is_empty_query(),
    {
        VimPersistentState { commands: VimCommandState::default(), search: SearchQuery::default() }
    }
}

impl Clone for VimEdit {
    fn clone(&self) -> (r: Self)
        ensures
            r@ == self@,
    {
        match self {
            VimEdit::Editor(edit) => VimEdit::Editor(
                VimEditorEdit { action: edit.action.clone(), count: edit.count },
            ),
            VimEdit::Text(text) => VimEdit::Text(text.clone()),
        }
    }
}

/// What Replace mode overwrote is forgotten.
pub open spec fn steps_cleared(m: AreaView) -> AreaView {
    AreaView { commands: CommandView { steps: Seq::empty(), ..m.commands }, ..m }
}

/// The recorded changes and the last search exchanged for others.
pub open spec fn swapped(m: AreaView, commands: CommandView, search: SearchQuery) -> (
    AreaView,
    CommandView,
    SearchQuery,
) {
    (AreaView { commands, search, ..m }, m.commands, m.search)
}

/// Whether an action deletes text in Insert mode.
pub open spec fn deletes(action: VimAction) -> bool {
    action is DeleteBackward || action is DeleteForward || action is DeleteBackwardWord
        || action is DeleteForwardWord || action is KillLineStart || action is KillLine
        || action is KillLineEnd
}

/// An action carried out while typing; it is recorded unless it is a deletion that deleted
/// nothing.
#[verifier::opaque]
pub open spec fn insert_acted(m: AreaView, action: VimAction) -> (AreaView, bool) {
    let (after, done) = acted(m, action, None);
    if !done {
        (after, false)
    } else {
        let changed = after.buf.text.len() != m.buf.text.len()
            || action is RestoreReplacedCharacter;
        let recording = records_typing(m);
        let commands = after.commands;
        let pending_change = if recording && (changed || !deletes(action)) {
            commands.pending_change.push(EditView::Editor { action, count: None })
        } else {
            commands.pending_change
        };
        (
            AreaView {
                commands: CommandView {
                    pending_change,
                    changed: commands.changed || recording && changed,
                    ..commands
                },
                ..after
            },
            true,
        )
    }
}

/// The change under way becomes the last change, if it changed anything.
pub open spec fn pending_finished(m: AreaView) -> AreaView {
    let commands = m.commands;
    AreaView {
        commands: CommandView {
            last_change: if commands.changed {
                commands.pending_change
            } else {
                commands.last_change
            },
            pending_change: Seq::empty(),
            changed: false,
            ..commands
        },
        ..m
    }
}

/// The state in which a new change is carried out.
pub open spec fn change_opened(m: AreaView, action: VimAction, count: Option<usize>) -> AreaView {
    AreaView {
        commands: CommandView {
            pending_change: seq![EditView::Editor { action, count }],
            changed: false,
            ..m.commands
        },
        ..m
    }
}

/// An action carried out as the start of a new change; whether it did anything.
#[verifier::opaque]
pub open spec fn edit_started(m: AreaView, action: VimAction, count: Option<usize>) -> (
    AreaView,
    bool,
) {
    let (after, done) = acted(change_opened(m, action, count), action, count);
    if !done {
        (
            AreaView {
                commands: CommandView { pending_change: Seq::empty(), ..after.commands },
                ..after
            },
            false,
        )
    } else {
        let changed = after.buf.text.len() != m.buf.text.len() || action is Replace
            || action is JoinLines || action is Indent;
        let recorded = AreaView { commands: CommandView { changed, ..after.commands }, ..after };
        (
            if recorded.mode == VimMode::Normal {
                pending_finished(recorded)
            } else {
                recorded
            },
            true,
        )
    }
}

/// Insert or Replace mode left: the change ends, and the cursor steps back onto the line.
pub open spec fn insert_left(m: AreaView) -> AreaView {
    let ended = steps_cleared(pending_finished(change_committed(m)));
    let normal = AreaView { mode: VimMode::Normal, ..ended };
    if m.buf.cursor > line_start(m.buf.text, m.buf.cursor) {
        with_cursor(normal, prev_atomic(m.buf.text, m.buf.elements, m.buf.cursor))
    } else {
        normal
    }
}

/// A replay ends in Normal mode.
pub open spec fn repeat_finished(m: AreaView) -> AreaView {
    let left = if m.mode != VimMode::Normal {
        insert_left(m)
    } else {
        m
    };
    AreaView {
        pending: VimPending::Idle,
        commands: CommandView { replaying: false, ..left.commands },
        ..left
    }
}

/// One step of a change replayed; whether it did anything.
#[verifier::opaque]
pub open spec fn edit_applied(m: AreaView, edit: EditView) -> (AreaView, bool) {
    match edit {
        EditView::Editor { action, count } => acted(m, action, count),
        EditView::Text(text) => if m.mode == VimMode::Normal {
            (m, false)
        } else {
            (inserted(m, text), true)
        },
    }
}

/// The steps of a change from the `i`-th on replayed, until one does nothing.
pub open spec fn edits_applied(m: AreaView, edits: Seq<EditView>, i: int) -> (AreaView, bool)
    decreases edits.len() - i,
{
    if i < 0 || i >= edits.len() {
        (m, true)
    } else {
        let (after, done) = edit_applied(m, edits[i]);
        if done {
            edits_applied(after, edits, i + 1)
        } else {
            (after, false)
        }
    }
}

/// A change replayed `n` times, until a step does nothing.
pub open spec fn replayed(m: AreaView, edits: Seq<EditView>, n: nat) -> AreaView
    decreases n,
{
    if n == 0 {
        m
    } else {
        let (after, done) = edits_applied(m, edits, 0);
        if done {
            replayed(after, edits, (n - 1) as nat)
        } else {
            after
        }
    }
}

/// A change with the count of its first step replaced.
pub open spec fn with_count(edits: Seq<EditView>, count: usize) -> Seq<EditView> {
    edits.update(
        0,
        EditView::Editor { action: edits[0]->action, count: Some(count) },
    )
}

/// Whether the first step of a change takes a count.
pub open spec fn takes_count(edits: Seq<EditView>) -> bool {
    edits.len() > 0 && edits[0] is Editor && edits[0]->action.counted()
}

/// The last change replayed: with its count replaced, or as often as the count says.
#[verifier::opaque]
pub open spec fn change_repeated(m: AreaView, count: Option<usize>) -> AreaView {
    let edits = m.commands.last_change;
    if edits.len() == 0 {
        m
    } else {
        let substituted = count is Some && takes_count(edits);
        let used = if substituted {
            with_count(edits, count->0)
        } else {
            edits
        };
        let n = if count is Some && !substituted {
            count->0 as nat
        } else {
            1
        };
        let ready = AreaView {
            keys: KeyStateView { pending_keys: Seq::empty(), replaying: true, ..m.keys },
            commands: CommandView { replaying: true, last_change: used, ..m.commands },
            ..m
        };
        let done = repeat_finished(replayed(ready, used, n));
        AreaView { keys: KeyStateView { replaying: false, ..done.keys }, ..done }
    }
}

/// The product of an operator count and a motion count, if either was typed.
pub open spec fn combined_count(
    operator_count: Option<usize>,
    motion_count: Option<usize>,
) -> Option<usize> {
    match (operator_count, motion_count) {
        (None, None) => None,
        (Some(n), None) => Some(capped_count(n as int)),
        (None, Some(n)) => Some(capped_count(n as int)),
        (Some(a), Some(b)) => Some(capped_count(a * b)),
    }
}

/// `n`, or the maximum count if that is less.
pub open spec fn capped_count(n: int) -> usize {
    if n > VIM_MAX_COUNT {
        VIM_MAX_COUNT
    } else {
        n as usize
    }
}

/// A find that waits for its character.
pub open spec fn find_pending(
    m: AreaView,
    kind: VimFindMotion,
    operator: Option<VimOperator>,
    count: Option<usize>,
) -> AreaView {
    AreaView { pending: VimPending::Find { operator, kind, count }, ..m }
}

/// A find carried out: as a change that can be replayed, or as a move or yank.
pub open spec fn find_run(
    m: AreaView,
    kind: VimFindMotion,
    operator: Option<VimOperator>,
    target: char,
    count: Option<usize>,
) -> AreaView {
    let place = VimEditTarget::Find { motion: kind, target };
    match operator {
        Some(VimOperator::Delete) => edit_started(m, VimAction::Delete(place), count).0,
        Some(VimOperator::Change) => edit_started(m, VimAction::Change(place), count).0,
        _ => found(m, kind, operator, target, count.unwrap_or(1) as nat).0,
    }
}

/// The last find carried out again, in its direction or the other one; a till motion goes past a
/// match right next to the cursor.
pub open spec fn find_repeated(
    m: AreaView,
    reverse: bool,
    operator: Option<VimOperator>,
    count: usize,
) -> AreaView {
    match m.commands.last_find {
        None => m,
        Some(find) => {
            let kind = if reverse {
                find.kind.reverse()
            } else {
                find.kind
            };
            let further = kind.till() && count < usize::MAX && till_adjacent(
                m.buf.text,
                m.buf.elements,
                m.buf.cursor,
                kind,
                find.target,
            );
            find_run(
                m,
                kind,
                operator,
                find.target,
                Some(
                    if further {
                        (count + 1) as usize
                    } else {
                        count
                    },
                ),
            )
        },
    }
}

/// A Normal mode command outside the core motions and operators; whether the key is one.
pub open spec fn extra_command(m: AreaView, event: KeyEvent, count: Option<usize>) -> (
    AreaView,
    bool,
) {
    let keymap = m.normal_keymap;
    let n = count.unwrap_or(1);
    if pressed(keymap.enter_replace_mode@, event) {
        (edit_started(m, VimAction::EnterReplaceMode, None).0, true)
    } else if pressed(keymap.replace_char@, event) && m.buf.cursor < line_end(
        m.buf.text,
        m.buf.cursor,
    ) {
        (AreaView { pending: VimPending::ReplaceChar { count }, ..m }, true)
    } else if pressed(keymap.repeat_last_change@, event) {
        (change_repeated(m, count), true)
    } else if pressed(keymap.paste_before@, event) {
        (edit_started(m, VimAction::PasteBefore, count).0, true)
    } else if pressed(keymap.join_lines@, event) {
        (edit_started(m, VimAction::JoinLines, count).0, true)
    } else if pressed(keymap.indent_lines@, event) {
        let direction = VimIndentDirection::Increase;
        (AreaView { pending: VimPending::Indent { direction, count }, ..m }, true)
    } else if pressed(keymap.dedent_lines@, event) {
        let direction = VimIndentDirection::Decrease;
        (AreaView { pending: VimPending::Indent { direction, count }, ..m }, true)
    } else if pressed(keymap.find_forward@, event) {
        (find_pending(m, VimFindKind::Forward, None, count), true)
    } else if pressed(keymap.find_backward@, event) {
        (find_pending(m, VimFindKind::Backward, None, count), true)
    } else if pressed(keymap.till_forward@, event) {
        (find_pending(m, VimFindKind::TillForward, None, count), true)
    } else if pressed(keymap.till_backward@, event) {
        (find_pending(m, VimFindKind::TillBackward, None, count), true)
    } else if pressed(keymap.repeat_find@, event) {
        (find_repeated(m, false, None, n), true)
    } else if pressed(keymap.repeat_find_reverse@, event) {
        (find_repeated(m, true, None, n), true)
    } else if pressed(keymap.jump_top@, event) {
        (jumped(m, false, None, count), true)
    } else if pressed(keymap.jump_bottom@, event) {
        (jumped(m, true, None, count), true)
    } else {
        (m, false)
    }
}

/// An operator up to a line of the text: as a change that can be replayed, or as a yank.
pub open spec fn operator_jump(
    m: AreaView,
    operator: VimOperator,
    last: bool,
    count: Option<usize>,
) -> AreaView {
    let target = VimEditTarget::BufferJump { last };
    match operator {
        VimOperator::Delete => edit_started(m, VimAction::Delete(target), count).0,
        VimOperator::Change => edit_started(m, VimAction::Change(target), count).0,
        VimOperator::Yank => jumped(m, last, Some(operator), count),
    }
}

/// A find or jump behind an operator; whether the key is one.
pub open spec fn operator_command(
    m: AreaView,
    operator: VimOperator,
    event: KeyEvent,
    count: Option<usize>,
) -> (AreaView, bool) {
    let keymap = m.operator_keymap;
    let n = count.unwrap_or(1);
    if pressed(keymap.motion_find_forward@, event) {
        (find_pending(m, VimFindKind::Forward, Some(operator), count), true)
    } else if pressed(keymap.motion_find_backward@, event) {
        (find_pending(m, VimFindKind::Backward, Some(operator), count), true)
    } else if pressed(keymap.motion_till_forward@, event) {
        (find_pending(m, VimFindKind::TillForward, Some(operator), count), true)
    } else if pressed(keymap.motion_till_backward@, event) {
        (find_pending(m, VimFindKind::TillBackward, Some(operator), count), true)
    } else if pressed(keymap.motion_repeat_find@, event) {
        (find_repeated(m, false, Some(operator), n), true)
    } else if pressed(keymap.motion_repeat_find_reverse@, event) {
        (find_repeated(m, true, Some(operator), n), true)
    } else if pressed(keymap.motion_jump_top@, event) || pressed(
        keymap.motion_jump_bottom@,
        event,
    ) {
        (operator_jump(m, operator, pressed(keymap.motion_jump_bottom@, event), count), true)
    } else {
        (m, false)
    }
}

/// The key that a replace, find or shift was waiting for.
pub open spec fn pending_command(m: AreaView, pending: VimPending, event: KeyEvent) -> AreaView {
    match pending {
        VimPending::ReplaceChar { count } => match command_char(event) {
            Some(ch) => edit_started(m, VimAction::Replace(ch), count).0,
            None => m,
        },
        VimPending::Find { operator, kind, count } => match command_char(event) {
            Some(ch) => find_run(
                AreaView {
                    commands: CommandView {
                        last_find: Some(VimFind { kind, target: ch }),
                        ..m.commands
                    },
                    ..m
                },
                kind,
                operator,
                ch,
                count,
            ),
            None => m,
        },
        VimPending::Indent { direction, count } => {
            let keys = match direction {
                VimIndentDirection::Increase => m.normal_keymap.indent_lines@,
                VimIndentDirection::Decrease => m.normal_keymap.dedent_lines@,
            };
            if pressed(keys, event) {
                edit_started(m, VimAction::Indent(direction), count).0
            } else {
                m
            }
        },
        _ => m,
    }
}

/// Append a digit to a count; a leading zero stays zero.
pub fn push_vim_count_digit(count: &mut Option<usize>, digit: u8)
    ensures
        *final(count) == Some(appended_digit(*old(count), digit, 0)),
{
    let so_far: usize = count.unwrap_or(0);
    let next: usize = if so_far > VIM_MAX_COUNT {
        VIM_MAX_COUNT
    } else {
        so_far * 10 + digit as usize
    };
    *count = Some(
        if next > VIM_MAX_COUNT {
            VIM_MAX_COUNT
        } else {
            next
        },
    );
}

/// Multiply an operator count by a motion count (`2d3w` deletes six words).
pub fn combined_vim_count(operator_count: Option<usize>, motion_count: Option<usize>) -> (r: Option<
    usize,
>)
    ensures
        r == combined_count(operator_count, motion_count),
{
    if operator_count.is_none() && motion_count.is_none() {
        return None;
    }
    let a: usize = operator_count.unwrap_or(1);
    let b: usize = motion_count.unwrap_or(1);
    Some(
        match a.checked_mul(b) {
            Some(product) => if product > VIM_MAX_COUNT {
                VIM_MAX_COUNT
            } else {
                product
            },
            None => VIM_MAX_COUNT,
        },
    )
}

/// A copy of recorded edits.
fn copy_edits(edits: &Vec<VimEdit>) -> (r: Vec<VimEdit>)
    ensures
        edit_views(r@) == edit_views(edits@),
{
    let mut r: Vec<VimEdit> = Vec::new();
    let mut i: usize = 0;
    while i < edits.len()
        invariant
            i <= edits.len(),
            r.len() == i,
            forall|j: int| 0 <= j < i ==> (#[trigger] r@[j])@ == edits@[j]@,
        decreases edits.len() - i,
    {
        r.push(edits[i].clone());
        i = i + 1;
    }
    assert(edit_views(r@) =~= edit_views(edits@));
    r
}

/// Replace the count of a change, if its first step takes one.
fn replace_edit_count(edits: &mut Vec<VimEdit>, count: usize) -> (r: bool)
    requires
        old(edits).len() > 0,
    ensures
        r == takes_count(edit_views(old(edits)@)),
        edit_views(final(edits)@) == if r {
            with_count(edit_views(old(edits)@), count)
        } else {
            edit_views(old(edits)@)
        },
{
    let ghost before = edit_views(edits@);
    assert(before[0] == edits@[0]@);
    let action = match &edits[0] {
        VimEdit::Editor(first) => if first.action.accepts_count() {
            Some(first.action.clone())
        } else {
            None
        },
        VimEdit::Text(_) => None,
    };
    match action {
        Some(action) => {
            edits.set(0, VimEdit::Editor(VimEditorEdit { action, count: Some(count) }));
            assert(edit_views(edits@) =~= with_count(before, count));
            true
        },
        None => false,
    }
}

impl TextArea {
    /// Forget what Replace mode overwrote.
    pub fn clear_vim_replace_recovery(&mut self)
        ensures
            final(self)@ == steps_cleared(old(self)@),
    {
        self.vim_commands.replace_steps.clear();
        assert(self.vim_commands@.steps =~= Seq::empty());
    }

    /// Exchange the recorded changes and the last search for those of `state`.
    pub fn swap_vim_persistent_state(&mut self, state: &mut VimPersistentState)
        ensures
            (final(self)@, final(state).commands@, final(state).search) == swapped(
                old(self)@,
                old(state).commands@,
                old(state).search,
            ),
    {
        std::mem::swap(&mut self.vim_commands, &mut state.commands);
        std::mem::swap(&mut self.vim_search.last, &mut state.search);
    }

    /// The steps of the last change, if there is one.
    pub fn vim_repeat_actions(&self) -> (r: Option<Vec<VimEdit>>)
        ensures
            match r {
                Some(edits) => edit_views(edits@) == self@.commands.last_change
                    && self@.commands.last_change.len() > 0,
                None => self@.commands.last_change.len() == 0,
            },
    {
        if self.vim_commands.last_change.len() == 0 {
            None
        } else {
            Some(copy_edits(&self.vim_commands.last_change))
        }
    }

    /// Carry out an action while typing, and record it; whether it did anything.
    pub fn apply_vim_insert_action(&mut self, action: VimAction) -> (r: bool)
        requires
            old(self).wf(),
        ensures
            (final(self)@, r) == insert_acted(old(self)@, action),
            final(self).wf(),
    {
        proof {
            reveal(insert_acted);
        }
        let recording = self.vim_enabled && self.vim_mode != VimMode::Normal
            && !self.vim_commands.replaying && self.vim_commands.pending_change.len() != 0;
        let prior_len: usize = byte_len(&self.text);
        if !self.apply_vim_editor_action(action.clone(), None) {
            return false;
        }
        let changed = byte_len(&self.text) != prior_len || matches!(
            action,
            VimAction::RestoreReplacedCharacter
        );
        let deletion = matches!(
            action,
            VimAction::DeleteBackward
                | VimAction::DeleteForward
                | VimAction::DeleteBackwardWord
                | VimAction::DeleteForwardWord
                | VimAction::KillLineStart
                | VimAction::KillLine
                | VimAction::KillLineEnd
        );
        if recording && (changed || !deletion) {
            let ghost edits = self.vim_commands@.pending_change;
            self.vim_commands.pending_change.push(
                VimEdit::Editor(VimEditorEdit { action, count: None }),
            );
            assert(self.vim_commands@.pending_change =~= edits.push(
                self.vim_commands.pending_change@.last()@,
            ));
        }
        if recording && changed {
            self.vim_commands.changed = true;
        }
        true
    }

    /// Carry out an action as the start of a new change; whether it did anything.
    pub fn start_vim_edit(&mut self, action: VimAction, count: Option<usize>) -> (r: bool)
        requires
            old(self).wf(),
        ensures
            (final(self)@, r) == edit_started(old(self)@, action, count),
            final(self).wf(),
    {
        proof {
            reveal(edit_started);
        }
        let prior_len: usize = byte_len(&self.text);
        let mut edits: Vec<VimEdit> = Vec::new();
        edits.push(VimEdit::Editor(VimEditorEdit { action: action.clone(), count }));
        assert(edit_views(edits@) =~= seq![EditView::Editor { action, count }]);
        self.vim_commands.pending_change = edits;
        self.vim_commands.changed = false;
        if !self.apply_vim_editor_action(action.clone(), count) {
            self.vim_commands.pending_change.clear();
            assert(self.vim_commands@.pending_change =~= Seq::empty());
            return false;
        }
        self.vim_commands.changed = byte_len(&self.text) != prior_len || matches!(
            action,
            VimAction::Replace(_) | VimAction::JoinLines | VimAction::Indent(_)
        );
        if self.vim_mode == VimMode::Normal {
            self.finish_pending_vim_change();
        }
        true
    }

    /// Make the change under way the last change, if it changed anything.
    pub fn finish_pending_vim_change(&mut self)
        ensures
            final(self)@ == pending_finished(old(self)@),
    {
        let mut edits: Vec<VimEdit> = Vec::new();
        std::mem::swap(&mut edits, &mut self.vim_commands.pending_change);
        assert(self.vim_commands@.pending_change =~= Seq::empty());
        if self.vim_commands.changed {
            self.vim_commands.last_change = edits;
        }
        self.vim_commands.changed = false;
    }

    /// Leave Insert or Replace mode.
    pub fn leave_vim_insert_mode(&mut self)
        requires
            old(self).wf(),
        ensures
            final(self)@ == insert_left(old(self)@),
            final(self).wf(),
            ({
                let t = old(self)@.buf.text;
                let c = old(self)@.buf.cursor;
                plain_text(t) && line_start(t, c) < c && !covered(old(self)@.buf.elements, c - 1)
                    ==> final(self)@.buf.cursor == c - 1
            }),
    {
        proof {
            let es = self@.buf.elements;
            let c = self@.buf.cursor;
            if !covered(es, c - 1) {
                lemma_uncovered_edges(es, c - 1);
            }
        }
        self.commit_vim_undo_session();
        self.finish_pending_vim_change();
        self.clear_vim_replace_recovery();
        self.vim_mode = VimMode::Normal;
        if self.cursor_pos > self.beginning_of_current_line() {
            self.set_cursor(self.prev_atomic_boundary(self.cursor_pos));
        }
    }

    /// Start to replay the last change, if there is one.
    pub fn begin_vim_repeat(&mut self) -> (r: Option<Vec<VimEdit>>)
        ensures
            match r {
                Some(edits) => {
                    &&& edit_views(edits@) == old(self)@.commands.last_change
                    &&& old(self)@.commands.last_change.len() > 0
                    &&& final(self)@ == (AreaView {
                        commands: CommandView { replaying: true, ..old(self)@.commands },
                        ..old(self)@
                    })
                },
                None => old(self)@.commands.last_change.len() == 0 && final(self)@ == old(self)@,
            },
    {
        match self.vim_repeat_actions() {
            Some(edits) => {
                self.vim_commands.replaying = true;
                Some(edits)
            },
            None => None,
        }
    }

    /// End a replay.
    pub fn finish_vim_repeat(&mut self)
        requires
            old(self).wf(),
        ensures
            final(self)@ == repeat_finished(old(self)@),
            final(self).wf(),
    {
        if self.vim_mode != VimMode::Normal {
            self.leave_vim_insert_mode();
        }
        self.vim_pending = VimPending::Idle;
        self.vim_commands.replaying = false;
    }

    /// Replay one step of a change; whether it did anything.
    pub fn apply_vim_edit(&mut self, edit: &VimEdit) -> (r: bool)
        requires
            old(self).wf(),
        ensures
            (final(self)@, r) == edit_applied(old(self)@, edit@),
            final(self).wf(),
    {
        proof {
            reveal(edit_applied);
        }
        match edit {
            VimEdit::Editor(edit) => self.apply_vim_editor_action(edit.action.clone(), edit.count),
            VimEdit::Text(text) => {
                if self.vim_mode == VimMode::Normal {
                    return false;
                }
                self.insert_str(text);
                true
            },
        }
    }

    /// Replay the steps of a change, until one does nothing.
    fn apply_vim_edits(&mut self, edits: &Vec<VimEdit>) -> (r: bool)
        requires
            old(self).wf(),
        ensures
            (final(self)@, r) == edits_applied(old(self)@, edit_views(edits@), 0),
            final(self).wf(),
    {
        let mut i: usize = 0;
        while i < edits.len()
            invariant
                self.wf(),
                i <= edits.len(),
                edits_applied(self@, edit_views(edits@), i as int) == edits_applied(
                    old(self)@,
                    edit_views(edits@),
                    0,
                ),
            decreases edits.len() - i,
        {
            if !self.apply_vim_edit(&edits[i]) {
                return false;
            }
            i = i + 1;
        }
        true
    }

    /// Replay a change a number of times, until a step does nothing.
    fn replay_vim_edits(&mut self, edits: &Vec<VimEdit>, times: usize)
        requires
            old(self).wf(),
        ensures
            final(self)@ == replayed(old(self)@, edit_views(edits@), times as nat),
            final(self).wf(),
    {
        let ghost used = edit_views(edits@);
        let mut left: usize = times;
        while left > 0
            invariant
                self.wf(),
                used == edit_views(edits@),
                replayed(self@, used, left as nat) == replayed(old(self)@, used, times as nat),
            decreases left,
        {
            if !self.apply_vim_edits(edits) {
                return;
            }
            left = left - 1;
        }
    }

    /// Make ready to replay `edits`, with their count replaced if there is one to replace; how often
    /// to replay them.
    fn ready_vim_repeat(&mut self, edits: &mut Vec<VimEdit>, count: Option<usize>) -> (times: usize)
        requires
            old(self).wf(),
            old(edits).len() > 0,
            edit_views(old(edits)@) == old(self)@.commands.last_change,
        ensures
            ({
                let before = old(self)@.commands.last_change;
                let substituted = count is Some && takes_count(before);
                let used = if substituted {
                    with_count(before, count->0)
                } else {
                    before
                };
                &&& edit_views(final(edits)@) == used
                &&& times == if count is Some && !substituted {
                    count->0
                } else {
                    1
                }
                &&& final(self)@ == (AreaView {
                    keys: KeyStateView {
                        pending_keys: Seq::empty(),
                        replaying: true,
                        ..old(self)@.keys
                    },
                    commands: CommandView { last_change: used, ..old(self)@.commands },
                    ..old(self)@
                })
            }),
            final(self).wf(),
    {
        self.vim_command.pending_keys.clear();
        self.vim_command.replaying = true;
        let mut times: usize = 1;
        if let Some(n) = count {
            if replace_edit_count(edits, n) {
                self.vim_commands.last_change = copy_edits(edits);
            } else {
                times = n;
            }
        }
        times
    }

    /// Replay the last change. `N.` replaces the recorded count of a counted command, and repeats
    /// an insert session `N` times.
    pub fn repeat_last_vim_change(&mut self, count: Option<usize>)
        requires
            old(self).wf(),
        ensures
            final(self)@ == change_repeated(old(self)@, count),
            final(self).wf(),
    {
        proof {
            reveal(change_repeated);
        }
        match self.begin_vim_repeat() {
            None => {},
            Some(mut edits) => {
                let times: usize = self.ready_vim_repeat(&mut edits, count);
                self.replay_vim_edits(&edits, times);
                self.finish_vim_repeat();
                self.vim_command.replaying = false;
            },
        }
    }

    /// Wait for the character to find.
    pub fn start_vim_find(
        &mut self,
        motion: VimFindMotion,
        operator: Option<VimOperator>,
        count: Option<usize>,
    )
        ensures
            final(self)@ == find_pending(old(self)@, motion, operator, count),
    {
        self.vim_pending = VimPending::Find { operator, kind: motion, count };
    }

    /// Run a find as a recorded edit (`d`/`c`) or a plain motion (`y`/navigation).
    pub fn run_vim_find(
        &mut self,
        motion: VimFindMotion,
        operator: Option<VimOperator>,
        target: char,
        count: Option<usize>,
    )
        requires
            old(self).wf(),
        ensures
            final(self)@ == find_run(old(self)@, motion, operator, target, count),
            final(self).wf(),
    {
        match operator {
            Some(VimOperator::Delete) => {
                self.start_vim_edit(
                    VimAction::Delete(VimEditTarget::Find { motion, target }),
                    count,
                );
            },
            Some(VimOperator::Change) => {
                self.start_vim_edit(
                    VimAction::Change(VimEditTarget::Find { motion, target }),
                    count,
                );
            },
            _ => {
                self.find_vim_character(motion, operator, target, count.unwrap_or(1));
            },
        }
    }

    /// `;` and `,` replay the last `f`/`F`/`t`/`T`; a till repeat skips an adjacent match.
    pub fn repeat_vim_find(&mut self, reverse: bool, operator: Option<VimOperator>, count: usize)
        requires
            old(self).wf(),
        ensures
            final(self)@ == find_repeated(old(self)@, reverse, operator, count),
            final(self).wf(),
    {
        match self.vim_commands.last_find {
            None => {},
            Some(find) => {
                let motion = if reverse {
                    find.kind.reversed()
                } else {
                    find.kind
                };
                let till = matches!(motion, VimFindKind::TillForward | VimFindKind::TillBackward);
                let further = till && self.vim_till_target_is_adjacent(motion, find.target);
                let count: usize = if further && count < usize::MAX {
                    count + 1
                } else {
                    count
                };
                self.run_vim_find(motion, operator, find.target, Some(count));
            },
        }
    }

    /// Normal-mode commands that live outside the core motion/operator dispatch.
    pub fn handle_vim_extra_command(&mut self, event: KeyEvent, count: Option<usize>) -> (r: bool)
        requires
            old(self).wf(),
        ensures
            (final(self)@, r) == extra_command(old(self)@, event, count),
            final(self).wf(),
    {
        let n: usize = count.unwrap_or(1);
        if is_pressed(&self.vim_normal_keymap.enter_replace_mode, event) {
            self.start_vim_edit(VimAction::EnterReplaceMode, None);
        } else if is_pressed(&self.vim_normal_keymap.replace_char, event) && self.cursor_pos
            < self.end_of_current_line() {
            self.vim_pending = VimPending::ReplaceChar { count };
        } else if is_pressed(&self.vim_normal_keymap.repeat_last_change, event) {
            self.repeat_last_vim_change(count);
        } else if is_pressed(&self.vim_normal_keymap.paste_before, event) {
            self.start_vim_edit(VimAction::PasteBefore, count);
        } else if is_pressed(&self.vim_normal_keymap.join_lines, event) {
            self.start_vim_edit(VimAction::JoinLines, count);
        } else if is_pressed(&self.vim_normal_keymap.indent_lines, event) {
            let direction = VimIndentDirection::Increase;
            self.vim_pending = VimPending::Indent { direction, count };
        } else if is_pressed(&self.vim_normal_keymap.dedent_lines, event) {
            let direction = VimIndentDirection::Decrease;
            self.vim_pending = VimPending::Indent { direction, count };
        } else if is_pressed(&self.vim_normal_keymap.find_forward, event) {
            self.start_vim_find(VimFindKind::Forward, None, count);
        } else if is_pressed(&self.vim_normal_keymap.find_backward, event) {
            self.start_vim_find(VimFindKind::Backward, None, count);
        } else if is_pressed(&self.vim_normal_keymap.till_forward, event) {
            self.start_vim_find(VimFindKind::TillForward, None, count);
        } else if is_pressed(&self.vim_normal_keymap.till_backward, event) {
            self.start_vim_find(VimFindKind::TillBackward, None, count);
        } else if is_pressed(&self.vim_normal_keymap.repeat_find, event) {
            self.repeat_vim_find(false, None, n);
        } else if is_pressed(&self.vim_normal_keymap.repeat_find_reverse, event) {
            self.repeat_vim_find(true, None, n);
        } else if is_pressed(&self.vim_normal_keymap.jump_top, event) {
            self.jump_to_vim_buffer_line(false, None, count);
        } else if is_pressed(&self.vim_normal_keymap.jump_bottom, event) {
            self.jump_to_vim_buffer_line(true, None, count);
        } else {
            return false;
        }
        true
    }

    /// Finds and jumps behind an operator.
    pub fn handle_vim_operator_command(
        &mut self,
        operator: VimOperator,
        event: KeyEvent,
        count: Option<usize>,
    ) -> (r: bool)
        requires
            old(self).wf(),
        ensures
            (final(self)@, r) == operator_command(old(self)@, operator, event, count),
            final(self).wf(),
    {
        let n: usize = count.unwrap_or(1);
        if is_pressed(&self.vim_operator_keymap.motion_find_forward, event) {
            self.start_vim_find(VimFindKind::Forward, Some(operator), count);
        } else if is_pressed(&self.vim_operator_keymap.motion_find_backward, event) {
            self.start_vim_find(VimFindKind::Backward, Some(operator), count);
        } else if is_pressed(&self.vim_operator_keymap.motion_till_forward, event) {
            self.start_vim_find(VimFindKind::TillForward, Some(operator), count);
        } else if is_pressed(&self.vim_operator_keymap.motion_till_backward, event) {
            self.start_vim_find(VimFindKind::TillBackward, Some(operator), count);
        } else if is_pressed(&self.vim_operator_keymap.motion_repeat_find, event) {
            self.repeat_vim_find(false, Some(operator), n);
        } else if is_pressed(&self.vim_operator_keymap.motion_repeat_find_reverse, event) {
            self.repeat_vim_find(true, Some(operator), n);
        } else {
            let last = is_pressed(&self.vim_operator_keymap.motion_jump_bottom, event);
            if !last && !is_pressed(&self.vim_operator_keymap.motion_jump_top, event) {
                return false;
            }
            self.operate_to_buffer_line(operator, last, count);
        }
        true
    }

    /// Apply an operator up to a line of the text.
    pub fn operate_to_buffer_line(
        &mut self,
        operator: VimOperator,
        last: bool,
        count: Option<usize>,
    )
        requires
            old(self).wf(),
        ensures
            final(self)@ == operator_jump(old(self)@, operator, last, count),
            final(self).wf(),
    {
        match operator {
            VimOperator::Delete => {
                self.start_vim_edit(VimAction::Delete(VimEditTarget::BufferJump { last }), count);
            },
            VimOperator::Change => {
                self.start_vim_edit(VimAction::Change(VimEditTarget::BufferJump { last }), count);
            },
            VimOperator::Yank => self.jump_to_vim_buffer_line(last, Some(operator), count),
        }
    }

    /// The key that a replace, find or shift was waiting for.
    pub fn handle_vim_pending_command(&mut self, pending: VimPending, event: KeyEvent)
        requires
            old(self).wf(),
        ensures
            final(self)@ == pending_command(old(self)@, pending, event),
            final(self).wf(),
    {
        match pending {
            VimPending::ReplaceChar { count } => {
                if let Some(ch) = vim_command_char(event) {
                    self.start_vim_edit(VimAction::Replace(ch), count);
                }
            },
            VimPending::Find { operator, kind, count } => {
                if let Some(ch) = vim_command_char(event) {
                    self.vim_commands.last_find = Some(VimFind { kind, target: ch });
                    self.run_vim_find(kind, operator, ch, count);
                }
            },
            VimPending::Indent { direction, count } => {
                let press = match direction {
                    VimIndentDirection::Increase => is_pressed(
                        &self.vim_normal_keymap.indent_lines,
                        event,
                    ),
                    VimIndentDirection::Decrease => is_pressed(
                        &self.vim_normal_keymap.dedent_lines,
                        event,
                    ),
                };
                if press {
                    self.start_vim_edit(VimAction::Indent(direction), count);
                }
            },
            _ => {},
        }
    }
}

} // verus!
