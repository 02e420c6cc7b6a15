//! Modes, undo, key recording for replay, and text objects.

use crate::buffer::{Buffer, ElementView};
use crate::keys::{KeyCode, KeyEvent, KeyModifiers};
use crate::text::same_text;
use crate::textarea::{AreaView, TextArea};
use std::collections::VecDeque;
use std::ops::Range;
use vstd::prelude::*;
use vstd::utf8::*;

verus! {

/// How many changes can be undone.
pub const VIM_UNDO_LIMIT: usize = 100;

/// Bounds counts so a long digit run cannot freeze the composer or exhaust memory. Counts scale
/// loop iterations and repeated text, and a composer draft is never long enough to address more
/// than this.
pub const VIM_MAX_COUNT: usize = 1_000;

#[derive(Debug, Clone, Copy, PartialEq, Eq, Structural)]
pub enum VimMode {
    /// Normal mode routes printable keys to movement, operators, and mode transitions.
    Normal,
    /// Insert mode routes input through the regular editor keys until Escape is pressed.
    Insert,
    /// Replace mode overwrites the text from the cursor on until Escape is pressed.
    Replace,
}

#[derive(Debug, Clone, Copy, PartialEq, Eq, Structural)]
pub enum VimOperator {
    Delete,
    Yank,
    Change,
}

/// What the keys of an unfinished command have said so far.
#[allow(inconsistent_fields)]
#[derive(Debug, Clone, Copy, PartialEq, Eq)]
pub enum VimPending {
    /// No command is under way.
    Idle,
    BufferStart { operator: Option<VimOperator>, count: Option<usize> },
    Operator {
        operator: VimOperator,
        operator_count: Option<usize>,
        motion_count: Option<usize>,
    },
    TextObject { operator: VimOperator, scope: VimTextObjectScope, count: Option<usize> },
    Find { operator: Option<VimOperator>, kind: VimFindKind, count: Option<usize> },
    ReplaceChar { count: Option<usize> },
    Indent { direction: VimIndentDirection, count: Option<usize> },
}

#[derive(Debug, Clone, Copy, PartialEq, Eq, Structural)]
pub enum VimRangeKind {
    Characterwise,
    Linewise,
}

/// The range that an operator works on.
#[derive(Debug, PartialEq, Eq)]
pub struct VimOperatorRange {
    pub range: Range<usize>,
    pub kind: VimRangeKind,
}

/// The text, cursor and elements before a change.
#[derive(Debug)]
pub struct VimUndoSnapshot {
    pub text: String,
    pub cursor_pos: usize,
    pub elements: Vec<TextElement>,
}

/// The changes that can be undone, oldest first, and the start of the one under way.
#[derive(Debug)]
pub struct VimUndoState {
    pub history: VecDeque<VimUndoSnapshot>,
    pub active: Option<VimUndoSnapshot>,
}

/// A key captured for dot-repeat, tagged if it was consumed as a count digit.
///
/// Rescanning for digits later cannot recover the tag, since a digit may be an argument instead,
/// as in `r2`.
#[derive(Debug, Clone, Copy, PartialEq, Eq, Structural)]
pub struct VimRecordedKey {
    pub event: KeyEvent,
    pub is_count: bool,
}

/// The count being typed and the keys of the last change.
#[derive(Debug)]
pub struct VimCommandState {
    pub count: Option<usize>,
    pub pending_keys: Vec<VimRecordedKey>,
    pub recording: Option<Vec<VimRecordedKey>>,
    pub last_change: Vec<VimRecordedKey>,
    pub replaying: bool,
}

#[derive(Debug, Clone, Copy, PartialEq, Eq)]
pub enum VimMotion {
    Left,
    Right,
    Up,
    Down,
    WordForward,
    WordBackward,
    WordEnd,
    BigWordForward,
    BigWordBackward,
    BigWordEnd,
    LineStart,
    FirstNonBlank,
    LineEnd,
    Find(VimFind),
}

/// How a character is searched for on a line: on it or next to it, to the right or to the left.
#[derive(Debug, Clone, Copy, PartialEq, Eq, Structural)]
pub enum VimFindKind {
    Forward,
    Backward,
    TillForward,
    TillBackward,
}

impl VimFindKind {
    /// The same search in the other direction.
    pub open spec fn reverse(self) -> Self {
        match self {
            VimFindKind::Forward => VimFindKind::Backward,
            VimFindKind::Backward => VimFindKind::Forward,
            VimFindKind::TillForward => VimFindKind::TillBackward,
            VimFindKind::TillBackward => VimFindKind::TillForward,
        }
    }

    /// Whether the search goes to the right.
    pub open spec fn forward(self) -> bool {
        self is Forward || self is TillForward
    }

    /// Whether the search stops next to the character.
    pub open spec fn till(self) -> bool {
        self is TillForward || self is TillBackward
    }

    pub fn reversed(self) -> (r: Self)
        ensures
            r == self.reverse(),
    {
        match self {
            VimFindKind::Forward => VimFindKind::Backward,
            VimFindKind::Backward => VimFindKind::Forward,
            VimFindKind::TillForward => VimFindKind::TillBackward,
            VimFindKind::TillBackward => VimFindKind::TillForward,
        }
    }

    pub fn is_forward(self) -> (r: bool)
        ensures
            r == self.forward(),
    {
        matches!(self, VimFindKind::Forward | VimFindKind::TillForward)
    }
}

/// A search for a character on a line.
#[derive(Debug, Clone, Copy, PartialEq, Eq, Structural)]
pub struct VimFind {
    pub kind: VimFindKind,
    pub target: char,
}

#[derive(Debug, Clone, Copy, PartialEq, Eq, Structural)]
pub enum VimIndentDirection {
    Increase,
    Decrease,
}

#[derive(Debug, Clone, Copy, PartialEq, Eq, Structural)]
pub enum VimTextObjectScope {
    Inner,
    Around,
}

#[derive(Debug, Clone, Copy, PartialEq, Eq, Structural)]
pub enum VimTextObject {
    Word,
    BigWord,
    Parentheses,
    Brackets,
    Braces,
    DoubleQuote,
    SingleQuote,
    Backtick,
}

/// An atomic stretch of the text.
#[derive(Debug, PartialEq, Eq)]
pub struct TextElement {
    pub id: u64,
    pub range: Range<usize>,
}

impl View for TextElement {
    type V = ElementView;

    open spec fn view(&self) -> ElementView {
        ElementView { id: self.id, start: self.range.start as int, end: self.range.end as int }
    }
}

/// The views of elements, in order.
pub open spec fn element_views(es: Seq<TextElement>) -> Seq<ElementView> {
    Seq::new(es.len(), |i: int| es[i]@)
}

impl View for VimUndoSnapshot {
    type V = Buffer;

    open spec fn view(&self) -> Buffer {
        Buffer {
            text: encode_utf8(self.text@),
            cursor: self.cursor_pos as int,
            elements: element_views(self.elements@),
        }
    }
}

/// The undo state as buffers.
#[verifier::ext_equal]
pub struct UndoView {
    pub history: Seq<Buffer>,
    pub active: Option<Buffer>,
}

/// The views of snapshots, in order.
pub open spec fn snapshot_views(ss: Seq<VimUndoSnapshot>) -> Seq<Buffer> {
    Seq::new(ss.len(), |i: int| ss[i]@)
}

impl View for VimUndoState {
    type V = UndoView;

    open spec fn view(&self) -> UndoView {
        UndoView {
            history: snapshot_views(self.history@),
            active: match self.active {
                Some(s) => Some(s@),
                None => None,
            },
        }
    }
}

/// The count and recorded keys as sequences.
#[verifier::ext_equal]
pub struct KeyStateView {
    pub count: Option<usize>,
    pub pending_keys: Seq<VimRecordedKey>,
    pub recording: Option<Seq<VimRecordedKey>>,
    pub last_change: Seq<VimRecordedKey>,
    pub replaying: bool,
}

impl View for VimCommandState {
    type V = KeyStateView;

    open spec fn view(&self) -> KeyStateView {
        KeyStateView {
            count: self.count,
            pending_keys: self.pending_keys@,
            recording: match self.recording {
                Some(keys) => Some(keys@),
                None => None,
            },
            last_change: self.last_change@,
            replaying: self.replaying,
        }
    }
}

impl KeyStateView {
    /// Nothing typed, nothing recorded.
    pub open spec fn fresh() -> KeyStateView {
        KeyStateView {
            count: None,
            pending_keys: Seq::empty(),
            recording: None,
            last_change: Seq::empty(),
            replaying: false,
        }
    }
}

impl Default for VimCommandState {
    fn default() -> (r: Self)
        ensures
            r@ == KeyStateView::fresh(),
    {
        let r = VimCommandState {
            count: None,
            pending_keys: Vec::new(),
            recording: None,
            last_change: Vec::new(),
            replaying: false,
        };
        r
    }
}

impl UndoView {
    /// Nothing to undo.
    pub open spec fn fresh() -> UndoView {
        UndoView { history: Seq::empty(), active: None }
    }
}

impl Default for VimUndoState {
    fn default() -> (r: Self)
        ensures
            r@ == UndoView::fresh(),
    {
        let r = VimUndoState { history: VecDeque::new(), active: None };
        assert(r@.history =~= Seq::empty());
        r
    }
}

/// A key is typed: it joins the recording, or the keys that one would start from.
pub open spec fn with_key(m: AreaView, event: KeyEvent) -> AreaView {
    let key = VimRecordedKey { event, is_count: false };
    let keys = m.keys;
    if keys.replaying {
        m
    } else {
        match keys.recording {
            Some(rec) => AreaView {
                keys: KeyStateView { recording: Some(rec.push(key)), ..keys },
                ..m
            },
            None => AreaView {
                keys: KeyStateView { pending_keys: keys.pending_keys.push(key), ..keys },
                ..m
            },
        }
    }
}

/// The last of `keys` tagged as a count digit.
pub open spec fn tag_last(keys: Seq<VimRecordedKey>) -> Seq<VimRecordedKey> {
    if keys.len() == 0 {
        keys
    } else {
        keys.update(keys.len() - 1, VimRecordedKey { event: keys.last().event, is_count: true })
    }
}

/// The key typed last is tagged as a count digit.
pub open spec fn with_count_tag(m: AreaView) -> AreaView {
    let keys = m.keys;
    if keys.replaying {
        m
    } else {
        match keys.recording {
            Some(rec) => AreaView {
                keys: KeyStateView { recording: Some(tag_last(rec)), ..keys },
                ..m
            },
            None => AreaView {
                keys: KeyStateView { pending_keys: tag_last(keys.pending_keys), ..keys },
                ..m
            },
        }
    }
}

/// A key is done with: the pending keys are forgotten unless a command is under way.
pub open spec fn key_finished(m: AreaView) -> AreaView {
    if m.keys.replaying || m.keys.recording is Some || m.mode != VimMode::Normal
        || !(m.pending is Idle) || m.keys.count is Some {
        m
    } else {
        AreaView { keys: KeyStateView { pending_keys: Seq::empty(), ..m.keys }, ..m }
    }
}

/// The pending keys become the start of a recording.
pub open spec fn recording_begun(m: AreaView) -> AreaView {
    if m.keys.replaying || m.keys.recording is Some {
        m
    } else {
        AreaView {
            keys: KeyStateView {
                recording: Some(m.keys.pending_keys),
                pending_keys: Seq::empty(),
                ..m.keys
            },
            ..m
        }
    }
}

/// The recording ends, and is the last change if something changed.
pub open spec fn recording_finished(m: AreaView, changed: bool) -> AreaView {
    match m.keys.recording {
        Some(rec) => AreaView {
            keys: KeyStateView {
                recording: None,
                pending_keys: Seq::empty(),
                last_change: if changed && !m.keys.replaying && rec.len() > 0 {
                    rec
                } else {
                    m.keys.last_change
                },
                ..m.keys
            },
            ..m
        },
        None => m,
    }
}

/// A change of the text begins: the buffer is remembered unless a change is already under way.
pub open spec fn change_begun(m: AreaView) -> AreaView {
    if !m.enabled || m.undo.active is Some {
        m
    } else {
        recording_begun(AreaView { undo: UndoView { active: Some(m.buf), ..m.undo }, ..m })
    }
}

/// The history with `b` added, without its oldest entry if it was full.
pub open spec fn history_with(history: Seq<Buffer>, b: Buffer) -> Seq<Buffer> {
    if history.len() == VIM_UNDO_LIMIT {
        history.drop_first().push(b)
    } else {
        history.push(b)
    }
}

/// The change under way ends; it can be undone if it changed the text or the elements.
pub open spec fn change_committed(m: AreaView) -> AreaView {
    match m.undo.active {
        Some(b) => {
            let history = if b.text != m.buf.text || b.elements != m.buf.elements {
                history_with(m.undo.history, b)
            } else {
                m.undo.history
            };
            recording_finished(
                AreaView { undo: UndoView { history, active: None }, ..m },
                b.text != m.buf.text || b.elements != m.buf.elements,
            )
        },
        None => m,
    }
}

/// In normal mode every change ends with its command.
pub open spec fn change_finished(m: AreaView) -> AreaView {
    if m.enabled && m.mode == VimMode::Normal {
        change_committed(m)
    } else {
        m
    }
}

/// The last change undone.
pub open spec fn undone(m: AreaView) -> AreaView {
    if m.undo.history.len() == 0 {
        m
    } else {
        AreaView {
            buf: m.undo.history.last(),
            undo: UndoView { history: m.undo.history.drop_last(), active: None },
            mode: VimMode::Normal,
            pending: VimPending::Idle,
            column: None,
            ..m
        }
    }
}

/// The events of recorded keys.
pub open spec fn events_of(keys: Seq<VimRecordedKey>) -> Seq<KeyEvent> {
    Seq::new(keys.len(), |i: int| keys[i].event)
}

/// The decimal digits of `n`.
pub open spec fn decimal(n: nat) -> Seq<char>
    decreases n,
{
    let digit = ((n % 10) as u8 + '0' as u8) as u8 as char;
    if n < 10 {
        seq![digit]
    } else {
        decimal(n / 10).push(digit)
    }
}

/// The plain key press of a character.
pub open spec fn key_press(c: char) -> KeyEvent {
    KeyEvent { code: KeyCode::Char(c), modifiers: KeyModifiers::none_held() }
}

/// Plain key presses of characters.
pub open spec fn key_presses(chars: Seq<char>) -> Seq<KeyEvent> {
    Seq::new(chars.len(), |i: int| key_press(chars[i]))
}

/// Whether a key is tagged as a count digit.
pub open spec fn has_count(keys: Seq<VimRecordedKey>) -> bool {
    exists|i: int| 0 <= i < keys.len() && (#[trigger] keys[i]).is_count
}

/// The events of `keys` with the first count digit replaced by the digits of `count` and the
/// other count digits dropped.
pub open spec fn recounted(keys: Seq<VimRecordedKey>, count: nat) -> Seq<KeyEvent>
    decreases keys.len(),
{
    if keys.len() == 0 {
        Seq::empty()
    } else {
        let init = keys.drop_last();
        let key = keys.last();
        if !key.is_count {
            recounted(init, count).push(key.event)
        } else if !has_count(init) {
            recounted(init, count) + key_presses(decimal(count))
        } else {
            recounted(init, count)
        }
    }
}

/// Whether two lists of elements are the same.
fn same_elements(a: &Vec<TextElement>, b: &Vec<TextElement>) -> (r: bool)
    ensures
        r == (element_views(a@) == element_views(b@)),
{
    if a.len() != b.len() {
        assert(element_views(a@).len() != element_views(b@).len());
        return false;
    }
    let mut i: usize = 0;
    while i < a.len()
        invariant
            i <= a.len(),
            a.len() == b.len(),
            forall|j: int| 0 <= j < i ==> element_views(a@)[j] == element_views(b@)[j],
        decreases a.len() - i,
    {
        if a[i].id != b[i].id || a[i].range.start != b[i].range.start || a[i].range.end
            != b[i].range.end {
            assert(element_views(a@)[i as int] != element_views(b@)[i as int]);
            return false;
        }
        i = i + 1;
    }
    assert(element_views(a@) =~= element_views(b@));
    true
}

/// A copy of a list of elements.
pub fn copy_elements(a: &Vec<TextElement>) -> (r: Vec<TextElement>)
    ensures
        element_views(r@) == element_views(a@),
{
    let mut r: Vec<TextElement> = Vec::new();
    let mut i: usize = 0;
    while i < a.len()
        invariant
            i <= a.len(),
            r.len() == i,
            forall|j: int| 0 <= j < i ==> (#[trigger] r@[j])@ == a@[j]@,
        decreases a.len() - i,
    {
        r.push(TextElement { id: a[i].id, range: a[i].range.start..a[i].range.end });
        i = i + 1;
    }
    assert(element_views(r@) =~= element_views(a@));
    r
}

impl TextArea {
    /// Forget the unfinished command, the count and the recorded keys.
    pub fn clear_vim_command_state(&mut self)
        ensures
            final(self)@ == (AreaView {
                keys: KeyStateView::fresh(),
                pending: VimPending::Idle,
                ..old(self)@
            }),
    {
        self.vim_command = VimCommandState::default();
        self.vim_pending = VimPending::Idle;
    }

    /// Record a key that starts or continues a command.
    pub fn begin_vim_key(&mut self, event: KeyEvent)
        ensures
            final(self)@ == with_key(old(self)@, event),
    {
        if self.vim_command.replaying {
            return;
        }
        let key = VimRecordedKey { event, is_count: false };
        match &mut self.vim_command.recording {
            Some(recording) => {
                recording.push(key);
            },
            None => {
                self.vim_command.pending_keys.push(key);
            },
        }
    }

    /// Tag the most recently recorded key as a count digit.
    pub fn mark_vim_key_as_count(&mut self)
        ensures
            final(self)@ == with_count_tag(old(self)@),
    {
        if self.vim_command.replaying {
            return;
        }
        match &mut self.vim_command.recording {
            Some(recording) => {
                let n: usize = recording.len();
                if n > 0 {
                    let event = recording[n - 1].event;
                    recording.set(n - 1, VimRecordedKey { event, is_count: true });
                }
            },
            None => {
                let n: usize = self.vim_command.pending_keys.len();
                if n > 0 {
                    let event = self.vim_command.pending_keys[n - 1].event;
                    self.vim_command.pending_keys.set(
                        n - 1,
                        VimRecordedKey { event, is_count: true },
                    );
                }
            },
        }
    }

    /// Forget the pending keys, unless they belong to a command under way.
    pub fn finish_vim_key(&mut self)
        ensures
            final(self)@ == key_finished(old(self)@),
    {
        if self.vim_command.replaying || self.vim_command.recording.is_some() || self.vim_mode
            != VimMode::Normal || !matches!(self.vim_pending, VimPending::Idle)
            || self.vim_command.count.is_some() {
            return;
        }
        self.vim_command.pending_keys.clear();
    }

    /// Start recording with the pending keys.
    pub fn begin_vim_change_recording(&mut self)
        ensures
            final(self)@ == recording_begun(old(self)@),
    {
        if self.vim_command.replaying || self.vim_command.recording.is_some() {
            return;
        }
        let mut keys: Vec<VimRecordedKey> = Vec::new();
        std::mem::swap(&mut keys, &mut self.vim_command.pending_keys);
        self.vim_command.recording = Some(keys);
    }

    /// Stop recording, and keep the recording if something changed.
    pub fn finish_vim_change_recording(&mut self, changed: bool)
        ensures
            final(self)@ == recording_finished(old(self)@, changed),
    {
        match self.vim_command.recording.take() {
            Some(recording) => {
                if changed && !self.vim_command.replaying && recording.len() != 0 {
                    self.vim_command.last_change = recording;
                }
                self.vim_command.pending_keys.clear();
            },
            None => {},
        }
    }

    /// Forget what could be undone.
    pub fn clear_vim_undo(&mut self)
        ensures
            final(self)@ == (AreaView { undo: UndoView::fresh(), ..old(self)@ }),
    {
        self.vim_undo = VimUndoState::default();
    }

    /// Remember the buffer before its text changes.
    pub fn begin_vim_text_change(&mut self)
        requires
            old(self).wf(),
        ensures
            final(self)@ == change_begun(old(self)@),
            final(self).wf(),
    {
        if !self.vim_enabled || self.vim_undo.active.is_some() {
            return;
        }
        self.vim_undo.active = Some(
            VimUndoSnapshot {
                text: self.text.clone(),
                cursor_pos: self.cursor_pos,
                elements: copy_elements(&self.elements),
            },
        );
        self.begin_vim_change_recording();
    }

    /// In normal mode, end the change under way.
    pub fn finish_vim_text_change(&mut self)
        requires
            old(self).wf(),
        ensures
            final(self)@ == change_finished(old(self)@),
            final(self).wf(),
    {
        if self.vim_enabled && self.vim_mode == VimMode::Normal {
            self.commit_vim_undo_session();
        }
    }

    /// End the change under way, and keep it for undo if it changed anything.
    pub fn commit_vim_undo_session(&mut self)
        requires
            old(self).wf(),
        ensures
            final(self)@ == change_committed(old(self)@),
            final(self).wf(),
    {
        match self.vim_undo.active.take() {
            Some(snapshot) => {
                let changed = !same_text(&snapshot.text, &self.text) || !same_elements(
                    &snapshot.elements,
                    &self.elements,
                );
                if !changed {
                    self.finish_vim_change_recording(false);
                    return;
                }
                let ghost before = self.vim_undo@.history;
                if self.vim_undo.history.len() == VIM_UNDO_LIMIT {
                    self.vim_undo.history.pop_front();
                    assert(self.vim_undo@.history =~= before.drop_first());
                }
                let ghost kept = self.vim_undo@.history;
                let ghost b = snapshot@;
                self.vim_undo.history.push_back(snapshot);
                assert(self.vim_undo@.history =~= kept.push(b));
                self.finish_vim_change_recording(true);
            },
            None => {},
        }
    }

    /// Take back the last change.
    pub fn undo_vim_edit(&mut self)
        requires
            old(self).wf(),
        ensures
            final(self)@ == undone(old(self)@),
            final(self).wf(),
    {
        let ghost before = self.vim_undo@.history;
        match self.vim_undo.history.pop_back() {
            Some(snapshot) => {
                assert(snapshot@ == before.last());
                assert(self.vim_undo@.history =~= before.drop_last());
                self.text = snapshot.text;
                self.cursor_pos = snapshot.cursor_pos;
                self.elements = snapshot.elements;
                self.vim_undo.active = None;
                self.vim_mode = VimMode::Normal;
                self.vim_pending = VimPending::Idle;
                self.preferred_col = None;
            },
            None => {},
        }
    }

    /// Append a digit to a count.
    pub fn push_vim_count_digit(count: &mut Option<usize>, digit: u8)
        ensures
            *final(count) == Some(appended_digit(*old(count), digit, 1)),
    {
        let so_far: usize = count.unwrap_or(0);
        let next: usize = if so_far > VIM_MAX_COUNT {
            VIM_MAX_COUNT
        } else {
            so_far * 10 + digit as usize
        };
        *count = Some(
            if next < 1 {
                1
            } else if next > VIM_MAX_COUNT {
                VIM_MAX_COUNT
            } else {
                next
            },
        );
    }
}

/// The count after one more digit, kept between `least` and the maximum.
pub open spec fn appended_digit(count: Option<usize>, digit: u8, least: usize) -> usize {
    let so_far = match count {
        Some(n) => n as int,
        None => 0,
    };
    let next = so_far * 10 + digit;
    if next < least {
        least
    } else if next > VIM_MAX_COUNT {
        VIM_MAX_COUNT
    } else {
        next as usize
    }
}

/// The events of recorded keys.
pub fn recorded_vim_events(keys: &Vec<VimRecordedKey>) -> (events: Vec<KeyEvent>)
    ensures
        events@ == events_of(keys@),
{
    let mut events: Vec<KeyEvent> = Vec::new();
    let mut i: usize = 0;
    while i < keys.len()
        invariant
            i <= keys.len(),
            events.len() == i,
            forall|j: int| 0 <= j < i ==> events@[j] == keys@[j].event,
        decreases keys.len() - i,
    {
        events.push(keys[i].event);
        i = i + 1;
    }
    assert(events@ =~= events_of(keys@));
    events
}

/// Type the decimal digits of `n` at the end of `events`.
fn push_decimal(events: &mut Vec<KeyEvent>, n: usize)
    ensures
        final(events)@ == old(events)@ + key_presses(decimal(n as nat)),
    decreases n,
{
    let ghost start = events@;
    if n >= 10 {
        push_decimal(events, n / 10);
    }
    let digit: u8 = (n % 10) as u8 + '0' as u8;
    events.push(KeyEvent::new(KeyCode::Char(digit as char), KeyModifiers::none()));
    proof {
        let c = digit as char;
        let d = decimal(n as nat);
        assert(d.len() > 0 && d.last() == c);
        if n >= 10 {
            let rest = decimal((n / 10) as nat);
            assert(d == rest.push(c));
            assert(key_presses(d) =~= key_presses(rest).push(key_presses(d).last()));
        } else {
            assert(d =~= seq![c]);
        }
        assert(events@ =~= start + key_presses(decimal(n as nat)));
    }
}

/// Rewrite `keys` so the count it carries becomes `count`.
///
/// The first digit run is replaced in place, so `d2w` repeats as `d3w`. Later count digits are
/// dropped, collapsing the rare `2d3w` onto one count.
pub fn replace_recorded_vim_count(keys: &Vec<VimRecordedKey>, count: usize) -> (events: Vec<
    KeyEvent,
>)
    ensures
        events@ == recounted(keys@, count as nat),
{
    let mut events: Vec<KeyEvent> = Vec::new();
    let mut replaced = false;
    let mut i: usize = 0;
    while i < keys.len()
        invariant
            i <= keys.len(),
            replaced == has_count(keys@.take(i as int)),
            events@ == recounted(keys@.take(i as int), count as nat),
        decreases keys.len() - i,
    {
        let ghost init = keys@.take(i as int);
        let ghost next = keys@.take(i as int + 1);
        proof {
            assert(next.drop_last() =~= init);
            assert(next.last() == keys@[i as int]);
            if has_count(init) {
                let j = choose|j: int| 0 <= j < init.len() && (#[trigger] init[j]).is_count;
                assert(next[j].is_count);
            }
            if keys@[i as int].is_count {
                assert(next[i as int].is_count);
            }
            if has_count(next) && !keys@[i as int].is_count {
                let j = choose|j: int| 0 <= j < next.len() && (#[trigger] next[j]).is_count;
                assert(init[j].is_count);
            }
        }
        let key = keys[i];
        if !key.is_count {
            events.push(key.event);
        } else if !replaced {
            replaced = true;
            push_decimal(&mut events, count);
        }
        i = i + 1;
    }
    assert(keys@.take(keys@.len() as int) =~= keys@);
    events
}

} // verus!
