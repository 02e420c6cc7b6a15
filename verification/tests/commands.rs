use vim_textarea::finds::pick_grapheme;
use vim_textarea::keys::{plain, vim_command_char, vim_count_digit};
use vim_textarea::keys::{KeyCode, KeyEvent, KeyModifiers};
use vim_textarea::line_edits::MAX_VIM_PASTE_BYTES;
use vim_textarea::search::SearchQuery;
use vim_textarea::textarea::{KillBufferKind, TextArea};
use vim_textarea::vim::{
    recorded_vim_events, replace_recorded_vim_count, VimFind, VimFindKind, VimIndentDirection,
    VimMode, VimMotion, VimOperator, VimPending, VimRecordedKey, VimTextObject, VimTextObjectScope,
    VIM_MAX_COUNT, VIM_UNDO_LIMIT,
};
use vim_textarea::vim_commands::{
    combined_vim_count, push_vim_count_digit, VimAction, VimEdit, VimEditTarget,
    VimInsertPosition, VimPersistentState,
};

fn normal(text: &str, cursor: usize) -> TextArea {
    let mut area = TextArea::new();
    area.insert_str(text);
    area.set_cursor(cursor);
    area.set_vim_enabled(true);
    area
}

fn key(code: KeyCode) -> KeyEvent {
    KeyEvent::new(code, KeyModifiers::none())
}

fn press(area: &mut TextArea, keys: &str) {
    for ch in keys.chars() {
        let code = match ch {
            '\n' => KeyCode::Enter,
            '\x1b' => KeyCode::Esc,
            '\x08' => KeyCode::Backspace,
            ch => KeyCode::Char(ch),
        };
        area.input(key(code));
    }
}

fn shown(area: &TextArea) -> (String, usize) {
    (area.text().to_string(), area.cursor())
}

#[test]
fn find_kinds_reverse_to_themselves() {
    let kinds = [
        VimFindKind::Forward,
        VimFindKind::Backward,
        VimFindKind::TillForward,
        VimFindKind::TillBackward,
    ];
    for kind in kinds {
        assert_eq!(kind.reversed().reversed(), kind);
        assert_ne!(kind.reversed().is_forward(), kind.is_forward());
    }
    assert_eq!(VimFindKind::TillForward.reversed(), VimFindKind::TillBackward);
}

#[test]
fn counts_are_clamped() {
    let mut count = None;
    push_vim_count_digit(&mut count, 0);
    assert_eq!(count, Some(0));
    push_vim_count_digit(&mut count, 7);
    assert_eq!(count, Some(7));
    push_vim_count_digit(&mut count, 3);
    assert_eq!(count, Some(73));
    push_vim_count_digit(&mut count, 9);
    push_vim_count_digit(&mut count, 9);
    assert_eq!(count, Some(VIM_MAX_COUNT));

    let mut count = None;
    TextArea::push_vim_count_digit(&mut count, 0);
    assert_eq!(count, Some(1));
    let mut count = Some(usize::MAX);
    TextArea::push_vim_count_digit(&mut count, 1);
    assert_eq!(count, Some(VIM_MAX_COUNT));

    assert_eq!(combined_vim_count(None, None), None);
    assert_eq!(combined_vim_count(Some(2), Some(3)), Some(6));
    assert_eq!(combined_vim_count(None, Some(3)), Some(3));
    assert_eq!(combined_vim_count(Some(100), Some(100)), Some(VIM_MAX_COUNT));
    assert_eq!(combined_vim_count(Some(usize::MAX), Some(2)), Some(VIM_MAX_COUNT));
}

#[test]
fn typed_counts_read_back() {
    for n in [1usize, 9, 10, 407, 1000] {
        let keys = vec![VimRecordedKey { event: key(KeyCode::Char('1')), is_count: true }];
        let mut count = None;
        for event in replace_recorded_vim_count(&keys, n) {
            TextArea::push_vim_count_digit(&mut count, vim_count_digit(event).unwrap());
        }
        assert_eq!(count, Some(n));
    }
}

#[test]
fn recorded_counts_are_replaced_in_place() {
    let recorded = |ch: char, is_count: bool| VimRecordedKey {
        event: key(KeyCode::Char(ch)),
        is_count,
    };
    let keys = vec![
        recorded('2', true),
        recorded('d', false),
        recorded('3', true),
        recorded('4', true),
        recorded('w', false),
    ];
    let expect = |text: &str| -> Vec<KeyEvent> {
        text.chars().map(|ch| key(KeyCode::Char(ch))).collect()
    };
    assert_eq!(recorded_vim_events(&keys), expect("2d34w"));
    assert_eq!(replace_recorded_vim_count(&keys, 15), expect("15dw"));
    let plain_keys = vec![recorded('r', false), recorded('2', false)];
    assert_eq!(replace_recorded_vim_count(&plain_keys, 15), expect("r2"));
}

#[test]
fn digits_and_command_characters() {
    assert_eq!(vim_count_digit(key(KeyCode::Char('7'))), Some(7));
    assert_eq!(vim_count_digit(key(KeyCode::Char('x'))), None);
    assert_eq!(vim_count_digit(key(KeyCode::Enter)), None);
    let shifted = KeyEvent::new(KeyCode::Char('7'), KeyModifiers::shift());
    assert_eq!(vim_count_digit(shifted), None);

    assert_eq!(vim_command_char(key(KeyCode::Enter)), Some('\n'));
    assert_eq!(vim_command_char(key(KeyCode::Char('q'))), Some('q'));
    let upper = KeyEvent::new(KeyCode::Char('q'), KeyModifiers::shift());
    assert_eq!(vim_command_char(upper), Some('Q'));
    let accent = KeyEvent::new(KeyCode::Char('é'), KeyModifiers::shift());
    assert_eq!(vim_command_char(accent), Some('é'));
    let control = KeyModifiers { shift: false, control: true, alt: false, alt_gr: false };
    assert_eq!(vim_command_char(KeyEvent::new(KeyCode::Char('q'), control)), None);
    let level_three = KeyModifiers { shift: false, control: true, alt: true, alt_gr: true };
    assert_eq!(vim_command_char(KeyEvent::new(KeyCode::Char('@'), level_three)), Some('@'));
    assert_eq!(vim_command_char(key(KeyCode::Esc)), None);
}

#[test]
fn undo_takes_back_each_kind_of_command() {
    let commands = [
        "x", "3x", "D", "dd", "dw", "de", "d$", "dG", "J", ">>", "rZ", "p", "P", "di(", "dfo",
    ];
    for command in commands {
        let mut area = normal("one (two) three\n  four\nfive", 5);
        area.kill_buffer = "reg".to_string();
        press(&mut area, command);
        assert_ne!(area.text(), "one (two) three\n  four\nfive", "{command}");
        press(&mut area, "u");
        assert_eq!(area.text(), "one (two) three\n  four\nfive", "{command}");
    }
}

#[test]
fn undo_groups_replace_sessions() {
    let mut area = normal("hello\nworld", 1);
    press(&mut area, "Rxy\x08zz\x1b");
    assert_eq!(area.text(), "hxzzo\nworld");
    press(&mut area, "u");
    assert_eq!(shown(&area), ("hello\nworld".to_string(), 1));
}

#[test]
fn undo_history_forgets_the_oldest_change() {
    let mut area = normal(&"x".repeat(VIM_UNDO_LIMIT + 5), 0);
    for _ in 0..VIM_UNDO_LIMIT + 5 {
        press(&mut area, "x");
    }
    assert_eq!(area.vim_undo.history.len(), VIM_UNDO_LIMIT);
    for _ in 0..VIM_UNDO_LIMIT + 5 {
        press(&mut area, "u");
    }
    assert_eq!(area.text().len(), VIM_UNDO_LIMIT);
}

#[test]
fn replayed_changes_stay_the_last_change() {
    let mut area = normal("abcdefghijklmnop", 0);
    press(&mut area, "2x");
    assert_eq!(area.vim_commands.last_change.len(), 1);
    press(&mut area, "4.");
    assert_eq!(area.text(), "ghijklmnop");
    press(&mut area, ".");
    assert_eq!(area.text(), "klmnop", "the new count persists");
    match &area.vim_commands.last_change[0] {
        VimEdit::Editor(edit) => assert_eq!(edit.count, Some(4)),
        VimEdit::Text(_) => panic!("the change is an action"),
    }
}

#[test]
fn refused_edits_record_nothing() {
    let mut area = normal("abc", 0);
    press(&mut area, "x");
    press(&mut area, "fz");
    press(&mut area, "dfz");
    assert_eq!(area.text(), "bc");
    press(&mut area, ".");
    assert_eq!(area.text(), "c", "`.` repeats the x");
    let mut fresh = normal("abc", 0);
    press(&mut fresh, ".");
    assert_eq!(fresh.text(), "abc");
    assert!(fresh.vim_repeat_actions().is_none());
    assert!(fresh.begin_vim_repeat().is_none());
}

#[test]
fn insert_sessions_replay_their_edits() {
    let mut area = normal("one\ntwo", 0);
    press(&mut area, "Aab\x08c\x1b");
    assert_eq!(area.text(), "oneac\ntwo");
    press(&mut area, "j.");
    assert_eq!(area.text(), "oneac\ntwoac");
    assert_eq!(area.vim_mode_label(), Some("Normal"));

    let mut area = normal("abcdef", 0);
    press(&mut area, "RXY\x1b");
    assert_eq!(shown(&area), ("XYcdef".to_string(), 1));
    press(&mut area, "l.");
    assert_eq!(area.text(), "XYXYef");
}

#[test]
fn recorded_keys_can_be_typed_again() {
    let mut area = normal("abcdefghij", 0);
    press(&mut area, "2x");
    area.repeat_recorded_vim_keys(Some(3));
    assert_eq!(area.text(), "fghij");
    area.repeat_recorded_vim_keys(None);
    assert_eq!(area.text(), "hij");

    let mut area = normal("ab", 0);
    press(&mut area, "iX\x1b");
    area.repeat_recorded_vim_keys(Some(3));
    assert_eq!(area.text(), "XXXXab");

    let mut area = normal("ab", 0);
    area.repeat_recorded_vim_keys(Some(3));
    assert_eq!(area.text(), "ab");
}

#[test]
fn replace_mode_takes_back_what_it_overwrote() {
    let mut area = normal("hello", 1);
    press(&mut area, "Rabc");
    assert_eq!(shown(&area), ("habco".to_string(), 4));
    assert!(area.is_vim_replace_mode());
    press(&mut area, "\x08\x08");
    assert_eq!(shown(&area), ("hallo".to_string(), 2));
    press(&mut area, "\x08");
    assert_eq!(shown(&area), ("hello".to_string(), 1));
    press(&mut area, "\x08");
    assert_eq!(shown(&area), ("hello".to_string(), 1), "nothing is left to restore");

    let mut area = normal("ab\ncd", 1);
    press(&mut area, "Rxyz\n");
    assert_eq!(area.text(), "axyz\n\ncd", "a newline and the line end are never overwritten");
    press(&mut area, "\x08\x08\x08\x08");
    assert_eq!(shown(&area), ("ab\ncd".to_string(), 1));
}

#[test]
fn replace_mode_skips_elements() {
    let mut area = TextArea::new();
    area.insert_str("a");
    area.insert_element("[slot]");
    area.insert_str("bc");
    area.set_cursor(1);
    area.set_vim_enabled(true);
    press(&mut area, "RX");
    assert_eq!(area.text(), "a[slot]Xc");
    assert_eq!(area.text_element_snapshots().len(), 1);
    press(&mut area, "\x08");
    assert_eq!(shown(&area), ("a[slot]bc".to_string(), 1));
    assert_eq!(area.text_element_snapshots().len(), 1);
}

#[test]
fn shifting_back_restores_text_and_elements() {
    let mut area = TextArea::new();
    area.insert_element("[one]");
    area.insert_str(" x\n\n y ");
    area.insert_element("[two]");
    area.insert_str("\nz");
    area.set_cursor(0);
    area.set_vim_enabled(true);
    let places = |area: &TextArea| -> Vec<(usize, usize)> {
        area.text_element_snapshots().iter().map(|e| (e.range.start, e.range.end)).collect()
    };
    assert_eq!(places(&area), vec![(0, 5), (12, 17)]);
    assert!(area.indent_vim_lines(VimIndentDirection::Increase, 3));
    assert_eq!(area.text(), "  [one] x\n\n   y [two]\nz");
    assert_eq!(area.cursor(), 2);
    assert_eq!(places(&area), vec![(2, 7), (16, 21)]);
    assert!(area.indent_vim_lines(VimIndentDirection::Decrease, 3));
    assert_eq!(area.text(), "[one] x\n\n y [two]\nz");
    assert_eq!(places(&area), vec![(0, 5), (12, 17)]);
}

#[test]
fn paste_bursts_are_retracted() {
    let mut area = normal("hello world", 2);
    press(&mut area, "R");
    area.insert_str("e\u{301}xyz");
    assert_eq!(area.text(), "hee\u{301}xyzworld");
    assert!(area.retract_paste_burst(2));
    assert_eq!(shown(&area), ("hello world".to_string(), 2));

    press(&mut area, "ab");
    area.set_cursor(0);
    press(&mut area, "c");
    assert!(!area.retract_paste_burst(2), "not typed in one go");
    assert!(!area.retract_paste_burst(40));

    let mut area = normal("", 0);
    press(&mut area, "i");
    area.insert_str("pasted");
    assert!(area.retract_paste_burst(2));
    assert_eq!(shown(&area), ("pa".to_string(), 2));
}

#[test]
fn bursts_across_elements_are_not_retracted() {
    let mut area = TextArea::new();
    area.insert_str("ab");
    area.insert_element("[slot]");
    area.insert_str("cd");
    area.set_cursor(1);
    area.set_vim_enabled(true);
    press(&mut area, "Rxy");
    assert_eq!(area.text(), "ax[slot]yd");
    assert!(!area.retract_paste_burst(1));
    assert_eq!(area.text(), "ax[slot]yd");
}

#[test]
fn every_overtyped_character_is_restored_in_turn() {
    let mut area = TextArea::new();
    area.insert_str("ab");
    area.insert_element("[slot]");
    area.insert_str("c\nd");
    area.set_cursor(1);
    area.set_vim_enabled(true);
    press(&mut area, "R");
    let elements = |area: &TextArea| -> Vec<(usize, usize)> {
        area.text_element_snapshots().iter().map(|e| (e.range.start, e.range.end)).collect()
    };
    let before = (shown(&area), elements(&area));
    area.replace_vim_text("xy\u{7f}\nz");
    assert_eq!(area.text(), "ax[slot]y\u{7f}\nz\nd");
    for _ in 0..5 {
        assert!(area.restore_vim_replaced_character());
    }
    assert_eq!((shown(&area), elements(&area)), before);
    assert!(!area.restore_vim_replaced_character());
    assert_eq!((shown(&area), elements(&area)), before);
}

#[test]
fn tills_stop_one_step_beside_finds() {
    let text = "xa\tb\u{7f}xcxd";
    let reach = |kind: VimFindKind, target: char, count: usize| {
        let mut area = normal(text, 4);
        let done = area.find_vim_character(kind, None, target, count);
        (done, area.cursor())
    };
    assert_eq!(reach(VimFindKind::Forward, 'x', 2), (true, 7));
    assert_eq!(reach(VimFindKind::TillForward, 'x', 2), (true, 6));
    assert_eq!(reach(VimFindKind::Backward, 'x', 1), (true, 0));
    assert_eq!(reach(VimFindKind::TillBackward, 'x', 1), (true, 1));
    assert_eq!(reach(VimFindKind::Forward, 'x', 3), (false, 4));
    assert_eq!(reach(VimFindKind::TillForward, 'x', 3), (false, 4));

    let cut = |kind: VimFindKind, count: usize| {
        let mut area = normal(text, 4);
        assert!(area.find_vim_character(kind, Some(VimOperator::Delete), 'x', count));
        (area.text().to_string(), area.kill_buffer.clone())
    };
    assert_eq!(cut(VimFindKind::Forward, 2), ("xa\tbd".to_string(), "\u{7f}xcx".to_string()));
    assert_eq!(cut(VimFindKind::TillForward, 2), ("xa\tbxd".to_string(), "\u{7f}xc".to_string()));
    assert_eq!(cut(VimFindKind::Backward, 1), ("\u{7f}xcxd".to_string(), "xa\tb".to_string()));
    assert_eq!(cut(VimFindKind::TillBackward, 1), ("x\u{7f}xcxd".to_string(), "a\tb".to_string()));
}

#[test]
fn finds_succeed_when_the_line_holds_enough() {
    for count in 1..5 {
        let mut area = normal("a.b.c.\n.", 0);
        let found = area.find_vim_character(VimFindKind::Forward, None, '.', count);
        assert_eq!(found, count <= 3);
        assert_eq!(area.cursor(), if found { 2 * count - 1 } else { 0 });
        let mut area = normal("a.b.c.\n.", 5);
        let found = area.find_vim_character(VimFindKind::Backward, None, '.', count);
        assert_eq!(found, count <= 2);
        assert_eq!(area.cursor(), if found { 5 - 2 * count } else { 5 });
    }
}

#[test]
fn steps_back_go_by_single_characters() {
    let mut area = normal("  ab cd", 7);
    assert_eq!(area.prev_atomic_boundary(7), 6);
    assert_eq!(area.vim_line_end_cursor(), 6);
    assert_eq!(area.beginning_of_previous_big_word(), 5);
    assert_eq!(area.beginning_of_previous_big_word_from(5), 2);
    assert_eq!(area.beginning_of_previous_big_word_from(2), 0);
    press(&mut area, "ix\x1b");
    assert_eq!(shown(&area), ("  ab cdx".to_string(), 7));
}

#[test]
fn changes_over_find_motions_go_by_the_mode() {
    let find = VimFind { kind: VimFindKind::Forward, target: 'z' };
    let target = || VimEditTarget::Motion(VimMotion::Find(find));
    let mut area = normal("abc", 0);
    assert!(!area.apply_vim_editor_action(VimAction::Change(target()), None));
    press(&mut area, "i");
    assert!(area.apply_vim_editor_action(VimAction::Change(target()), None));
    assert!(!area.apply_vim_editor_action(VimAction::Delete(target()), None));
    let find = VimEditTarget::Find { motion: VimFindKind::Forward, target: 'z' };
    assert!(!area.apply_vim_editor_action(VimAction::Change(find), None));
    assert_eq!(area.text(), "abc");
}

#[test]
fn joins_take_newlines_and_keep_the_rest() {
    let text = "a\n  b\n\n\u{3000}c\nd";
    for (count, newlines) in [(0, 4), (1, 4), (2, 3), (4, 1), (5, 0), (9, 0)] {
        let mut area = normal(text, 0);
        assert_eq!(area.join_vim_lines(count), newlines < 4);
        assert_eq!(area.text().matches('\n').count(), newlines);
        let solid: String = area.text().chars().filter(|c| !c.is_whitespace()).collect();
        assert_eq!(solid, "abcd");
    }
}

#[test]
fn pasted_lines_stand_as_a_block() {
    for (after, lines) in [
        (false, vec!["a", "x", "", "x", "", "b", "c"]),
        (true, vec!["a", "b", "x", "", "x", "", "c"]),
    ] {
        let mut area = normal("a\nb\nc", 2);
        area.kill_buffer = "x\n\n".to_string();
        area.kill_buffer_kind = KillBufferKind::Linewise;
        area.paste_vim(after, 2);
        assert_eq!(area.text().split('\n').collect::<Vec<_>>(), lines);
    }
}

#[test]
fn sessions_are_recorded_as_command_and_text() {
    let recorded = |keys: &str| {
        let mut area = normal("one two", 0);
        press(&mut area, keys);
        let edits = area.vim_repeat_actions().unwrap();
        let texts: Vec<String> = edits[1..]
            .iter()
            .map(|edit| match edit {
                VimEdit::Text(text) => text.clone(),
                VimEdit::Editor(_) => panic!("one command only"),
            })
            .collect();
        (matches!(edits[0], VimEdit::Editor(_)), texts)
    };
    assert_eq!(recorded("cwab\ncd\x1b"), (true, vec!["ab\ncd".to_string()]));
    assert_eq!(recorded("Aab\x1b"), (true, vec!["ab".to_string()]));
    assert_eq!(recorded("Rab\x1b"), (true, vec!["a".to_string(), "b".to_string()]));
    assert_eq!(recorded("cw\x1b"), (true, vec![]));
    assert_eq!(recorded("xi\x1b"), (true, vec![]));
}

#[test]
fn pastes_are_bounded() {
    let mut area = normal("ab", 0);
    area.kill_buffer = "x".repeat(MAX_VIM_PASTE_BYTES - 2);
    area.paste_vim(true, 1);
    assert_eq!(area.text().len(), MAX_VIM_PASTE_BYTES);
    let mut area = normal("abc", 0);
    area.kill_buffer = "x".repeat(MAX_VIM_PASTE_BYTES - 2);
    area.paste_vim(true, 1);
    assert_eq!(area.text(), "abc");
    let mut area = normal("abc", 0);
    area.kill_buffer = "line".to_string();
    area.kill_buffer_kind = KillBufferKind::Linewise;
    area.paste_vim(false, 2);
    assert_eq!(shown(&area), ("line\nline\nabc".to_string(), 0));
    area.kill_buffer = String::new();
    area.paste_vim(false, 2);
    assert_eq!(area.text(), "line\nline\nabc");
}

#[test]
fn dedenting_takes_tabs_and_up_to_two_spaces() {
    let mut area = normal("\tone\n three\n    five\nsix", 0);
    press(&mut area, "4<<");
    assert_eq!(shown(&area), ("one\nthree\n  five\nsix".to_string(), 0));
    let mut area = normal("one\n\ntwo", 0);
    assert!(area.indent_vim_lines(VimIndentDirection::Increase, 9));
    assert_eq!(area.text(), "  one\n\n  two", "empty lines are not indented");
    assert!(area.indent_vim_lines(VimIndentDirection::Decrease, 9));
    assert_eq!(area.text(), "one\n\ntwo");
    assert!(!area.indent_vim_lines(VimIndentDirection::Decrease, 9));
}

#[test]
fn joins_stop_at_the_last_line() {
    let mut area = normal("one\n\n  two", 0);
    assert!(area.join_vim_lines(9));
    assert_eq!(area.text(), "one two");
    assert!(!area.join_vim_lines(2));
    assert_eq!(area.text(), "one two");
}

#[test]
fn finds_land_on_graphemes() {
    let mut area = normal("a e\u{301} e b", 0);
    press(&mut area, "fe");
    assert_eq!(area.cursor(), 2, "the accented letter starts with e");
    press(&mut area, ";");
    assert_eq!(area.cursor(), 6);
    press(&mut area, "Fa");
    assert_eq!(area.cursor(), 0);
    press(&mut area, "f\u{301}");
    assert_eq!(area.cursor(), 0, "a combining mark is no target");
    assert!(!area.is_vim_command_target(3));
    assert!(area.is_vim_command_target(2));
    press(&mut area, "tb");
    assert_eq!(area.cursor(), 7);
    press(&mut area, "Ta");
    assert_eq!(area.cursor(), 1);
}

#[test]
fn finds_do_not_aim_into_elements() {
    let mut area = TextArea::new();
    area.insert_str("ab ");
    area.insert_element("[x]");
    area.insert_str(" x");
    area.set_cursor(0);
    area.set_vim_enabled(true);
    press(&mut area, "fx");
    assert_eq!(area.cursor(), 7);
    assert!(!area.is_vim_command_target(4));
    assert!(area.is_vim_command_target(7));
    let end = area.text().len();
    assert!(area.is_vim_command_target(end));
    assert!(!area.is_vim_command_target(end + 1));
    assert!(!area.find_vim_character(VimFindKind::Forward, None, 'x', 1));
    assert!(area.find_vim_character(VimFindKind::Backward, None, 'b', 1));
    assert_eq!(area.cursor(), 1);
    press(&mut area, "tx");
    assert_eq!(area.cursor(), 6);
    area.set_cursor(7);
    assert!(area.vim_till_target_is_adjacent(VimFindKind::TillBackward, ' '));
    assert!(!area.vim_till_target_is_adjacent(VimFindKind::TillForward, ' '));
}

#[test]
fn operators_over_finds() {
    let mut area = normal("a.b.c", 0);
    press(&mut area, "d2f.");
    assert_eq!((area.text(), area.kill_buffer.as_str()), ("c", "a.b."));
    let mut area = normal("a.b.c", 0);
    press(&mut area, "dt.");
    assert_eq!((area.text(), area.kill_buffer.as_str()), (".b.c", "a"));
    let mut area = normal("a.b.c", 4);
    press(&mut area, "dF.");
    assert_eq!((area.text(), area.kill_buffer.as_str()), ("a.bc", "."));
    let mut area = normal("a.b.c", 4);
    press(&mut area, "2T.");
    assert_eq!(area.cursor(), 2);
    let mut area = normal("a.b.c", 4);
    press(&mut area, "yF.");
    assert_eq!((area.cursor(), area.kill_buffer.as_str()), (3, "."));
    press(&mut area, "cf.");
    assert_eq!(area.vim_mode_label(), Some("Normal"), "the target is under the cursor");
    press(&mut area, "0cf.new\x1b");
    assert_eq!(area.text(), "newb.c");
}

#[test]
fn graphemes_are_deleted_whole() {
    let family = "👨\u{200d}👩\u{200d}👧";
    let mut area = normal(&format!("{family}ab"), 0);
    press(&mut area, "x");
    assert_eq!(area.text(), "ab");
    let mut area = normal(&format!("a{family}"), 0);
    press(&mut area, "A\x08\x1b");
    assert_eq!(area.text(), "a");
    let mut area = normal("e\u{301}bc", 3);
    press(&mut area, "h");
    assert_eq!(area.cursor(), 0);
    press(&mut area, "3rx");
    assert_eq!(shown(&area), ("xxx".to_string(), 2));
    press(&mut area, "ré");
    assert_eq!(shown(&area), ("xxé".to_string(), 2));
}

#[test]
fn word_pieces_follow_word_boundaries() {
    let mut area = normal("don't stop.now", 0);
    press(&mut area, "dw");
    assert_eq!(area.text(), "'t stop.now");
    let mut area = normal("世界", 0);
    press(&mut area, "dw");
    assert_eq!(area.text(), "界", "ideographs are words of their own");
    let mut area = normal("foo_bar baz", 0);
    press(&mut area, "de");
    assert_eq!(area.text(), " baz");
    let mut area = normal("foo.bar", 0);
    press(&mut area, "w");
    assert_eq!(area.cursor(), 3);
    press(&mut area, "w");
    assert_eq!(area.cursor(), 4);
    press(&mut area, "b");
    assert_eq!(area.cursor(), 3);
    press(&mut area, "e");
    assert_eq!(area.cursor(), 6);
}

#[test]
fn text_objects_select_inner_and_around() {
    let cases = [
        ("foo bar baz", 5, "diw", "foo  baz"),
        ("foo bar baz", 5, "daw", "foo baz"),
        ("foo bar", 5, "daw", "foo"),
        ("a b-c d", 3, "diW", "a  d"),
        ("f(a, (b), c)", 6, "di(", "f(a, (), c)"),
        ("f(a, (b), c)", 3, "di(", "f()"),
        ("f(a, (b), c)", 6, "da)", "f(a, , c)"),
        ("x[1]{2}", 2, "di[", "x[]{2}"),
        ("x[1]{2}", 5, "da}", "x[1]"),
        ("say \"hi \\\" there\" ok", 6, "di\"", "say \"\" ok"),
        ("it's 'so' `q`", 4, "di'", "it''so' `q`"),
        ("it's 'so' `q`", 6, "di'", "it's 'so' `q`"),
        ("it is `q`", 7, "da`", "it is "),
        ("nothing", 3, "di(", "nothing"),
    ];
    for (text, cursor, keys, expected) in cases {
        let mut area = normal(text, cursor);
        press(&mut area, keys);
        assert_eq!(area.text(), expected, "{text} {keys}");
    }
    let area = normal("((x))", 2);
    let inner = area.text_object_range(VimTextObject::Parentheses, VimTextObjectScope::Inner);
    let around = area.text_object_range(VimTextObject::Parentheses, VimTextObjectScope::Around);
    assert_eq!(inner, Some(2..3));
    assert_eq!(around, Some(1..4));
}

#[test]
fn brackets_inside_elements_do_not_count() {
    let mut area = TextArea::new();
    area.insert_str("(a");
    area.insert_element("[)]");
    area.insert_str("b)c");
    area.set_cursor(1);
    area.set_vim_enabled(true);
    press(&mut area, "di(");
    assert_eq!(area.text(), "()c");
}

#[test]
fn escape_and_mismatched_keys_cancel() {
    let sequences = [
        "3\x1b", "d\x1b", "d2\x1b", ">\x1b", "f\x1b", "r\x1b", "di\x1b", "g\x1b", "><", "diz",
        "dz",
    ];
    for keys in sequences {
        let mut area = normal("one two", 2);
        press(&mut area, keys);
        assert_eq!(shown(&area), ("one two".to_string(), 2), "{keys}");
        assert!(!area.is_vim_operator_pending(), "{keys}");
        assert_eq!(area.vim_pending, VimPending::Idle);
    }
}

#[test]
fn motions_and_yanks_change_no_text() {
    let sequences = [
        "w", "b", "e", "W", "B", "E", "0", "^", "$", "h", "l", "j", "k", "fo", "gg", "G", "yw", "yy",
        "yj", "yG", "ygg", "yiw", "y$", "yfo",
    ];
    for keys in sequences {
        let mut area = normal("one two\n three", 4);
        press(&mut area, keys);
        assert_eq!(area.text(), "one two\n three", "{keys}");
        assert_eq!(area.vim_undo.history.len(), 0, "{keys}");
    }
    let mut area = normal("one two\n three", 4);
    press(&mut area, "yiw");
    assert_eq!(area.kill_buffer, "two");
    press(&mut area, "$");
    assert_eq!(area.cursor(), 6);
    press(&mut area, "2$");
    assert_eq!(area.cursor(), 13);
}

#[test]
fn insert_positions() {
    let cases = [
        ("iX", "  aXb\nc"),
        ("aX", "  abX\nc"),
        ("IX", "  Xab\nc"),
        ("AX", "  abX\nc"),
        ("oX", "  ab\nX\nc"),
        ("OX", "X\n  ab\nc"),
        ("sX", "  aX\nc"),
        ("CX", "  aX\nc"),
        ("SX", "X\nc"),
    ];
    for (keys, expected) in cases {
        let mut area = normal("  ab\nc", 3);
        press(&mut area, keys);
        assert_eq!(area.text(), expected, "{keys}");
        assert_eq!(area.vim_mode_label(), Some("Insert"));
    }
    let mut area = normal("a", 0);
    press(&mut area, "ob\x1b");
    assert_eq!(shown(&area), ("a\nb".to_string(), 2));
}

#[test]
fn vertical_moves_keep_the_column() {
    let mut area = normal("abcd\ne\nfghi", 3);
    press(&mut area, "j");
    assert_eq!(area.cursor(), 6);
    press(&mut area, "j");
    assert_eq!(area.cursor(), 10);
    press(&mut area, "2k");
    assert_eq!(area.cursor(), 3);
    press(&mut area, "k");
    assert_eq!(area.cursor(), 3);
}

#[test]
fn buffer_jumps_under_operators() {
    let mut area = normal("one\ntwo\nthree", 5);
    press(&mut area, "dgg");
    assert_eq!((area.text(), area.kill_buffer.as_str()), ("three", "one\ntwo\n"));
    let mut area = normal("one\ntwo\nthree", 5);
    press(&mut area, "yG");
    assert_eq!(area.kill_buffer, "two\nthree");
    assert_eq!(area.kill_buffer_kind, KillBufferKind::Linewise);
    let mut area = normal("one\ntwo\nthree", 5);
    press(&mut area, "c3GX\x1b");
    assert_eq!(area.text(), "one\nX");
    press(&mut area, "u.");
    assert_eq!(area.text(), "one\nX");
}

#[test]
fn searches_go_around_the_text() {
    let mut area = normal("foo bar foo", 0);
    let query = SearchQuery { pattern: "foo".to_string(), backward: false };
    assert!(area.apply_vim_search(&query, None));
    assert_eq!(area.cursor(), 8);
    assert!(area.apply_vim_search(&query, None));
    assert_eq!(area.cursor(), 0);
    let query = SearchQuery { pattern: "bar".to_string(), backward: true };
    assert!(area.apply_vim_search(&query, Some(VimOperator::Delete)));
    assert_eq!(area.text(), "bar foo");
    let missing = SearchQuery { pattern: "zzz".to_string(), backward: false };
    assert!(!area.apply_vim_search(&missing, None));
    assert!(!area.apply_vim_search(&SearchQuery::default(), None));
    assert!(area.start_vim_edit(VimAction::Delete(VimEditTarget::Search(query)), None) == false);
}

#[test]
fn persistent_state_is_exchanged() {
    let mut area = normal("abc", 0);
    press(&mut area, "x");
    area.vim_search.last = SearchQuery { pattern: "b".to_string(), backward: true };
    let mut kept = VimPersistentState::default();
    area.swap_vim_persistent_state(&mut kept);
    assert!(area.vim_repeat_actions().is_none());
    assert_eq!(area.vim_search.last.pattern, "");
    assert_eq!(kept.commands.last_change.len(), 1);
    area.swap_vim_persistent_state(&mut kept);
    assert_eq!(area.vim_repeat_actions().map(|edits| edits.len()), Some(1));
    assert_eq!(area.vim_search.last.pattern, "b");
    assert!(kept.commands.last_change.is_empty());
}

#[test]
fn editing_keys_of_insert_mode() {
    let control = KeyModifiers { shift: false, control: true, alt: false, alt_gr: false };
    let alt = KeyModifiers { shift: false, control: false, alt: true, alt_gr: false };
    let mut area = TextArea::new();
    area.insert_str("one two\nthree four");
    assert_eq!(area.vim_mode_label(), None);
    area.input(KeyEvent::new(KeyCode::Char('w'), control));
    assert_eq!(area.text(), "one two\nthree ");
    area.input(KeyEvent::new(KeyCode::Char('u'), control));
    assert_eq!(area.text(), "one two\n");
    area.input(key(KeyCode::Up));
    area.input(KeyEvent::new(KeyCode::Char('f'), alt));
    assert_eq!(area.cursor(), 3);
    area.input(KeyEvent::new(KeyCode::Char('k'), control));
    assert_eq!(area.text(), "one\n");
    area.input(key(KeyCode::Home));
    area.input(key(KeyCode::Delete));
    area.input(key(KeyCode::End));
    area.input(key(KeyCode::Char('X')));
    area.input(key(KeyCode::Enter));
    assert_eq!(area.text(), "neX\n\n");
    area.input(KeyEvent::new(KeyCode::Char('a'), control));
    area.input(KeyEvent::new(KeyCode::Char('d'), alt));
    area.input(key(KeyCode::Esc));
    assert_eq!(area.vim_mode, VimMode::Normal);
}

#[test]
fn actions_report_whether_they_did_anything() {
    let mut area = normal("ab", 1);
    assert!(!area.apply_vim_editor_action(VimAction::Replace('x'), Some(2)));
    assert!(area.apply_vim_editor_action(VimAction::Replace('\n'), None));
    assert_eq!(shown(&area), ("a\n".to_string(), 2));
    assert!(!area.apply_vim_editor_action(VimAction::Delete(VimEditTarget::Character), None));
    assert!(!area.apply_vim_editor_action(VimAction::PasteAfter, None));
    assert!(!area.apply_vim_editor_action(VimAction::RestoreReplacedCharacter, None));
    let target = VimEditTarget::TextObject {
        scope: VimTextObjectScope::Inner,
        object: VimTextObject::Braces,
    };
    assert!(!area.apply_vim_editor_action(VimAction::Change(target), None));
    assert_eq!(area.vim_mode, VimMode::Normal);
    let position = VimInsertPosition::Cursor;
    assert!(area.apply_vim_editor_action(VimAction::Insert(position), None));
    assert!(area.apply_vim_edit(&VimEdit::Text("z".to_string())));
    assert_eq!(area.text(), "a\nz");
    area.leave_vim_insert_mode();
    assert!(!area.apply_vim_edit(&VimEdit::Text("z".to_string())));
}

#[test]
fn whitespace_is_unicode_whitespace() {
    for code in 0..=0x10ffffu32 {
        if let Some(ch) = char::from_u32(code) {
            assert_eq!(vim_textarea::text::is_whitespace(ch), ch.is_whitespace(), "{code:x}");
        }
    }
}

#[test]
fn remapped_keys_are_honored() {
    let mut area = normal("abc", 0);
    area.vim_normal_keymap.delete_char = vec![plain(KeyCode::Char('z'))];
    press(&mut area, "xz");
    assert_eq!(area.text(), "bc");
    area.vim_operator_keymap.select_inner_text_object = vec![plain(KeyCode::Char('n'))];
    area.vim_text_object_keymap.word = vec![plain(KeyCode::Char('o'))];
    press(&mut area, "dno");
    assert_eq!(area.text(), "");
}

#[test]
fn segmentation_results_are_used_as_given() {
    let starts = vec![0usize, 1, 4, 5];
    let found = vec![1usize, 3];
    assert_eq!(pick_grapheme(10, 17, &starts, &found, 1, true), Some((11, 14)));
    assert_eq!(pick_grapheme(10, 17, &starts, &found, 2, true), Some((15, 17)));
    assert_eq!(pick_grapheme(10, 17, &starts, &found, 1, false), Some((15, 17)));
    assert_eq!(pick_grapheme(10, 17, &starts, &found, 3, true), None);
    assert_eq!(pick_grapheme(10, 17, &starts, &found, 0, true), None);

    let mut area = TextArea::new();
    area.insert_str("ab");
    area.insert_element("[x]");
    area.insert_str("cd");
    assert_eq!(area.atomic_end(0, Some(1)), 1);
    assert_eq!(area.atomic_end(2, Some(3)), 5);
    assert_eq!(area.atomic_end(1, Some(3)), 5, "no stop inside an element");
    assert_eq!(area.atomic_end(7, None), 7);
    assert_eq!(area.atomic_start(7, Some(6)), 6);
    assert_eq!(area.atomic_start(5, Some(4)), 2);
    assert_eq!(area.atomic_start(0, None), 0);
    assert!(area.may_aim_at(0, true));
    assert!(!area.may_aim_at(0, false));
    assert!(!area.may_aim_at(3, true));
    assert_eq!(area.last_grapheme_start(&vec![0, 4]), 2);
    assert_eq!(area.last_grapheme_start(&vec![]), 7);
    assert_eq!(area.hits_among('c', 0, &vec![0, 5, 6]), vec![1]);

    let area = normal("abcdef", 0);
    assert_eq!(area.piece_range_in(&vec![0, 2, 4], 0, 6, 3), 2..4);
    assert_eq!(area.end_of_piece(&vec![0, 2, 4], 0, 6, 4), 6);
    assert!(area.starts_piece(&vec![0, 2], 1, 3));
    assert!(!area.starts_piece(&vec![0, 2], 1, 4));

    let mut area = normal("abcdef", 1);
    press(&mut area, "R");
    area.replace_vim_graphemes("xyz", &vec![0, 2]);
    assert_eq!(shown(&area), ("axyzdef".to_string(), 4));
    assert!(area.retract_paste_burst(1));
    assert_eq!(shown(&area), ("abcdef".to_string(), 1));
}

#[test]
fn dot_is_the_command_again() {
    for keys in ["x", "dw", "J", ">>", "rz", "p"] {
        let mut by_dot = normal("one two three\nfour\nfive six", 0);
        by_dot.kill_buffer = "+".to_string();
        let mut by_hand = normal("one two three\nfour\nfive six", 0);
        by_hand.kill_buffer = "+".to_string();
        press(&mut by_dot, keys);
        press(&mut by_hand, keys);
        press(&mut by_dot, "2.");
        press(&mut by_hand, &format!("2{keys}"));
        assert_eq!(shown(&by_dot), shown(&by_hand), "{keys}");
        press(&mut by_dot, ".");
        press(&mut by_hand, &format!("2{keys}"));
        assert_eq!(shown(&by_dot), shown(&by_hand), "{keys}");
    }
}
