//! Which keys press which command.

use crate::keys::{plain, KeyBinding, KeyCode, KeyModifiers};
use vstd::prelude::*;

verus! {

/// The binding of the plain character `c`, alone.
pub open spec fn bound(c: char) -> Seq<KeyBinding> {
    seq![KeyBinding { code: KeyCode::Char(c), modifiers: KeyModifiers::none_held() }]
}

/// The bindings of the plain character `c` and the plain key `code`.
pub open spec fn bound_pair(c: char, code: KeyCode) -> Seq<KeyBinding> {
    seq![
        KeyBinding { code: KeyCode::Char(c), modifiers: KeyModifiers::none_held() },
        KeyBinding { code, modifiers: KeyModifiers::none_held() },
    ]
}

fn bind(c: char) -> (r: Vec<KeyBinding>)
    ensures
        r@ == bound(c),
{
    let mut r: Vec<KeyBinding> = Vec::new();
    r.push(plain(KeyCode::Char(c)));
    assert(r@ =~= bound(c));
    r
}

fn bind_pair(c: char, code: KeyCode) -> (r: Vec<KeyBinding>)
    ensures
        r@ == bound_pair(c, code),
{
    let mut r: Vec<KeyBinding> = Vec::new();
    r.push(plain(KeyCode::Char(c)));
    r.push(plain(code));
    assert(r@ =~= bound_pair(c, code));
    r
}

/// Cursor motions.
#[derive(Debug)]
pub struct VimMotionKeymap {
    pub left: Vec<KeyBinding>,
    pub right: Vec<KeyBinding>,
    pub up: Vec<KeyBinding>,
    pub down: Vec<KeyBinding>,
    pub word_forward: Vec<KeyBinding>,
    pub word_backward: Vec<KeyBinding>,
    pub word_end: Vec<KeyBinding>,
    pub big_word_forward: Vec<KeyBinding>,
    pub big_word_backward: Vec<KeyBinding>,
    pub big_word_end: Vec<KeyBinding>,
    pub line_start: Vec<KeyBinding>,
    pub first_non_blank: Vec<KeyBinding>,
    pub line_end: Vec<KeyBinding>,
}

impl VimMotionKeymap {
    /// The bindings out of the box.
    pub open spec fn is_default(self) -> bool {
        &&& self.left@ == bound_pair('h', KeyCode::Left)
        &&& self.right@ == bound_pair('l', KeyCode::Right)
        &&& self.up@ == bound_pair('k', KeyCode::Up)
        &&& self.down@ == bound_pair('j', KeyCode::Down)
        &&& self.word_forward@ == bound('w')
        &&& self.word_backward@ == bound('b')
        &&& self.word_end@ == bound('e')
        &&& self.big_word_forward@ == bound('W')
        &&& self.big_word_backward@ == bound('B')
        &&& self.big_word_end@ == bound('E')
        &&& self.line_start@ == bound_pair('0', KeyCode::Home)
        &&& self.first_non_blank@ == bound('^')
        &&& self.line_end@ == bound_pair('$', KeyCode::End)
    }

    /// The bindings out of the box.
    pub fn defaults() -> (r: Self)
        ensures
            r.is_default(),
    {
        VimMotionKeymap {
            left: bind_pair('h', KeyCode::Left),
            right: bind_pair('l', KeyCode::Right),
            up: bind_pair('k', KeyCode::Up),
            down: bind_pair('j', KeyCode::Down),
            word_forward: bind('w'),
            word_backward: bind('b'),
            word_end: bind('e'),
            big_word_forward: bind('W'),
            big_word_backward: bind('B'),
            big_word_end: bind('E'),
            line_start: bind_pair('0', KeyCode::Home),
            first_non_blank: bind('^'),
            line_end: bind_pair('$', KeyCode::End),
        }
    }
}

/// Commands of normal mode.
#[derive(Debug)]
pub struct VimNormalKeymap {
    pub enter_insert: Vec<KeyBinding>,
    pub append: Vec<KeyBinding>,
    pub insert_line_start: Vec<KeyBinding>,
    pub append_line_end: Vec<KeyBinding>,
    pub open_below: Vec<KeyBinding>,
    pub open_above: Vec<KeyBinding>,
    pub enter_replace_mode: Vec<KeyBinding>,
    pub replace_char: Vec<KeyBinding>,
    pub delete_char: Vec<KeyBinding>,
    pub substitute_char: Vec<KeyBinding>,
    pub delete_to_line_end: Vec<KeyBinding>,
    pub change_to_line_end: Vec<KeyBinding>,
    pub change_whole_line: Vec<KeyBinding>,
    pub yank_line: Vec<KeyBinding>,
    pub paste_after: Vec<KeyBinding>,
    pub paste_before: Vec<KeyBinding>,
    pub join_lines: Vec<KeyBinding>,
    pub indent_lines: Vec<KeyBinding>,
    pub dedent_lines: Vec<KeyBinding>,
    pub undo: Vec<KeyBinding>,
    pub repeat_last_change: Vec<KeyBinding>,
    pub find_forward: Vec<KeyBinding>,
    pub find_backward: Vec<KeyBinding>,
    pub till_forward: Vec<KeyBinding>,
    pub till_backward: Vec<KeyBinding>,
    pub repeat_find: Vec<KeyBinding>,
    pub repeat_find_reverse: Vec<KeyBinding>,
    pub jump_top: Vec<KeyBinding>,
    pub jump_bottom: Vec<KeyBinding>,
    pub move_buffer_start: Vec<KeyBinding>,
    pub move_buffer_end: Vec<KeyBinding>,
    pub start_delete: Vec<KeyBinding>,
    pub start_yank: Vec<KeyBinding>,
    pub start_change: Vec<KeyBinding>,
    pub motions: VimMotionKeymap,
}

impl VimNormalKeymap {
    /// The bindings out of the box.
    pub open spec fn is_default(self) -> bool {
        &&& self.enter_insert@ == bound('i')
        &&& self.append@ == bound('a')
        &&& self.insert_line_start@ == bound('I')
        &&& self.append_line_end@ == bound('A')
        &&& self.open_below@ == bound('o')
        &&& self.open_above@ == bound('O')
        &&& self.enter_replace_mode@ == bound('R')
        &&& self.replace_char@ == bound('r')
        &&& self.delete_char@ == bound('x')
        &&& self.substitute_char@ == bound('s')
        &&& self.delete_to_line_end@ == bound('D')
        &&& self.change_to_line_end@ == bound('C')
        &&& self.change_whole_line@ == bound('S')
        &&& self.yank_line@ == bound('Y')
        &&& self.paste_after@ == bound('p')
        &&& self.paste_before@ == bound('P')
        &&& self.join_lines@ == bound('J')
        &&& self.indent_lines@ == bound('>')
        &&& self.dedent_lines@ == bound('<')
        &&& self.undo@ == bound('u')
        &&& self.repeat_last_change@ == bound('.')
        &&& self.find_forward@ == bound('f')
        &&& self.find_backward@ == bound('F')
        &&& self.till_forward@ == bound('t')
        &&& self.till_backward@ == bound('T')
        &&& self.repeat_find@ == bound(';')
        &&& self.repeat_find_reverse@ == bound(',')
        &&& self.jump_top@ == Seq::<KeyBinding>::empty()
        &&& self.jump_bottom@ == Seq::<KeyBinding>::empty()
        &&& self.move_buffer_start@ == bound('g')
        &&& self.move_buffer_end@ == bound('G')
        &&& self.start_delete@ == bound('d')
        &&& self.start_yank@ == bound('y')
        &&& self.start_change@ == bound('c')
        &&& self.motions.is_default()
    }

    /// The bindings out of the box.
    pub fn defaults() -> (r: Self)
        ensures
            r.is_default(),
    {
        VimNormalKeymap {
            enter_insert: bind('i'),
            append: bind('a'),
            insert_line_start: bind('I'),
            append_line_end: bind('A'),
            open_below: bind('o'),
            open_above: bind('O'),
            enter_replace_mode: bind('R'),
            replace_char: bind('r'),
            delete_char: bind('x'),
            substitute_char: bind('s'),
            delete_to_line_end: bind('D'),
            change_to_line_end: bind('C'),
            change_whole_line: bind('S'),
            yank_line: bind('Y'),
            paste_after: bind('p'),
            paste_before: bind('P'),
            join_lines: bind('J'),
            indent_lines: bind('>'),
            dedent_lines: bind('<'),
            undo: bind('u'),
            repeat_last_change: bind('.'),
            find_forward: bind('f'),
            find_backward: bind('F'),
            till_forward: bind('t'),
            till_backward: bind('T'),
            repeat_find: bind(';'),
            repeat_find_reverse: bind(','),
            jump_top: Vec::new(),
            jump_bottom: Vec::new(),
            move_buffer_start: bind('g'),
            move_buffer_end: bind('G'),
            start_delete: bind('d'),
            start_yank: bind('y'),
            start_change: bind('c'),
            motions: VimMotionKeymap::defaults(),
        }
    }
}

/// What may follow an operator.
#[derive(Debug)]
pub struct VimOperatorKeymap {
    pub delete_line: Vec<KeyBinding>,
    pub yank_line: Vec<KeyBinding>,
    pub change_line: Vec<KeyBinding>,
    pub motion_find_forward: Vec<KeyBinding>,
    pub motion_find_backward: Vec<KeyBinding>,
    pub motion_till_forward: Vec<KeyBinding>,
    pub motion_till_backward: Vec<KeyBinding>,
    pub motion_repeat_find: Vec<KeyBinding>,
    pub motion_repeat_find_reverse: Vec<KeyBinding>,
    pub motion_jump_top: Vec<KeyBinding>,
    pub motion_jump_bottom: Vec<KeyBinding>,
    pub motion_buffer_start: Vec<KeyBinding>,
    pub select_inner_text_object: Vec<KeyBinding>,
    pub select_around_text_object: Vec<KeyBinding>,
    pub motions: VimMotionKeymap,
}

impl VimOperatorKeymap {
    /// The bindings out of the box.
    pub open spec fn is_default(self) -> bool {
        &&& self.delete_line@ == bound('d')
        &&& self.yank_line@ == bound('y')
        &&& self.change_line@ == bound('c')
        &&& self.motion_find_forward@ == bound('f')
        &&& self.motion_find_backward@ == bound('F')
        &&& self.motion_till_forward@ == bound('t')
        &&& self.motion_till_backward@ == bound('T')
        &&& self.motion_repeat_find@ == bound(';')
        &&& self.motion_repeat_find_reverse@ == bound(',')
        &&& self.motion_jump_top@ == Seq::<KeyBinding>::empty()
        &&& self.motion_jump_bottom@ == bound('G')
        &&& self.motion_buffer_start@ == bound('g')
        &&& self.select_inner_text_object@ == bound('i')
        &&& self.select_around_text_object@ == bound('a')
        &&& self.motions.is_default()
    }

    /// The bindings out of the box.
    pub fn defaults() -> (r: Self)
        ensures
            r.is_default(),
    {
        VimOperatorKeymap {
            delete_line: bind('d'),
            yank_line: bind('y'),
            change_line: bind('c'),
            motion_find_forward: bind('f'),
            motion_find_backward: bind('F'),
            motion_till_forward: bind('t'),
            motion_till_backward: bind('T'),
            motion_repeat_find: bind(';'),
            motion_repeat_find_reverse: bind(','),
            motion_jump_top: Vec::new(),
            motion_jump_bottom: bind('G'),
            motion_buffer_start: bind('g'),
            select_inner_text_object: bind('i'),
            select_around_text_object: bind('a'),
            motions: VimMotionKeymap::defaults(),
        }
    }
}

/// Text objects, after the key that selects inner or around.
#[derive(Debug)]
pub struct VimTextObjectKeymap {
    pub word: Vec<KeyBinding>,
    pub big_word: Vec<KeyBinding>,
    pub parentheses: Vec<KeyBinding>,
    pub brackets: Vec<KeyBinding>,
    pub braces: Vec<KeyBinding>,
    pub double_quote: Vec<KeyBinding>,
    pub single_quote: Vec<KeyBinding>,
    pub backtick: Vec<KeyBinding>,
}

impl VimTextObjectKeymap {
    /// The bindings out of the box.
    pub open spec fn is_default(self) -> bool {
        &&& self.word@ == bound('w')
        &&& self.big_word@ == bound('W')
        &&& self.parentheses@ == bound_pair('(', KeyCode::Char(')'))
        &&& self.brackets@ == bound_pair('[', KeyCode::Char(']'))
        &&& self.braces@ == bound_pair('{', KeyCode::Char('}'))
        &&& self.double_quote@ == bound('"')
        &&& self.single_quote@ == bound('\'')
        &&& self.backtick@ == bound('`')
    }

    /// The bindings out of the box.
    pub fn defaults() -> (r: Self)
        ensures
            r.is_default(),
    {
        VimTextObjectKeymap {
            word: bind('w'),
            big_word: bind('W'),
            parentheses: bind_pair('(', KeyCode::Char(')')),
            brackets: bind_pair('[', KeyCode::Char(']')),
            braces: bind_pair('{', KeyCode::Char('}')),
            double_quote: bind('"'),
            single_quote: bind('\''),
            backtick: bind('`'),
        }
    }
}

} // verus!
