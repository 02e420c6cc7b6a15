//! A modal (Vim-style) text area whose editing behaviour is proved.

pub mod actions;
pub mod area_laws;
pub mod block_laws;
pub mod buffer;
pub mod char_laws;
pub mod command_laws;
pub mod delimiter_laws;
pub mod dot_laws;
pub mod edit_laws;
pub mod editing;
pub mod finds;
pub mod input;
pub mod jump_laws;
pub mod key_laws;
pub mod keymap;
pub mod keys;
pub mod line_edits;
pub mod line_laws;
pub mod lines;
pub mod motion_laws;
pub mod object_laws;
pub mod operators;
pub mod paste_burst;
pub mod reach_laws;
pub mod record_laws;
pub mod replace_laws;
pub mod replay_laws;
pub mod search;
pub mod search_laws;
pub mod segment;
pub mod session_laws;
pub mod shift_laws;
pub mod text;
pub mod text_objects;
pub mod textarea;
pub mod typing;
pub mod typing_laws;
pub mod undo_laws;
pub mod vim;
pub mod vim_commands;
pub mod word_laws;
pub mod words;
