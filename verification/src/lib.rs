//! Core logic of an inline-rendering Markdown editor with Vim-style modal
//! editing: text and table analysis, the colour configuration format, the
//! editor's document model and its Vim command engine.

pub mod text;
pub mod motion;
pub mod table;
pub mod table_source;
pub mod theme;
pub mod config;
pub mod toolbar;
pub mod file_error;
pub mod vim;
pub mod editor;
pub mod vim_edit;
pub mod vim_move;
pub mod vim_visual;
pub mod vim_command;
pub mod vim_keys;
pub mod bindings;
pub mod commands;
pub mod laws;
