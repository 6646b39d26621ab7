//! A nano-style text editor: its document model, editing operations, undo
//! history, search, key bindings and settings, the editing session that key
//! presses drive, and what the screen shows.
pub mod text;
pub mod undo;
pub mod encoding;
pub mod editor;
pub mod search;
pub mod config;
pub mod bindings_file;
pub mod keys;
pub mod workspace;
pub mod screen;
pub mod text_area;
pub mod prompt;
pub mod completion;
pub mod help;
pub mod laws;
pub mod editing_laws;
