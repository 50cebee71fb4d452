//! Core model of a terminal git file explorer: git status parsing, the file tree
//! state and the line editor.

pub mod text;
pub mod strset;
pub mod git;
pub mod path;
pub mod manager;
pub mod status;
pub mod diff;
pub mod app;
pub mod editor;
pub mod scroll;
pub mod layout;
pub mod scan;
pub mod watcher;
pub mod laws;
pub mod view;
