//! Shell shortcuts for a directory tree: one exported variable per directory.
pub mod alias;
pub mod args;
pub mod classify;
pub mod error;
pub mod path;
pub mod script;
pub mod shortcut;
pub mod tree;
