//! Editor features for a modal text editor: pull-request diff buffers, a
//! directory edited as a buffer, the quickfix list, the recent-files list,
//! the diagnostics popup, the symbol tree panel and hover under the mouse,
//! with their contracts.
pub mod text;
pub mod github;
pub mod pr_diff;
pub mod path;
pub mod oil;
pub mod recent_files;
pub mod quickfix;
pub mod diagnostics;
pub mod github_commands;
pub mod oil_commands;
pub mod oil_editor;
pub mod mouse_hover;
pub mod symbol_tree;
