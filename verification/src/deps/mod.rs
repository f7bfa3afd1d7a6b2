pub mod ansi;
pub mod bubbles;
pub mod bubbletea;
pub mod clipboard;
pub mod cobra;
pub mod fuzzy;
pub mod gap;
pub mod gitcha;
pub mod glamour;
pub mod lipgloss;
pub mod mango;
pub mod roff;
pub mod shell;
pub mod editor;
pub mod errors;
pub mod humanize;
pub mod url;
pub mod viper;
pub use errors::{go_errno, go_exec_error};
