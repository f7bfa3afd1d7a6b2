pub mod deps;
pub mod config_cmd;
pub mod glow;
pub mod log;
pub mod man_cmd;
pub mod style;
pub mod text;
pub mod ui;
pub mod url;
pub mod utils;
