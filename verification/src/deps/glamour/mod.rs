pub mod ast;
pub mod autolink;
pub mod style;
pub mod render;
pub mod table;
pub mod tree;
pub mod renderer;
pub mod styles;
