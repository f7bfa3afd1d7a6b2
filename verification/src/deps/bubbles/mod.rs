//! The terminal UI components: the viewport, the paginator and the text
//! input, with the state and rendering each contributes to glow's screens.
pub mod paginator;
pub mod spinner;
pub mod textinput;
pub mod viewport;
