//! The core of a terminal text editor, with every function proved against
//! its contract. The few calls into std and into other crates that are taken
//! on trust are marked as such where they stand.
//!
//! A buffer (`buffer`, `piece`) holds text as a piece table; its contract
//! speaks of plain lines (`lines`). A layout (`layout`, `frame`) is a tree of
//! splits that gives every panel its rectangle of the screen. The state
//! (`state`, `registry`, `status`) ties buffers, layout and the current panel
//! together, and the workers of the two modes (`event_worker`, `editor`) turn
//! keystrokes into changes of it. What is to be drawn comes out as plain
//! values (`drawer`, `highlight`, `syntax_highlighter`, `terminal`); nothing
//! here reads a file, a keyboard or a terminal.

pub mod text;
pub mod util;
pub mod cursor;
pub mod frame;
pub mod lines;
pub mod piece;
pub mod buffer;
pub mod registry;
pub mod layout;
pub mod status;
pub mod state;
pub mod event_worker;
pub mod editor;
pub mod drawer;
pub mod config;
pub mod highlight;
pub mod terminal;
pub mod display;
pub mod syntax_highlighter;
