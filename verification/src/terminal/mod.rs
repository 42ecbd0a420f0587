//! The terminal: what the pty stream holds, and the grid it leaves behind.
pub mod anchors;
pub mod cell;
pub mod delete;
pub mod emulator;
pub mod endings;
pub mod laws;
pub mod locate;
pub mod modes;
pub mod pictures;
pub mod placement;
pub mod pushes;
pub mod reply;
pub mod scanner;
pub mod screen;
pub mod stream;
pub mod table;
pub mod watch;
pub mod found;
