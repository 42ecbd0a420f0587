//! The logic of a terminal and a markdown editor, as verified code.
pub mod editor;
pub mod gallery;
pub mod markdown;
pub mod terminal;
pub mod text;
pub mod theme;
