//! A block document: its text, what is selected in it, and what is painted
//! over it.
pub mod doc;
pub mod quote;
pub mod marks;
pub mod selectable;
pub mod overlay;
pub mod flatten;
pub mod laws;
pub mod layout;
pub mod code;
pub mod blocks;
pub mod model;
pub mod paint;
pub mod places;
