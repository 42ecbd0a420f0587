//! A block editor over the document model: what each key means, what each edit
//! does to the positions in a document, and how it is taken back.
pub mod anchor;
pub mod history;
pub mod surface;
pub mod laws;
pub mod manners;
pub mod positions;
pub mod moments;
pub mod typing;
pub mod commands;
pub mod blocks;
pub mod image;
pub mod input;
pub mod insert;
pub mod keys;
pub mod dispatch;
