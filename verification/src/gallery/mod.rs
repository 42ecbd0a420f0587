//! An app around the editor: comment threads beside a document, and a bar of
//! controls over it.
pub mod comments;
pub mod laws;
pub mod ribbon;
