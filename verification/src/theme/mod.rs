//! Which palette paints.
pub mod appearance;
