//! A name-oriented view of the catalog: letter identifiers that keep the
//! letter-specific attributes (hamza placement, the maqsura variant of
//! Yeh) and mark identifiers that keep above/below placement.

pub mod abjad;
pub mod harakat;
