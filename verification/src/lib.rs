//! A letter-level model of Arabic orthography: the consonantal letters
//! ("abjad") with their root-formation classes, the cursive connection
//! forms a letter takes inside a word, diacritic marks ("harakat"), and a
//! parser that turns text into an ordered sequence of annotated letters.

pub mod abjad;
pub mod names;
pub mod word;
