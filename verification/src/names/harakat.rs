//! Mark identifiers, with the placement a specific written mark may
//! carry.

use vstd::prelude::*;

verus! {

/// Symbols for identifying the marks ("harakat") of Arabic diacritics
/// over and under each letter.
#[derive(Debug, Copy, Clone, PartialEq, Eq, Structural, Hash)]
pub enum Name {
    /// Value varies by whether it sits on top of or under the letter.
    Fatha(bool),
    /// Value varies by whether it sits on top of or under the letter.
    Kasra(bool),
    /// Doubles the pronunciation of a letter.
    Dumma,
    /// "Closes" the pronunciation of a letter instead of leaving it
    /// "open".
    Sukun,
}

} // verus!
