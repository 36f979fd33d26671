//! Letter identifiers, with the attributes a specific written letter may
//! carry.

use vstd::prelude::*;

verus! {

/// Identifiers for Arabic letters. Variants that exist in attributed
/// written shapes carry those attributes: Alif may bear a hamza above or
/// below, and Yeh has the maqsura variant.
#[derive(Debug, Copy, Clone, PartialEq, Eq, PartialOrd, Ord, Hash)]
pub enum Name {
    Alif { top_hamza: bool, bottom_hamza: bool },
    Beh,
    Teh,
    Theh,
    Jeem,
    Ha,
    Kha,
    Del,
    Thel,
    Reh,
    Zayn,
    Seen,
    Sheen,
    Saad,
    Daad,
    Ta,
    Tha,
    Ain,
    Ghain,
    Feh,
    Qaf,
    Kaf,
    Lam,
    Meem,
    Nun,
    Heh,
    Waw,
    Yeh { maqsura: bool },
}

/// Identifiers for the form a letter takes.
#[derive(Debug, Copy, Clone, PartialEq, Eq, PartialOrd, Ord, Hash)]
pub enum Form {
    Isolated,
    Initial,
    Medial,
    Final,
}

/// Whether a letter's written shape is disambiguated with dot marks.
pub open spec fn dotable_spec(n: Name) -> bool {
    matches!(n, Name::Alif { .. } | Name::Kaf | Name::Lam | Name::Meem | Name::Waw)
}

impl Name {
    /// Checks whether this letter is one that is marked with dots.
    pub fn dotable(&self) -> (r: bool)
        ensures
            r == dotable_spec(*self),
    {
        matches!(self, Name::Alif { .. } | Name::Kaf | Name::Lam | Name::Meem | Name::Waw)
    }
}

} // verus!
