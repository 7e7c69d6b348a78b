//! External library sources and their schema strings.

use vstd::prelude::*;

verus! {

/// External library sources the library imports from.
#[derive(Debug, Clone, Copy, PartialEq, Eq, Structural)]
pub enum Source {
    /// Serato (ID3 GEOB tags + crate files + database V2).
    Serato,
    /// Traktor `collection.nml`.
    Traktor,
    /// rekordbox (XML export).
    Rekordbox,
    /// iTunes / Apple Music `Library.xml`.
    ITunes,
    /// Lexicon DJ exports (round-trip through Serato or rekordbox).
    Lexicon,
}

impl Source {
    /// The schema string of each source; Lexicon has none.
    pub open spec fn spec_str(self) -> Option<Seq<char>> {
        match self {
            Source::Serato => Some("serato"@),
            Source::Traktor => Some("traktor"@),
            Source::Rekordbox => Some("rekordbox"@),
            Source::ITunes => Some("itunes"@),
            Source::Lexicon => None,
        }
    }

    /// The canonical lowercase string used in the SQL schema. Lexicon has
    /// no direct SQL identity; callers map it before persisting.
    pub fn as_str(&self) -> (r: Option<&'static str>)
        ensures
            r.is_some() == self.spec_str().is_some(),
            r matches Some(s) ==> s@ == self.spec_str().unwrap(),
    {
        match self {
            Source::Serato => Some("serato"),
            Source::Traktor => Some("traktor"),
            Source::Rekordbox => Some("rekordbox"),
            Source::ITunes => Some("itunes"),
            Source::Lexicon => None,
        }
    }
}

} // verus!
