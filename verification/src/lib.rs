//! Track-library logic for the Dub DJ application: the pure parsers,
//! notations, registries and state machines behind the library, each with a
//! machine-checked contract.

use vstd::prelude::*;

pub mod text;
pub mod source;
pub mod color_label;
pub mod columns;
pub mod filename_parser;
pub mod history;

verus! {

/// Library version.
pub const VERSION: &'static str = "0.1.0";

} // verus!
pub mod serato;
pub mod key_notation;
pub mod sources;
pub mod file_url;
pub mod num;
pub mod xml;
pub mod rekordbox;
pub mod rekordbox_export;
pub mod round_trip;
pub mod dedupe;
pub mod m3u;
pub mod importer;
pub mod itunes;
pub mod rows;
pub mod analysis;
