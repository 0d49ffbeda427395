use vstd::prelude::*;

verus! {

/// What can go wrong while computing subset metadata.
#[derive(Debug, PartialEq, Eq)]
pub enum SubsetError {
    /// No usable font file was supplied: the list was empty, or no path had a
    /// `ttf`, `woff` or `woff2` extension.
    InvalidParameters,
    /// The text holds no character, so there is no range to describe.
    EmptyCharacterSet,
    /// The bytes of the named font file could not be had.
    FileUnreadable(String),
}

} // verus!
