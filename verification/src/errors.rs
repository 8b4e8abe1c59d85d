use vstd::prelude::*;

verus! {

/// The grammar production, or value kind, on which a decode failed.
#[derive(Clone, Copy, PartialEq, Eq, Structural, Debug)]
pub enum Section {
    /// A decimal number token.
    Number,
    /// A signed coordinate token.
    Coordinate,
    /// A yes/no flag token.
    Flag,
    /// A date string.
    Date,
    /// The species block of a gamestate.
    Species,
    /// The pop block of a gamestate.
    Pop,
    /// The planet block of a gamestate.
    Planet,
    /// The galactic-object block of a gamestate.
    GalacticObject,
    /// The country (empire) block of a gamestate.
    Country,
    /// The header of a gamestate.
    Header,
    /// The compact cache format.
    Cache,
}

/// A structural or value decode failure: the production that was being
/// read and the raw bytes of the offending token or line.
#[derive(Clone, PartialEq, Eq, Debug)]
pub struct ParseError {
    pub section: Section,
    pub line: Vec<u8>,
}

impl ParseError {
    pub fn new(section: Section, line: Vec<u8>) -> (e: ParseError)
        ensures
            e.section == section,
            e.line@ == line@,
    {
        ParseError { section, line }
    }
}

} // verus!
