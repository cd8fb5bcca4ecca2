use vstd::prelude::*;

use crate::game::InvalidChar;

verus! {

/// `std::io::Error`, the failure of a read of the collection's file; carried
/// through unopened.
#[verifier::external_type_specification]
#[verifier::external_body]
pub struct ExIoError(std::io::Error);

/// `xml::reader::Error`, xml-rs's report of a malformed document; carried
/// through unopened.
#[verifier::external_type_specification]
#[verifier::external_body]
pub struct ExXmlError(xml::reader::Error);

/// Why a level collection could not be loaded.
#[derive(Debug)]
pub enum SokobanError {
    /// The collection could not be read.
    IoError(std::io::Error),
    /// A level's text holds a character that the grammar does not know.
    ParseError(InvalidChar),
    /// The collection is not a well-formed XML document.
    XmlError(xml::reader::Error),
    /// A level's text is longer than the grid's coordinates can number.
    LevelTooLarge,
}

impl SokobanError {
    /// A short description of the kind of error.
    pub fn description(&self) -> (r: &'static str)
        ensures
            self is IoError ==> r@ == "I/O error"@,
            self is ParseError ==> r@ == "Level parsing error"@,
            self is XmlError ==> r@ == "Level collection format error"@,
            self is LevelTooLarge ==> r@ == "Level too large"@,
    {
        match self {
            SokobanError::IoError(..) => "I/O error",
            SokobanError::ParseError(..) => "Level parsing error",
            SokobanError::XmlError(..) => "Level collection format error",
            SokobanError::LevelTooLarge => "Level too large",
        }
    }
}

impl From<std::io::Error> for SokobanError {
    fn from(err: std::io::Error) -> (r: SokobanError)
        ensures
            r == SokobanError::IoError(err),
    {
        SokobanError::IoError(err)
    }
}

impl vstd::std_specs::convert::FromSpecImpl<std::io::Error> for SokobanError {
    open spec fn obeys_from_spec() -> bool {
        true
    }

    open spec fn from_spec(v: std::io::Error) -> SokobanError {
        SokobanError::IoError(v)
    }
}

impl From<InvalidChar> for SokobanError {
    fn from(err: InvalidChar) -> (r: SokobanError)
        ensures
            r == SokobanError::ParseError(err),
    {
        SokobanError::ParseError(err)
    }
}

impl vstd::std_specs::convert::FromSpecImpl<InvalidChar> for SokobanError {
    open spec fn obeys_from_spec() -> bool {
        true
    }

    open spec fn from_spec(v: InvalidChar) -> SokobanError {
        SokobanError::ParseError(v)
    }
}

} // verus!
