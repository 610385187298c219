//! What can go wrong while a desktop-entry file is read.

use vstd::prelude::*;
use vstd::string::StringExecFns;

verus! {

/// Why a text is no floating-point literal.
#[derive(Debug, Clone, Copy, PartialEq, Eq)]
pub enum FloatErrorKind {
    /// The text is empty.
    Empty,
    /// The text is not in the grammar of floating-point literals.
    Invalid,
}

#[derive(Debug, Clone, Copy, PartialEq, Eq)]
pub enum XdgParseError {
    /// A value that has to be a boolean is neither `true` nor `false`.
    ParseBoolError,
    /// A value that has to be a number is no floating-point literal.
    ParseFloatError(FloatErrorKind),
    /// The structure of a line or of the file is wrong; the text says how.
    Other(&'static str),
}

/// The text of the error for a line that holds no `=`.
pub const NO_DELIMITER: &'static str = "No delimiter found in line";

/// The text of the error for a file in which an entry stands before the
/// first section header.
pub const NO_SECTION_HEADER: &'static str = "File contains keys without section header";

impl XdgParseError {
    /// The words that describe the error.
    pub open spec fn message(self) -> Seq<char> {
        match self {
            XdgParseError::ParseBoolError => "provided string was not `true` or `false`"@,
            XdgParseError::ParseFloatError(FloatErrorKind::Empty) => {
                "cannot parse float from empty string"@
            },
            XdgParseError::ParseFloatError(FloatErrorKind::Invalid) => "invalid float literal"@,
            XdgParseError::Other(text) => text@,
        }
    }

    /// The error in words.
    pub fn to_string(&self) -> (s: String)
        ensures
            s@ == self.message(),
    {
        match self {
            XdgParseError::ParseBoolError => {
                String::from_str("provided string was not `true` or `false`")
            },
            XdgParseError::ParseFloatError(FloatErrorKind::Empty) => {
                String::from_str("cannot parse float from empty string")
            },
            XdgParseError::ParseFloatError(FloatErrorKind::Invalid) => {
                String::from_str("invalid float literal")
            },
            XdgParseError::Other(text) => String::from_str(text),
        }
    }
}

impl From<&'static str> for XdgParseError {
    fn from(text: &'static str) -> (e: XdgParseError) {
        XdgParseError::Other(text)
    }
}

impl vstd::std_specs::convert::FromSpecImpl<&'static str> for XdgParseError {
    open spec fn obeys_from_spec() -> bool {
        true
    }

    open spec fn from_spec(text: &'static str) -> XdgParseError {
        XdgParseError::Other(text)
    }
}

} // verus!
