//! The errors that the library reports.

use vstd::prelude::*;
use vstd::string::*;
use crate::text::IntError;

verus! {

/// Every failure of the library, each with the package, path or text that it
/// concerns.
#[derive(Debug, Clone)]
pub enum Error {
    /// A failure described in words.
    String(String),
    /// A manifest document that is malformed or lacks a required part.
    Toml(String),
    /// A version component that is no 32-bit decimal number.
    ParseIntError(IntError),
    /// A version that does not have exactly three numeric components.
    NonFixedVersion(String),
    /// A version that cannot be used where it stands.
    InvalidVersion(String),
    /// The version `*`.
    VersionAsterisk,
    /// A dependency that inherits its version from the workspace.
    WorkspaceCrate,
    /// A dependency given by a path only.
    RelativeCrate,
    /// A dependency without a version that can be resolved; holds its name.
    MissingVersion(String),
    /// The internal dependency graph has a cycle; holds one package that
    /// could not be placed.
    CycleDetected(String),
}

/// The words for a number that could not be read.
pub open spec fn int_error_text(e: IntError) -> Seq<char> {
    match e {
        IntError::Empty => "cannot parse integer from empty string"@,
        IntError::InvalidDigit => "invalid digit found in string"@,
        IntError::Overflow => "number too large to fit in target type"@,
    }
}

impl Error {
    /// The text shown to the user for this error.
    pub open spec fn message_spec(self) -> Seq<char> {
        match self {
            Error::String(s) => s@,
            Error::Toml(s) => s@,
            Error::ParseIntError(e) => "ParseIntError: "@ + int_error_text(e),
            Error::NonFixedVersion(s) => "detected partial version `"@ + s@ + "`"@,
            Error::InvalidVersion(s) => "invalid version "@ + s@,
            Error::VersionAsterisk => "versions containing \"*\" are not allowed"@,
            Error::WorkspaceCrate => "this appears to be a workspace crate"@,
            Error::RelativeCrate => "relative crate"@,
            Error::MissingVersion(s) => "no version can be resolved for dependency `"@ + s@
                + "`"@,
            Error::CycleDetected(s) => "dependency cycle detected at package `"@ + s@ + "`"@,
        }
    }

    /// The message of this error as a string.
    pub fn message(&self) -> (r: String)
        ensures
            r@ == self.message_spec(),
    {
        match self {
            Error::String(s) => s.clone(),
            Error::Toml(s) => s.clone(),
            Error::ParseIntError(e) => {
                let mut r = String::from_str("ParseIntError: ");
                match e {
                    IntError::Empty => r.append("cannot parse integer from empty string"),
                    IntError::InvalidDigit => r.append("invalid digit found in string"),
                    IntError::Overflow => r.append("number too large to fit in target type"),
                }
                r
            },
            Error::NonFixedVersion(s) => {
                let mut r = String::from_str("detected partial version `");
                r.append(s.as_str());
                r.append("`");
                r
            },
            Error::InvalidVersion(s) => {
                let mut r = String::from_str("invalid version ");
                r.append(s.as_str());
                r
            },
            Error::VersionAsterisk => String::from_str(
                "versions containing \"*\" are not allowed",
            ),
            Error::WorkspaceCrate => String::from_str("this appears to be a workspace crate"),
            Error::RelativeCrate => String::from_str("relative crate"),
            Error::MissingVersion(s) => {
                let mut r = String::from_str("no version can be resolved for dependency `");
                r.append(s.as_str());
                r.append("`");
                r
            },
            Error::CycleDetected(s) => {
                let mut r = String::from_str("dependency cycle detected at package `");
                r.append(s.as_str());
                r.append("`");
                r
            },
        }
    }

    /// The message of this error; the same text as [`Error::message`].
    pub fn to_string(&self) -> (r: String)
        ensures
            r@ == self.message_spec(),
    {
        self.message()
    }
}

} // verus!
