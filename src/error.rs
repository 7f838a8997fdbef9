//! The ways in which parsing a report or a coordinate can fail.

use vstd::prelude::*;

verus! {

/// Why a report, a listing or a coordinate was rejected.
#[derive(Debug, Clone, Copy, PartialEq, Eq)]
pub enum ParseError {
    /// A tree marker is indented by other than a whole number of levels, or an
    /// indented line comes before the first top-level line.
    UnexpectedIndent,
    /// A second tree starts after the first one ended: the report holds more
    /// than one configuration.
    MissingConfiguration,
    /// A dependency token has none of the recognised shapes.
    MalformedCoordinate,
    /// A dependency name has an empty group id.
    MissingGroupId,
    /// A dependency name has no artifact id, or an empty one.
    MissingArtifactId,
}

impl ParseError {
    /// A message for the user.
    pub fn message(&self) -> (r: &'static str)
        ensures
            r@ == match *self {
                ParseError::UnexpectedIndent => "unexpected indent"@,
                ParseError::MissingConfiguration =>
                    "Please specify `--configuration` option. e.g: `--configuration releaseRuntimeClasspath`"@,
                ParseError::MalformedCoordinate => "unexpected format"@,
                ParseError::MissingGroupId => "missing group id"@,
                ParseError::MissingArtifactId => "missing artifact id"@,
            },
    {
        match self {
            ParseError::UnexpectedIndent => "unexpected indent",
            ParseError::MissingConfiguration =>
                "Please specify `--configuration` option. e.g: `--configuration releaseRuntimeClasspath`",
            ParseError::MalformedCoordinate => "unexpected format",
            ParseError::MissingGroupId => "missing group id",
            ParseError::MissingArtifactId => "missing artifact id",
        }
    }
}

} // verus!
