//! What can go wrong between this crate and the collaborator.

use vstd::prelude::*;

verus! {

/// The collaborator itself failed.
#[derive(Clone, Copy, Debug, PartialEq, Eq)]
pub enum CollaboratorError {
    /// The command could not be started; the operating system's error number
    /// where it gave one.
    NotStarted { os_error: Option<i32> },
    /// The listing is not valid UTF-8.
    InvalidText,
    /// A command that changes a stream ended with this exit code, which is
    /// not zero.
    Exit { code: i32 },
}

/// The listing does not have the shape that the parser expects.
#[derive(Clone, Copy, Debug, PartialEq, Eq)]
pub enum ParseError {
    /// The first line of a block holds no stream id after its prefix.
    Id,
    /// A volume line does not match the two-channel pattern, or the
    /// percentage it holds is no 32-bit integer.
    Volume,
    /// A name line ends before the name begins.
    Name,
    /// The regex engine refused the volume pattern itself.
    Pattern,
}

/// Why a refresh of the registry failed.
#[derive(Clone, Copy, Debug, PartialEq, Eq)]
pub enum RefreshError {
    /// The collaborator gave no listing.
    Collaborator(CollaboratorError),
    /// It gave one that cannot be read.
    Parse(ParseError),
}

/// A selection on the command line that the registry cannot serve.
#[derive(Clone, Copy, Debug, PartialEq, Eq)]
pub enum LookupError {
    /// No tracked stream has the id asked for.
    Id,
    /// No tracked stream has a name that contains the text asked for.
    Name,
    /// Neither an id nor a name was given.
    Missing,
}

} // verus!
