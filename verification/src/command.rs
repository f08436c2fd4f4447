//! The commands that the collaborator understands, how each is written on
//! its command line, and how the way a command ended is judged.

use crate::error::CollaboratorError;
use crate::number::{decimal, push_decimal};
use crate::text::{decode, string_of};
use vstd::prelude::*;
use vstd::utf8::{decode_utf8, valid_utf8};

verus! {

/// One call of the collaborator.
#[derive(Clone, Copy, Debug, PartialEq, Eq)]
pub enum Command {
    /// List the streams.
    List,
    /// Set the volume of the stream with this id to this percentage.
    SetVolume { id: i32, volume: i32 },
    /// Mute or unmute the stream with this id.
    SetMute { id: i32, mute: bool },
}

/// The character sequences that `strings` hold.
pub open spec fn texts(strings: Seq<String>) -> Seq<Seq<char>> {
    strings.map_values(|s: String| s@)
}

impl Command {
    /// The arguments that follow the program's name: the subcommand, then
    /// for a change the stream's id in base ten and the new state, a
    /// percentage with its `%` or the digit `1` for muted and `0` for not.
    pub open spec fn arguments(self) -> Seq<Seq<char>> {
        match self {
            Command::List => seq!["list"@, "sink-inputs"@],
            Command::SetVolume { id, volume } => seq![
                "set-sink-input-volume"@,
                decimal(id as int),
                decimal(volume as int).push('%'),
            ],
            Command::SetMute { id, mute } => seq![
                "set-sink-input-mute"@,
                decimal(id as int),
                if mute {
                    "1"@
                } else {
                    "0"@
                },
            ],
        }
    }

    /// The name of the program to run.
    pub fn program(&self) -> (name: &'static str)
        ensures
            name@ == "pactl"@,
    {
        "pactl"
    }

    /// The arguments to run the program with.
    pub fn args(&self) -> (args: Vec<String>)
        ensures
            texts(args@) == self.arguments(),
    {
        let mut args: Vec<String> = Vec::new();
        match *self {
            Command::List => {
                args.push("list".to_owned());
                args.push("sink-inputs".to_owned());
            },
            Command::SetVolume { id, volume } => {
                args.push("set-sink-input-volume".to_owned());
                let mut target: Vec<char> = Vec::new();
                push_decimal(&mut target, id);
                args.push(string_of(target.as_slice()));
                let mut percent: Vec<char> = Vec::new();
                push_decimal(&mut percent, volume);
                percent.push('%');
                args.push(string_of(percent.as_slice()));
            },
            Command::SetMute { id, mute } => {
                args.push("set-sink-input-mute".to_owned());
                let mut target: Vec<char> = Vec::new();
                push_decimal(&mut target, id);
                args.push(string_of(target.as_slice()));
                if mute {
                    args.push("1".to_owned());
                } else {
                    args.push("0".to_owned());
                }
            },
        }
        assert(texts(args@) =~= self.arguments());
        args
    }
}

/// How a run of the collaborator ended.
#[derive(Clone, Copy, Debug, PartialEq, Eq)]
pub enum Outcome {
    /// The process ran to its end; without a code when a signal ended it.
    Exited { code: Option<i32> },
    /// The process could not be started; the operating system's error number
    /// where it gave one.
    NotStarted { os_error: Option<i32> },
}

impl Outcome {
    /// The error that this outcome of a command that changes a stream
    /// amounts to. Only an exit code of zero, or no exit code at all, is
    /// none.
    pub open spec fn failure(self) -> Option<CollaboratorError> {
        match self {
            Outcome::Exited { code: Some(code) } => if code != 0 {
                Some(CollaboratorError::Exit { code })
            } else {
                None
            },
            Outcome::Exited { code: None } => None,
            Outcome::NotStarted { os_error } => Some(CollaboratorError::NotStarted { os_error }),
        }
    }

    /// Judges how a command that changes a stream ended.
    pub fn check(&self) -> (failure: Option<CollaboratorError>)
        ensures
            failure == self.failure(),
    {
        match *self {
            Outcome::Exited { code: Some(code) } => if code != 0 {
                Some(CollaboratorError::Exit { code })
            } else {
                None
            },
            Outcome::Exited { code: None } => None,
            Outcome::NotStarted { os_error } => Some(CollaboratorError::NotStarted { os_error }),
        }
    }
}

/// How a run of the listing command ended. Its exit code is not looked at.
#[derive(Debug, PartialEq, Eq)]
pub enum Listed {
    /// The process ran and wrote this to its standard output.
    Output(Vec<u8>),
    /// The process could not be started; the operating system's error number
    /// where it gave one.
    NotStarted { os_error: Option<i32> },
}

impl Listed {
    /// The listing as text: what the output decodes to as UTF-8.
    pub open spec fn listing(self) -> Result<Seq<char>, CollaboratorError> {
        match self {
            Listed::Output(bytes) => if valid_utf8(bytes@) {
                Ok(decode_utf8(bytes@))
            } else {
                Err(CollaboratorError::InvalidText)
            },
            Listed::NotStarted { os_error } => Err(CollaboratorError::NotStarted { os_error }),
        }
    }

    /// The listing as text.
    pub fn text(self) -> (text: Result<String, CollaboratorError>)
        ensures
            match text {
                Ok(s) => self.listing() == Ok::<Seq<char>, CollaboratorError>(s@),
                Err(e) => self.listing() == Err::<Seq<char>, CollaboratorError>(e),
            },
    {
        match self {
            Listed::Output(bytes) => match decode(bytes) {
                Some(s) => Ok(s),
                None => Err(CollaboratorError::InvalidText),
            },
            Listed::NotStarted { os_error } => Err(CollaboratorError::NotStarted { os_error }),
        }
    }
}

/// What to do next while edits are pushed to the collaborator.
#[derive(Debug, PartialEq, Eq)]
pub enum Step<E> {
    /// Run this command, and ask again with its outcome added.
    Run(Command),
    /// Nothing is left to run: every command succeeded, or one failed and
    /// the rest was given up.
    Done(Result<(), E>),
}

} // verus!
