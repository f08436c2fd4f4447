//! What the command line asks for, decided on the registry.
//!
//! Reading the arguments, printing and running the collaborator are the
//! caller's part. Here it is settled what a given set of options means:
//! which entry they select, how they edit it, and what is to happen next.

use crate::error::LookupError;
use crate::source::{position, with_id, with_name_part, Source, SourceView, Sources};
use vstd::prelude::*;

verus! {

/// The options of one call of the program.
#[derive(Debug, PartialEq, Eq)]
pub struct Options {
    /// Print every tracked stream.
    pub list: bool,
    /// Select the stream with this id.
    pub id: Option<i32>,
    /// Select the first stream whose name contains this text.
    pub name: Option<String>,
    /// Set the selected stream's volume to this percentage.
    pub volume: Option<i32>,
    /// Mute the selected stream.
    pub mute: bool,
    /// Unmute the selected stream.
    pub unmute: bool,
}

/// What is to happen once the options have been applied.
#[derive(Clone, Copy, Debug, PartialEq, Eq)]
pub enum Plan {
    /// Nothing more: the listing was all that was asked for.
    Stop,
    /// An entry was edited: push the registry to the collaborator.
    Flush,
    /// No entry was selected, and the interactive mixer takes over.
    Interact,
    /// The selection cannot be served.
    Fail(LookupError),
}

impl Options {
    /// The options ask for an edit.
    pub open spec fn edits(&self) -> bool {
        self.unmute || self.mute || self.volume is Some
    }

    /// The entry that the options select: by id if one is given, else by
    /// name.
    pub open spec fn selection(&self, entries: Seq<SourceView>) -> Result<int, LookupError> {
        match (self.id, self.name) {
            (Some(id), _) => match position(entries, with_id(id as int)) {
                Some(i) => Ok(i),
                None => Err(LookupError::Id),
            },
            (None, Some(name)) => match position(entries, with_name_part(name@)) {
                Some(i) => Ok(i),
                None => Err(LookupError::Name),
            },
            (None, None) => Err(LookupError::Missing),
        }
    }

    /// The entry as the options edit it: unmuting goes before muting, and
    /// what no option speaks of stays.
    pub open spec fn edited(&self, entry: SourceView) -> SourceView {
        SourceView {
            mute: if self.unmute {
                false
            } else if self.mute {
                true
            } else {
                entry.mute
            },
            volume: match self.volume {
                Some(volume) => volume as int,
                None => entry.volume,
            },
            ..entry
        }
    }

    /// What the options make of the registry, and what is to happen next.
    /// With `interactive`, a call that selects nothing opens the mixer
    /// instead of failing.
    pub open spec fn outcome(&self, entries: Seq<SourceView>, interactive: bool) -> (
        Plan,
        Seq<SourceView>,
    ) {
        if self.list && !self.edits() {
            (Plan::Stop, entries)
        } else {
            match self.selection(entries) {
                Ok(i) => (Plan::Flush, entries.update(i, self.edited(entries[i]))),
                Err(LookupError::Missing) => if interactive {
                    (Plan::Interact, entries)
                } else {
                    (Plan::Fail(LookupError::Missing), entries)
                },
                Err(e) => (Plan::Fail(e), entries),
            }
        }
    }

    /// Edits one entry as the options say.
    pub fn edit(&self, source: &mut Source)
        ensures
            final(source)@ == self.edited(old(source)@),
    {
        if self.unmute {
            source.set_mute(false);
        } else if self.mute {
            source.set_mute(true);
        }
        if let Some(volume) = self.volume {
            source.set_volume(volume);
        }
    }
}

/// Applies the options to the registry and says what is to happen next.
/// The caller prints the listing first where `options.list` asks for it.
pub fn cli(sources: &mut Sources, options: &Options, interactive: bool) -> (plan: Plan)
    ensures
        (plan, final(sources)@) == options.outcome(old(sources)@, interactive),
        old(sources).wf() ==> final(sources).wf(),
{
    if options.list && !options.unmute && !options.mute && options.volume.is_none() {
        return Plan::Stop;
    }
    match options.id {
        Some(id) => match sources.by_id(id) {
            Some(source) => {
                options.edit(source);
                Plan::Flush
            },
            None => Plan::Fail(LookupError::Id),
        },
        None => match &options.name {
            Some(name) => match sources.by_name(name.as_str()) {
                Some(source) => {
                    options.edit(source);
                    Plan::Flush
                },
                None => Plan::Fail(LookupError::Name),
            },
            None => if interactive {
                Plan::Interact
            } else {
                Plan::Fail(LookupError::Missing)
            },
        },
    }
}

} // verus!
