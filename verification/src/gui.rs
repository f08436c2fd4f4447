//! The interactive mixer: one slider and one mute switch for each tracked
//! stream.
//!
//! Drawing is the caller's part. Here it is settled what each thing the
//! user can do means for the registry and for the collaborator.

use crate::command::Listed;
use crate::error::RefreshError;
use crate::source::{refresh, SourceView, Sources};
use vstd::prelude::*;

verus! {

/// The highest volume that a slider offers, in percent.
pub const SLIDER_MAX: i32 = 200;

/// What the user did.
#[derive(Clone, Copy, Debug, PartialEq, Eq)]
pub enum Input {
    /// Moved the slider of the entry at `index` to `volume`.
    Volume { index: usize, volume: i32 },
    /// Set the mute switch of the entry at `index` to `mute`.
    Mute { index: usize, mute: bool },
    /// Asked for a fresh listing.
    Update,
    /// Asked to leave.
    Exit,
}

/// What the caller is to do about it.
#[derive(Clone, Copy, Debug, PartialEq, Eq)]
pub enum Reaction {
    /// Nothing: the input changed nothing.
    Nothing,
    /// Push the entry at `index` to the collaborator.
    Flush { index: usize },
    /// Run the listing and update the registry with it.
    Update,
    /// End the program.
    Exit,
}

/// The volume that a slider gives for `volume`: within the slider's range.
pub open spec fn slider_volume(volume: int) -> int {
    if volume < 0 {
        0
    } else if volume > SLIDER_MAX {
        SLIDER_MAX as int
    } else {
        volume
    }
}

/// What an input makes of the entries, and what is to be done about it. An
/// entry is pushed only if the input changed it, and an input for an entry
/// that is not there changes nothing.
pub open spec fn react(entries: Seq<SourceView>, input: Input) -> (Reaction, Seq<SourceView>) {
    match input {
        Input::Volume { index, volume } => if index < entries.len() && entries[index as int].volume
            != slider_volume(volume as int) {
            (
                Reaction::Flush { index },
                entries.update(
                    index as int,
                    SourceView { volume: slider_volume(volume as int), ..entries[index as int] },
                ),
            )
        } else {
            (Reaction::Nothing, entries)
        },
        Input::Mute { index, mute } => if index < entries.len() && entries[index as int].mute
            != mute {
            (
                Reaction::Flush { index },
                entries.update(index as int, SourceView { mute, ..entries[index as int] }),
            )
        } else {
            (Reaction::Nothing, entries)
        },
        Input::Update => (Reaction::Update, entries),
        Input::Exit => (Reaction::Exit, entries),
    }
}

/// The state of the interactive mixer.
#[derive(Debug, PartialEq, Eq)]
pub struct Mixer {
    sources: Sources,
}

impl View for Mixer {
    type V = Seq<SourceView>;

    closed spec fn view(&self) -> Seq<SourceView> {
        self.sources@
    }
}

impl Mixer {
    /// The registry has every name once.
    pub closed spec fn wf(&self) -> bool {
        self.sources.wf()
    }

    /// A mixer over the streams that `sources` tracks.
    pub fn new(sources: Sources) -> (mixer: Mixer)
        ensures
            mixer@ == sources@,
            sources.wf() ==> mixer.wf(),
    {
        Mixer { sources }
    }

    /// The registry, to read.
    pub fn sources(&self) -> (sources: &Sources)
        ensures
            sources@ == self@,
            self.wf() ==> sources.wf(),
    {
        &self.sources
    }

    /// Brings the registry up to date with a run of the listing command,
    /// as `Sources::refresh` does.
    pub fn refresh(&mut self, listed: Listed) -> (done: Result<(), RefreshError>)
        ensures
            match refresh(old(self)@, listed) {
                Ok(entries) => done is Ok && final(self)@ == entries,
                Err(e) => done == Err::<(), RefreshError>(e) && final(self)@ == old(self)@,
            },
            old(self).wf() ==> final(self).wf(),
    {
        self.sources.refresh(listed)
    }

    /// Takes in what the user did and says what is to be done about it.
    pub fn handle(&mut self, input: Input) -> (reaction: Reaction)
        ensures
            (reaction, final(self)@) == react(old(self)@, input),
            old(self).wf() ==> final(self).wf(),
    {
        match input {
            Input::Volume { index, volume } => {
                let wanted: i32 = if volume < 0 {
                    0
                } else if volume > SLIDER_MAX {
                    SLIDER_MAX
                } else {
                    volume
                };
                match self.sources.get_mut(index) {
                    Some(source) => {
                        if source.volume() != wanted {
                            source.set_volume(wanted);
                            Reaction::Flush { index }
                        } else {
                            Reaction::Nothing
                        }
                    },
                    None => Reaction::Nothing,
                }
            },
            Input::Mute { index, mute } => {
                match self.sources.get_mut(index) {
                    Some(source) => {
                        if source.mute() != mute {
                            source.set_mute(mute);
                            Reaction::Flush { index }
                        } else {
                            Reaction::Nothing
                        }
                    },
                    None => Reaction::Nothing,
                }
            },
            Input::Update => Reaction::Update,
            Input::Exit => Reaction::Exit,
        }
    }
}

} // verus!
