//! The registry of tracked streams.
//!
//! The collaborator numbers its streams anew whenever it likes, so a stream
//! is known here by its name. Every listing is merged into the entries that
//! are already tracked: an entry whose name comes up again takes the new id,
//! volume and mute state, a name not seen before gets a new entry, and of
//! the entries that the listing does not mention only the locked ones stay.

use crate::command::{Command, Listed, Outcome, Step};
use crate::error::{CollaboratorError, ParseError, RefreshError};
use crate::laws::{law_refresh_keeps_names_distinct, lemma_edits_keep_names_distinct};
use crate::listing::{listing_records, record_views, snapshot, RecordView, StreamRecord};
use crate::number::{decimal, push_decimal};
use crate::text::{chars_of, contains, has_infix, string_of};
use vstd::string::StringExecFns;
use vstd::prelude::*;

verus! {

/// The id of an entry that the last listing did not mention.
pub const STALE_ID: i32 = -1;

/// One tracked stream.
#[derive(Debug, PartialEq, Eq)]
pub struct Source {
    id: i32,
    name: String,
    volume: i32,
    mute: bool,
    locked: bool,
}

/// A tracked stream as a mathematical value.
pub struct SourceView {
    pub id: int,
    pub name: Seq<char>,
    pub volume: int,
    pub mute: bool,
    pub locked: bool,
}

impl View for Source {
    type V = SourceView;

    closed spec fn view(&self) -> SourceView {
        SourceView {
            id: self.id as int,
            name: self.name@,
            volume: self.volume as int,
            mute: self.mute,
            locked: self.locked,
        }
    }
}

impl Clone for Source {
    fn clone(&self) -> (copy: Source)
        ensures
            copy@ == self@,
    {
        Source {
            id: self.id,
            name: self.name.clone(),
            volume: self.volume,
            mute: self.mute,
            locked: self.locked,
        }
    }
}

/// The command that sets a stream's volume to the entry's.
pub open spec fn volume_command(source: SourceView) -> Command {
    Command::SetVolume { id: source.id as i32, volume: source.volume as i32 }
}

/// The command that sets a stream's mute state to the entry's.
pub open spec fn mute_command(source: SourceView) -> Command {
    Command::SetMute { id: source.id as i32, mute: source.mute }
}

/// What pushing one entry to the collaborator asks for next, when the
/// commands run so far ended as `outcomes` says: first the volume command,
/// then, only if that succeeded, the mute command, and then nothing more.
pub open spec fn flush_step(source: SourceView, outcomes: Seq<Outcome>) -> Step<CollaboratorError> {
    if outcomes.len() == 0 {
        Step::Run(volume_command(source))
    } else if outcomes[0].failure() is Some {
        Step::Done(Err(outcomes[0].failure()->0))
    } else if outcomes.len() == 1 {
        Step::Run(mute_command(source))
    } else if outcomes[1].failure() is Some {
        Step::Done(Err(outcomes[1].failure()->0))
    } else {
        Step::Done(Ok(()))
    }
}

/// The lines that the listing on the command line prints for an entry:
/// its name, then its id, mute state and volume, each on a line of its own,
/// and a blank line.
pub open spec fn description(source: SourceView) -> Seq<char> {
    source.name + "\n      id: "@ + decimal(source.id) + "\n    mute: "@ + (if source.mute {
        "true"@
    } else {
        "false"@
    }) + "\n  volume: "@ + decimal(source.volume) + "%\n\n"@
}

impl Source {
    /// An entry for a stream that a listing reports and that was not tracked
    /// before.
    pub fn from_record(record: StreamRecord) -> (source: Source)
        ensures
            source@ == fresh(record@),
    {
        Source {
            id: record.id,
            name: record.name,
            volume: record.volume,
            mute: record.mute,
            locked: false,
        }
    }

    /// The stream's name.
    pub fn name(&self) -> (name: String)
        ensures
            name@ == self@.name,
    {
        self.name.clone()
    }

    /// The stream's id as of the last listing, or `STALE_ID`.
    pub fn id(&self) -> (id: i32)
        ensures
            id == self@.id,
    {
        self.id
    }

    /// The volume in percent.
    pub fn volume(&self) -> (volume: i32)
        ensures
            volume == self@.volume,
    {
        self.volume
    }

    /// Whether the stream is muted.
    pub fn mute(&self) -> (mute: bool)
        ensures
            mute == self@.mute,
    {
        self.mute
    }

    /// Whether the entry stays when a listing does not mention it.
    pub fn locked(&self) -> (locked: bool)
        ensures
            locked == self@.locked,
    {
        self.locked
    }

    /// Sets the volume, here only: `flush` sends it.
    pub fn set_volume(&mut self, volume: i32)
        ensures
            final(self)@ == (SourceView { volume: volume as int, ..old(self)@ }),
    {
        self.volume = volume;
    }

    /// Sets the mute state, here only: `flush` sends it.
    pub fn set_mute(&mut self, mute: bool)
        ensures
            final(self)@ == (SourceView { mute, ..old(self)@ }),
    {
        self.mute = mute;
    }

    /// Locks or unlocks the entry.
    pub fn set_locked(&mut self, locked: bool)
        ensures
            final(self)@ == (SourceView { locked, ..old(self)@ }),
    {
        self.locked = locked;
    }

    /// The entry as the listing on the command line prints it.
    pub fn describe(&self) -> (text: String)
        ensures
            text@ == description(self@),
    {
        let mut id: Vec<char> = Vec::new();
        push_decimal(&mut id, self.id);
        let mut volume: Vec<char> = Vec::new();
        push_decimal(&mut volume, self.volume);
        let mut text = self.name.clone();
        text.append("\n      id: ");
        text.append(string_of(id.as_slice()).as_str());
        text.append("\n    mute: ");
        text.append(
            if self.mute {
                "true"
            } else {
                "false"
            },
        );
        text.append("\n  volume: ");
        text.append(string_of(volume.as_slice()).as_str());
        text.append("%\n\n");
        assert(text@ =~= description(self@));
        text
    }

    /// The command that sends the volume.
    pub fn flush_volume(&self) -> (command: Command)
        ensures
            command == volume_command(self@),
    {
        Command::SetVolume { id: self.id, volume: self.volume }
    }

    /// The command that sends the mute state.
    pub fn flush_mute(&self) -> (command: Command)
        ensures
            command == mute_command(self@),
    {
        Command::SetMute { id: self.id, mute: self.mute }
    }

    /// The next step of pushing this entry to the collaborator, given how
    /// the commands run for it so far ended.
    pub fn flush(&self, outcomes: &[Outcome]) -> (step: Step<CollaboratorError>)
        ensures
            step == flush_step(self@, outcomes@),
    {
        let step = self.flush_after(outcomes, 0);
        assert(outcomes@.skip(0) =~= outcomes@);
        step
    }

    /// The same for the outcomes from `offset` on.
    fn flush_after(&self, outcomes: &[Outcome], offset: usize) -> (step: Step<CollaboratorError>)
        requires
            offset <= outcomes.len(),
        ensures
            step == flush_step(self@, outcomes@.skip(offset as int)),
    {
        let count: usize = outcomes.len() - offset;
        if count == 0 {
            return Step::Run(self.flush_volume());
        }
        if let Some(error) = outcomes[offset].check() {
            return Step::Done(Err(error));
        }
        if count == 1 {
            return Step::Run(self.flush_mute());
        }
        if let Some(error) = outcomes[offset + 1].check() {
            return Step::Done(Err(error));
        }
        Step::Done(Ok(()))
    }
}

/// The entries that `sources` hold, as values.
pub open spec fn source_views(sources: Seq<Source>) -> Seq<SourceView> {
    sources.map_values(|s: Source| s@)
}

/// The entries with this id.
pub open spec fn with_id(id: int) -> spec_fn(SourceView) -> bool {
    |e: SourceView| e.id == id
}

/// The entries with exactly this name.
pub open spec fn with_name(name: Seq<char>) -> spec_fn(SourceView) -> bool {
    |e: SourceView| e.name == name
}

/// The entries whose name contains this text.
pub open spec fn with_name_part(part: Seq<char>) -> spec_fn(SourceView) -> bool {
    |e: SourceView| contains(e.name, part)
}

/// The index of the first of `entries` from `start` on that is `wanted`.
pub open spec fn position_from(
    entries: Seq<SourceView>,
    wanted: spec_fn(SourceView) -> bool,
    start: int,
) -> Option<int>
    decreases entries.len() - start,
{
    if start < 0 || start >= entries.len() {
        None
    } else if wanted(entries[start]) {
        Some(start)
    } else {
        position_from(entries, wanted, start + 1)
    }
}

/// The index of the first of `entries` that is `wanted`.
pub open spec fn position(entries: Seq<SourceView>, wanted: spec_fn(SourceView) -> bool) -> Option<
    int,
> {
    position_from(entries, wanted, 0)
}

/// The first wanted entry stands at `index`.
pub open spec fn is_first(
    entries: Seq<SourceView>,
    wanted: spec_fn(SourceView) -> bool,
    index: int,
) -> bool {
    &&& 0 <= index < entries.len()
    &&& wanted(entries[index])
    &&& forall|j: int| 0 <= j < index ==> !wanted(#[trigger] entries[j])
}

/// `position` is where the first wanted entry stands, and nothing exactly
/// when no entry is wanted.
pub proof fn lemma_position(entries: Seq<SourceView>, wanted: spec_fn(SourceView) -> bool)
    ensures
        match position(entries, wanted) {
            Some(i) => is_first(entries, wanted, i),
            None => forall|j: int| 0 <= j < entries.len() ==> !wanted(#[trigger] entries[j]),
        },
{
    lemma_position_from(entries, wanted, 0);
}

/// `position_from` finds the first wanted entry at or after `start`, and
/// nothing exactly when none is wanted.
pub proof fn lemma_position_from(
    entries: Seq<SourceView>,
    wanted: spec_fn(SourceView) -> bool,
    start: int,
)
    requires
        0 <= start,
    ensures
        match position_from(entries, wanted, start) {
            Some(i) => start <= i < entries.len() && wanted(entries[i]) && forall|j: int|
                start <= j < i ==> !wanted(#[trigger] entries[j]),
            None => forall|j: int| start <= j < entries.len() ==> !wanted(#[trigger] entries[j]),
        },
    decreases entries.len() - start,
{
    if start < entries.len() && !wanted(entries[start]) {
        lemma_position_from(entries, wanted, start + 1);
    }
}

/// The entry as a listing leaves it when it does not mention the stream.
pub open spec fn stale(entry: SourceView) -> SourceView {
    SourceView { id: STALE_ID as int, ..entry }
}

/// The entries that outlast a listing whatever it says: the locked ones, in
/// their order, each with a stale id.
pub open spec fn survivors(entries: Seq<SourceView>) -> Seq<SourceView> {
    entries.filter(|e: SourceView| e.locked).map_values(|e: SourceView| stale(e))
}

/// The entry for a stream that was not tracked before.
pub open spec fn fresh(record: RecordView) -> SourceView {
    SourceView {
        id: record.id,
        name: record.name,
        volume: record.volume,
        mute: record.mute,
        locked: false,
    }
}

/// The entry after a listing reported its stream.
pub open spec fn refreshed(entry: SourceView, record: RecordView) -> SourceView {
    SourceView { id: record.id, volume: record.volume, mute: record.mute, ..entry }
}

/// The entries after one record: the first entry with exactly the record's
/// name takes its id, volume and mute state; without such an entry a new
/// unlocked one is added at the end.
pub open spec fn merge_record(entries: Seq<SourceView>, record: RecordView) -> Seq<SourceView> {
    match position(entries, with_name(record.name)) {
        Some(i) => entries.update(i, refreshed(entries[i], record)),
        None => entries.push(fresh(record)),
    }
}

/// The entries after all of `records`, taken in order.
pub open spec fn merge_records(entries: Seq<SourceView>, records: Seq<RecordView>) -> Seq<
    SourceView,
>
    decreases records.len(),
{
    if records.len() == 0 {
        entries
    } else {
        merge_record(merge_records(entries, records.drop_last()), records.last())
    }
}

/// The entries after a listing with these records: the unlocked ones go,
/// the locked ones turn stale, and then the records are merged in.
pub open spec fn reconcile(entries: Seq<SourceView>, records: Seq<RecordView>) -> Seq<SourceView> {
    merge_records(survivors(entries), records)
}

/// What a run of the listing command makes of the entries: the entries
/// after it, or why they stay as they are.
pub open spec fn refresh(entries: Seq<SourceView>, listed: Listed) -> Result<
    Seq<SourceView>,
    RefreshError,
> {
    match listed.listing() {
        Ok(listing) => match listing_records(listing) {
            Ok(records) => Ok(reconcile(entries, records)),
            Err(e) => Err(RefreshError::Parse(e)),
        },
        Err(e) => Err(RefreshError::Collaborator(e)),
    }
}

/// No two entries have the same name.
pub open spec fn distinct_names(entries: Seq<SourceView>) -> bool {
    forall|i: int, j: int|
        0 <= i < j < entries.len() ==> (#[trigger] entries[i]).name != (#[trigger] entries[j]).name
}

/// A failed push of the whole registry: which entry it stopped at, and why.
#[derive(Clone, Copy, Debug, PartialEq, Eq)]
pub struct FlushError {
    /// The index of the entry whose command failed.
    pub entry: usize,
    /// How the command failed.
    pub error: CollaboratorError,
}

/// What pushing the entries from `index` on asks for next. The outcomes are
/// those of all commands run so far, two for each entry already done.
pub open spec fn flush_all_from(entries: Seq<SourceView>, outcomes: Seq<Outcome>, index: int) -> Step<
    FlushError,
>
    decreases entries.len() - index,
{
    if index < 0 || index >= entries.len() {
        Step::Done(Ok(()))
    } else {
        match flush_step(entries[index], outcomes.skip(2 * index)) {
            Step::Run(command) => Step::Run(command),
            Step::Done(Err(error)) => Step::Done(Err(FlushError { entry: index as usize, error })),
            Step::Done(Ok(())) => flush_all_from(entries, outcomes, index + 1),
        }
    }
}

/// What pushing every entry asks for next: the entries are taken in their
/// order, each as `flush_step` says, and the first failure ends it all.
pub open spec fn flush_all(entries: Seq<SourceView>, outcomes: Seq<Outcome>) -> Step<FlushError> {
    flush_all_from(entries, outcomes, 0)
}

/// The registry: the tracked streams in the order in which they were first
/// seen.
#[derive(Debug, PartialEq, Eq)]
pub struct Sources {
    entries: Vec<Source>,
}

impl View for Sources {
    type V = Seq<SourceView>;

    closed spec fn view(&self) -> Seq<SourceView> {
        source_views(self.entries@)
    }
}

impl Clone for Sources {
    fn clone(&self) -> (copy: Sources)
        ensures
            copy@ == self@,
    {
        let mut entries: Vec<Source> = Vec::new();
        let mut i: usize = 0;
        while i < self.entries.len()
            invariant
                i <= self.entries.len(),
                source_views(entries@) == self@.take(i as int),
            decreases self.entries.len() - i,
        {
            let entry = self.entries[i].clone();
            proof {
                assert(source_views(entries@.push(entry)) =~= source_views(entries@).push(entry@));
                assert(self@.take(i + 1) =~= self@.take(i as int).push(self@[i as int]));
            }
            entries.push(entry);
            i += 1;
        }
        proof {
            assert(self@.take(self.entries.len() as int) =~= self@);
        }
        Sources { entries }
    }
}

impl std::ops::Deref for Sources {
    type Target = Vec<Source>;

    /// The entries, to read.
    fn deref(&self) -> (entries: &Vec<Source>)
        ensures
            source_views(entries@) == self@,
    {
        &self.entries
    }
}

impl Default for Sources {
    fn default() -> (sources: Sources)
        ensures
            sources@ == Seq::<SourceView>::empty(),
            sources.wf(),
    {
        let sources = Sources { entries: Vec::new() };
        assert(sources@ =~= Seq::<SourceView>::empty());
        sources
    }
}

impl Sources {
    /// The registry is as it should be: every name is tracked once.
    pub open spec fn wf(&self) -> bool {
        distinct_names(self@)
    }

    /// How many streams are tracked.
    pub fn len(&self) -> (len: usize)
        ensures
            len == self@.len(),
    {
        self.entries.len()
    }

    /// The entry at `index`, in the order in which the streams were first
    /// seen.
    pub fn get(&self, index: usize) -> (entry: Option<&Source>)
        ensures
            match entry {
                Some(e) => index < self@.len() && e@ == self@[index as int],
                None => index >= self@.len(),
            },
    {
        if index < self.entries.len() {
            Some(&self.entries[index])
        } else {
            None
        }
    }

    /// The entry at `index`, to read or edit. The registry changes with the
    /// entry, and as no edit can change a name, the names stay distinct.
    pub fn get_mut(&mut self, index: usize) -> (entry: Option<&mut Source>)
        ensures
            match entry {
                Some(e) => {
                    &&& index < old(self)@.len()
                    &&& e@ == old(self)@[index as int]
                    &&& final(self)@ == old(self)@.update(index as int, final(e)@)
                    &&& final(e)@.name == e@.name && old(self).wf() ==> distinct_names(
                        old(self)@.update(index as int, final(e)@),
                    )
                },
                None => index >= old(self)@.len() && final(self)@ == old(self)@,
            },
    {
        proof {
            lemma_edits_keep_names_distinct(self@);
        }
        if index < self.entries.len() {
            Some(&mut self.entries[index])
        } else {
            None
        }
    }

    /// The first entry with this id, to read or edit; none if no entry has
    /// it.
    pub fn by_id(&mut self, id: i32) -> (found: Option<&mut Source>)
        ensures
            match (found, position(old(self)@, with_id(id as int))) {
                (Some(entry), Some(i)) => {
                    &&& is_first(old(self)@, with_id(id as int), i)
                    &&& entry@ == old(self)@[i]
                    &&& final(self)@ == old(self)@.update(i, final(entry)@)
                    &&& final(entry)@.name == entry@.name && old(self).wf() ==> distinct_names(
                        old(self)@.update(i, final(entry)@),
                    )
                },
                (None, None) => final(self)@ == old(self)@,
                _ => false,
            },
            found is None <==> forall|i: int|
                0 <= i < old(self)@.len() ==> (#[trigger] old(self)@[i]).id != id,
    {
        proof {
            lemma_position(self@, with_id(id as int));
            assert(position(self@, with_id(id as int)) is None <==> forall|i: int|
                0 <= i < self@.len() ==> (#[trigger] self@[i]).id != id);
        }
        let mut i: usize = 0;
        while i < self.entries.len()
            invariant
                i <= self.entries.len(),
                self.entries@ == old(self).entries@,
                position(old(self)@, with_id(id as int)) matches Some(p) ==> is_first(
                    old(self)@,
                    with_id(id as int),
                    p,
                ),
                position(old(self)@, with_id(id as int)) is None <==> forall|i: int|
                    0 <= i < old(self)@.len() ==> (#[trigger] old(self)@[i]).id != id,
                position(old(self)@, with_id(id as int)) == position_from(
                    old(self)@,
                    with_id(id as int),
                    i as int,
                ),
            decreases self.entries.len() - i,
        {
            if self.entries[i].id == id {
                return self.get_mut(i);
            }
            i += 1;
        }
        None
    }

    /// The first entry whose name contains `name`, to read or edit; none if
    /// no name contains it.
    pub fn by_name(&mut self, name: &str) -> (found: Option<&mut Source>)
        ensures
            match (found, position(old(self)@, with_name_part(name@))) {
                (Some(entry), Some(i)) => {
                    &&& is_first(old(self)@, with_name_part(name@), i)
                    &&& entry@ == old(self)@[i]
                    &&& final(self)@ == old(self)@.update(i, final(entry)@)
                    &&& final(entry)@.name == entry@.name && old(self).wf() ==> distinct_names(
                        old(self)@.update(i, final(entry)@),
                    )
                },
                (None, None) => final(self)@ == old(self)@,
                _ => false,
            },
            found is None <==> forall|i: int|
                0 <= i < old(self)@.len() ==> !contains((#[trigger] old(self)@[i]).name, name@),
    {
        proof {
            lemma_position(self@, with_name_part(name@));
            assert(position(self@, with_name_part(name@)) is None <==> forall|i: int|
                0 <= i < self@.len() ==> !contains((#[trigger] self@[i]).name, name@));
        }
        let part = chars_of(name);
        let mut i: usize = 0;
        while i < self.entries.len()
            invariant
                i <= self.entries.len(),
                part@ == name@,
                self.entries@ == old(self).entries@,
                position(old(self)@, with_name_part(name@)) matches Some(p) ==> is_first(
                    old(self)@,
                    with_name_part(name@),
                    p,
                ),
                position(old(self)@, with_name_part(name@)) is None <==> forall|i: int|
                    0 <= i < old(self)@.len() ==> !contains(
                        (#[trigger] old(self)@[i]).name,
                        name@,
                    ),
                position(old(self)@, with_name_part(name@)) == position_from(
                    old(self)@,
                    with_name_part(name@),
                    i as int,
                ),
            decreases self.entries.len() - i,
        {
            let whole = chars_of(self.entries[i].name.as_str());
            if has_infix(whole.as_slice(), part.as_slice()) {
                return self.get_mut(i);
            }
            i += 1;
        }
        None
    }

    /// A registry that tracks what `listing` reports.
    pub fn new(listing: &str) -> (made: Result<Sources, ParseError>)
        ensures
            match listing_records(listing@) {
                Ok(records) => made is Ok && made->Ok_0@ == reconcile(
                    Seq::<SourceView>::empty(),
                    records,
                ),
                Err(e) => made == Err::<Sources, ParseError>(e),
            },
            made matches Ok(sources) ==> sources.wf(),
    {
        let mut sources = Sources { entries: Vec::with_capacity(4) };
        assert(sources@ =~= Seq::<SourceView>::empty());
        match sources.update(listing) {
            Ok(()) => Ok(sources),
            Err(e) => Err(e),
        }
    }

    /// Brings the registry up to date with a run of the listing command. A
    /// run that failed, or whose output cannot be read, leaves the registry
    /// as it was.
    pub fn refresh(&mut self, listed: Listed) -> (done: Result<(), RefreshError>)
        ensures
            match refresh(old(self)@, listed) {
                Ok(entries) => done is Ok && final(self)@ == entries,
                Err(e) => done == Err::<(), RefreshError>(e) && final(self)@ == old(self)@,
            },
            old(self).wf() ==> final(self).wf(),
    {
        match listed.text() {
            Ok(listing) => match self.update(listing.as_str()) {
                Ok(()) => Ok(()),
                Err(e) => Err(RefreshError::Parse(e)),
            },
            Err(e) => Err(RefreshError::Collaborator(e)),
        }
    }

    /// Brings the registry up to date with a listing. A listing that cannot
    /// be read leaves the registry as it was.
    pub fn update(&mut self, listing: &str) -> (done: Result<(), ParseError>)
        ensures
            match listing_records(listing@) {
                Ok(records) => done is Ok && final(self)@ == reconcile(old(self)@, records),
                Err(e) => done == Err::<(), ParseError>(e) && final(self)@ == old(self)@,
            },
            old(self).wf() ==> final(self).wf(),
    {
        match snapshot(listing) {
            Ok(records) => {
                self.reconcile(records);
                Ok(())
            },
            Err(e) => Err(e),
        }
    }

    /// Brings the registry up to date with the records of a listing.
    pub fn reconcile(&mut self, records: Vec<StreamRecord>)
        ensures
            final(self)@ == reconcile(old(self)@, record_views(records@)),
            old(self).wf() ==> final(self).wf(),
    {
        proof {
            law_refresh_keeps_names_distinct(self@, record_views(records@));
        }
        self.retire();
        let ghost all = record_views(records@);
        let ghost base = self@;
        let mut i: usize = 0;
        while i < records.len()
            invariant
                i <= records.len(),
                all == record_views(records@),
                self@ == merge_records(base, all.take(i as int)),
            decreases records.len() - i,
        {
            proof {
                assert(all.take(i + 1).drop_last() =~= all.take(i as int));
                assert(all.take(i + 1).last() == records@[i as int]@);
            }
            self.merge(&records[i]);
            i += 1;
        }
        proof {
            assert(all.take(records.len() as int) =~= all);
        }
    }

    /// Drops the unlocked entries and turns the others stale.
    fn retire(&mut self)
        ensures
            final(self)@ == survivors(old(self)@),
    {
        let mut kept: Vec<Source> = Vec::new();
        let mut i: usize = 0;
        proof {
            reveal(Seq::filter);
            assert(source_views(kept@) =~= survivors(self@.take(0)));
        }
        while i < self.entries.len()
            invariant
                i <= self.entries.len(),
                self.entries@ == old(self).entries@,
                source_views(kept@) == survivors(self@.take(i as int)),
            decreases self.entries.len() - i,
        {
            proof {
                reveal(Seq::filter);
                assert(self@.take(i + 1).drop_last() =~= self@.take(i as int));
                assert(self@.take(i + 1).last() == self.entries@[i as int]@);
            }
            if self.entries[i].locked {
                let mut entry = self.entries[i].clone();
                entry.id = STALE_ID;
                proof {
                    let locked = |e: SourceView| e.locked;
                    let before = self@.take(i as int).filter(locked);
                    let current = self.entries@[i as int]@;
                    assert(self@.take(i + 1).filter(locked) == before.push(current));
                    assert(before.push(current).map_values(|e: SourceView| stale(e))
                        =~= before.map_values(|e: SourceView| stale(e)).push(stale(current)));
                    assert(source_views(kept@.push(entry)) =~= source_views(kept@).push(entry@));
                }
                kept.push(entry);
            }
            i += 1;
        }
        proof {
            assert(self@.take(self.entries.len() as int) =~= self@);
        }
        self.entries = kept;
    }

    /// Merges one record into the entries.
    fn merge(&mut self, record: &StreamRecord)
        ensures
            final(self)@ == merge_record(old(self)@, record@),
    {
        let mut i: usize = 0;
        while i < self.entries.len()
            invariant
                i <= self.entries.len(),
                self.entries@ == old(self).entries@,
                position(old(self)@, with_name(record@.name)) == position_from(
                    old(self)@,
                    with_name(record@.name),
                    i as int,
                ),
            decreases self.entries.len() - i,
        {
            if self.entries[i].name == record.name {
                let entry = &mut self.entries[i];
                entry.id = record.id;
                entry.volume = record.volume;
                entry.mute = record.mute;
                assert(self@ =~= merge_record(old(self)@, record@));
                return ;
            }
            i += 1;
        }
        self.entries.push(Source::from_record(record.clone()));
        assert(self@ =~= merge_record(old(self)@, record@));
    }

    /// The next step of pushing every entry to the collaborator, given how
    /// all the commands run so far ended.
    pub fn flush(&self, outcomes: &[Outcome]) -> (step: Step<FlushError>)
        ensures
            step == flush_all(self@, outcomes@),
    {
        let mut i: usize = 0;
        let mut offset: usize = 0;
        while i < self.entries.len()
            invariant
                i <= self.entries.len(),
                offset == 2 * i,
                offset <= outcomes.len(),
                flush_all(self@, outcomes@) == flush_all_from(self@, outcomes@, i as int),
            decreases self.entries.len() - i,
        {
            match self.entries[i].flush_after(outcomes, offset) {
                Step::Run(command) => {
                    return Step::Run(command);
                },
                Step::Done(Err(error)) => {
                    return Step::Done(Err(FlushError { entry: i, error }));
                },
                Step::Done(Ok(())) => {
                    offset += 2;
                    i += 1;
                },
            }
        }
        Step::Done(Ok(()))
    }
}

} // verus!
