use pactl_mixer::command::{Command, Outcome, Step};
use pactl_mixer::error::{CollaboratorError, ParseError};
use pactl_mixer::listing::StreamRecord;
use pactl_mixer::source::{FlushError, Source, Sources, STALE_ID};

fn record(id: i32, name: &str, volume: i32, mute: bool) -> StreamRecord {
    StreamRecord { id, name: name.to_string(), volume, mute }
}

fn registry(records: Vec<StreamRecord>) -> Sources {
    let mut sources = Sources::default();
    sources.reconcile(records);
    sources
}

/// (id, name, volume, mute, locked) of every entry, in order.
fn entries(sources: &Sources) -> Vec<(i32, String, i32, bool, bool)> {
    (0..sources.len())
        .map(|i| {
            let e = sources.get(i).unwrap();
            (e.id(), e.name(), e.volume(), e.mute(), e.locked())
        })
        .collect()
}

fn entry(id: i32, name: &str, volume: i32, mute: bool, locked: bool) -> (i32, String, i32, bool, bool) {
    (id, name.to_string(), volume, mute, locked)
}

const OK: Outcome = Outcome::Exited { code: Some(0) };

const LISTING: &str = "Sink Input #5\n\tMute: no\n\tVolume: front-left: 26214 /  40% / -23.88 dB,   front-right: 26214 /  40% / -23.88 dB\n\t\tapplication.name = \"App A\"\n\nSink Input #9\n\tMute: yes\n\tVolume: front-left: 49152 /  75% / -7.50 dB,   front-right: 49152 /  75% / -7.50 dB\n\t\tapplication.name = \"App B\"\n";

#[test]
fn new_registry_tracks_the_listing() {
    let sources = Sources::new(LISTING).unwrap();
    assert_eq!(
        entries(&sources),
        vec![entry(5, "App A", 40, false, false), entry(9, "App B", 75, true, false)]
    );
}

#[test]
fn new_registry_from_bad_listing_fails() {
    assert_eq!(Sources::new("Sink Input #\n").err(), Some(ParseError::Id));
}

#[test]
fn entries_can_be_read_in_order() {
    let sources = registry(vec![record(5, "App A", 40, false), record(9, "App B", 75, true)]);
    let names: Vec<String> = sources.iter().map(|s| s.name()).collect();
    assert_eq!(names, vec!["App A", "App B"]);
    assert!(sources.iter().all(|s| !s.locked()));
}

#[test]
fn default_registry_is_empty() {
    let sources = Sources::default();
    assert_eq!(sources.len(), 0);
    assert!(sources.get(0).is_none());
}

#[test]
fn refresh_twice_against_the_same_listing_changes_nothing() {
    let mut sources = Sources::new(LISTING).unwrap();
    sources.by_id(9).unwrap().set_locked(true);
    sources.update(LISTING).unwrap();
    let once = entries(&sources);
    sources.update(LISTING).unwrap();
    assert_eq!(entries(&sources), once);
    assert_eq!(once, vec![entry(9, "App B", 75, true, true), entry(5, "App A", 40, false, false)]);
}

#[test]
fn refresh_after_the_ids_changed_keeps_the_state_and_takes_the_ids() {
    let mut sources = registry(vec![record(5, "App A", 40, false), record(9, "App B", 75, true)]);
    sources.by_id(9).unwrap().set_locked(true);
    sources.reconcile(vec![record(5, "App A", 40, false), record(9, "App B", 75, true)]);
    assert_eq!(
        entries(&sources),
        vec![entry(9, "App B", 75, true, true), entry(5, "App A", 40, false, false)]
    );
    sources.reconcile(vec![record(21, "App A", 40, false), record(22, "App B", 75, true)]);
    assert_eq!(
        entries(&sources),
        vec![entry(22, "App B", 75, true, true), entry(21, "App A", 40, false, false)]
    );
}

#[test]
fn stale_entry_is_flushed_with_the_stale_id() {
    let mut sources = registry(vec![record(5, "App A", 40, false)]);
    sources.by_id(5).unwrap().set_locked(true);
    sources.reconcile(vec![]);
    assert_eq!(sources.flush(&[]), Step::Run(Command::SetVolume { id: STALE_ID, volume: 40 }));
}

#[test]
fn unlocked_entry_without_match_is_evicted() {
    let mut sources = registry(vec![record(5, "App A", 40, false), record(9, "App B", 75, true)]);
    sources.reconcile(vec![record(3, "App B", 70, false)]);
    assert_eq!(entries(&sources), vec![entry(3, "App B", 70, false, false)]);
    assert!(sources.by_name("App A").is_none());
}

#[test]
fn locked_entry_without_match_stays_with_stale_id() {
    let mut sources = registry(vec![record(5, "App A", 40, false), record(9, "App B", 75, true)]);
    sources.by_id(5).unwrap().set_locked(true);
    sources.reconcile(vec![record(3, "App B", 70, false)]);
    assert_eq!(
        entries(&sources),
        vec![entry(STALE_ID, "App A", 40, false, true), entry(3, "App B", 70, false, false)]
    );
    sources.reconcile(vec![]);
    assert_eq!(entries(&sources), vec![entry(-1, "App A", 40, false, true)]);
}

#[test]
fn locked_entry_with_match_takes_the_new_state_and_stays_locked() {
    let mut sources = registry(vec![record(5, "App A", 40, false)]);
    sources.by_id(5).unwrap().set_locked(true);
    sources.reconcile(vec![record(17, "App A", 55, true)]);
    assert_eq!(entries(&sources), vec![entry(17, "App A", 55, true, true)]);
}

#[test]
fn edits_that_were_not_flushed_are_overwritten_by_a_match() {
    let mut sources = registry(vec![record(5, "App A", 40, false)]);
    let source = sources.by_id(5).unwrap();
    source.set_locked(true);
    source.set_volume(90);
    sources.reconcile(vec![record(5, "App A", 40, false)]);
    assert_eq!(entries(&sources), vec![entry(5, "App A", 40, false, true)]);
}

#[test]
fn records_with_one_name_share_one_entry_and_the_last_wins() {
    let sources = registry(vec![
        record(1, "Browser", 10, false),
        record(2, "Player", 20, false),
        record(3, "Browser", 30, true),
    ]);
    assert_eq!(
        entries(&sources),
        vec![entry(3, "Browser", 30, true, false), entry(2, "Player", 20, false, false)]
    );
}

#[test]
fn merge_goes_by_the_whole_name() {
    let mut sources = registry(vec![record(1, "Browser", 10, false)]);
    sources.by_id(1).unwrap().set_locked(true);
    sources.reconcile(vec![record(2, "Brows", 20, false), record(3, "Browser 2", 30, false)]);
    assert_eq!(
        entries(&sources),
        vec![
            entry(-1, "Browser", 10, false, true),
            entry(2, "Brows", 20, false, false),
            entry(3, "Browser 2", 30, false, false),
        ]
    );
}

#[test]
fn failed_refresh_leaves_the_registry_as_it_was() {
    let mut sources = Sources::new(LISTING).unwrap();
    sources.by_id(5).unwrap().set_locked(true);
    let before = entries(&sources);
    let broken = "Sink Input #5\n\tMute: no\n\tVolume: front-left: 26214 /  40%\n\t\tapplication.name = \"App A\"\n";
    assert_eq!(sources.update(broken), Err(ParseError::Volume));
    assert_eq!(entries(&sources), before);
    assert_eq!(before, vec![entry(5, "App A", 40, false, true), entry(9, "App B", 75, true, false)]);
}

#[test]
fn refresh_with_empty_listing_keeps_only_locked_entries() {
    let mut sources = Sources::new(LISTING).unwrap();
    sources.by_id(9).unwrap().set_locked(true);
    assert_eq!(sources.update(""), Ok(()));
    assert_eq!(entries(&sources), vec![entry(-1, "App B", 75, true, true)]);
}

#[test]
fn by_id_finds_only_current_ids() {
    let mut sources = registry(vec![record(5, "App A", 40, false), record(9, "App B", 75, true)]);
    assert_eq!(sources.by_id(9).map(|s| s.name()), Some("App B".to_string()));
    assert!(sources.by_id(7).is_none());
    assert!(sources.by_id(-1).is_none());
    sources.reconcile(vec![record(6, "App A", 40, false)]);
    assert!(sources.by_id(5).is_none());
    assert!(sources.by_id(9).is_none());
    assert_eq!(sources.by_id(6).map(|s| s.name()), Some("App A".to_string()));
}

#[test]
fn by_name_returns_the_first_entry_that_contains_the_text() {
    let mut sources = registry(vec![
        record(1, "abc", 10, false),
        record(2, "xyz one", 20, false),
        record(3, "two xyz", 30, false),
    ]);
    assert_eq!(sources.by_name("xyz").map(|s| s.id()), Some(2));
    assert_eq!(sources.by_name("two").map(|s| s.id()), Some(3));
    assert_eq!(sources.by_name("").map(|s| s.id()), Some(1));
    assert!(sources.by_name("xyz two").is_none());
    assert!(sources.by_name("ABC").is_none());
}

#[test]
fn edit_then_flush_sends_volume_before_mute_with_the_current_id() {
    let mut sources = registry(vec![record(5, "App A", 40, false)]);
    let source = sources.by_id(5).unwrap();
    source.set_volume(60);
    source.set_mute(true);
    assert_eq!(source.flush(&[]), Step::Run(Command::SetVolume { id: 5, volume: 60 }));
    assert_eq!(source.flush(&[OK]), Step::Run(Command::SetMute { id: 5, mute: true }));
    assert_eq!(source.flush(&[OK, OK]), Step::Done(Ok(())));
    assert_eq!(source.flush_volume(), Command::SetVolume { id: 5, volume: 60 });
    assert_eq!(source.flush_mute(), Command::SetMute { id: 5, mute: true });
}

#[test]
fn failed_volume_command_ends_the_flush_before_mute() {
    let source = Source::from_record(record(5, "App A", 40, false));
    let failed = Outcome::Exited { code: Some(1) };
    assert_eq!(source.flush(&[failed]), Step::Done(Err(CollaboratorError::Exit { code: 1 })));
    assert_eq!(source.flush(&[failed, OK]), Step::Done(Err(CollaboratorError::Exit { code: 1 })));
    let gone = Outcome::NotStarted { os_error: Some(2) };
    assert_eq!(
        source.flush(&[gone]),
        Step::Done(Err(CollaboratorError::NotStarted { os_error: Some(2) }))
    );
}

#[test]
fn failed_mute_command_is_reported() {
    let source = Source::from_record(record(5, "App A", 40, false));
    let failed = Outcome::Exited { code: Some(-3) };
    assert_eq!(source.flush(&[OK, failed]), Step::Done(Err(CollaboratorError::Exit { code: -3 })));
}

#[test]
fn end_by_signal_counts_as_success() {
    let source = Source::from_record(record(5, "App A", 40, false));
    let killed = Outcome::Exited { code: None };
    assert_eq!(source.flush(&[killed]), Step::Run(Command::SetMute { id: 5, mute: false }));
    assert_eq!(source.flush(&[killed, killed]), Step::Done(Ok(())));
}

#[test]
fn flush_of_all_entries_goes_in_stored_order() {
    let sources = registry(vec![record(5, "App A", 40, false), record(9, "App B", 75, true)]);
    let mut outcomes = Vec::new();
    let mut commands = Vec::new();
    let end = loop {
        match sources.flush(&outcomes) {
            Step::Run(command) => {
                commands.push(command);
                outcomes.push(OK);
            }
            Step::Done(end) => break end,
        }
    };
    assert_eq!(end, Ok(()));
    assert_eq!(
        commands,
        vec![
            Command::SetVolume { id: 5, volume: 40 },
            Command::SetMute { id: 5, mute: false },
            Command::SetVolume { id: 9, volume: 75 },
            Command::SetMute { id: 9, mute: true },
        ]
    );
}

#[test]
fn flush_of_all_entries_stops_at_the_first_failure() {
    let sources = registry(vec![
        record(5, "App A", 40, false),
        record(9, "App B", 75, true),
        record(11, "App C", 5, false),
    ]);
    let failed = Outcome::Exited { code: Some(4) };
    assert_eq!(
        sources.flush(&[OK, OK, failed]),
        Step::Done(Err(FlushError { entry: 1, error: CollaboratorError::Exit { code: 4 } }))
    );
    assert_eq!(
        sources.flush(&[OK, OK, OK, failed]),
        Step::Done(Err(FlushError { entry: 1, error: CollaboratorError::Exit { code: 4 } }))
    );
    assert_eq!(
        sources.flush(&[failed]),
        Step::Done(Err(FlushError { entry: 0, error: CollaboratorError::Exit { code: 4 } }))
    );
    assert_eq!(sources.flush(&[OK, OK, OK]), Step::Run(Command::SetMute { id: 9, mute: true }));
}

#[test]
fn flush_of_empty_registry_is_done_at_once() {
    assert_eq!(Sources::default().flush(&[]), Step::Done(Ok(())));
}

#[test]
fn commands_are_written_as_the_collaborator_reads_them() {
    assert_eq!(Command::List.program(), "pactl");
    assert_eq!(Command::List.args(), vec!["list", "sink-inputs"]);
    assert_eq!(
        Command::SetVolume { id: 5, volume: 60 }.args(),
        vec!["set-sink-input-volume", "5", "60%"]
    );
    assert_eq!(
        Command::SetVolume { id: -1, volume: -20 }.args(),
        vec!["set-sink-input-volume", "-1", "-20%"]
    );
    assert_eq!(Command::SetMute { id: 12, mute: true }.args(), vec!["set-sink-input-mute", "12", "1"]);
    assert_eq!(Command::SetMute { id: 12, mute: false }.args(), vec!["set-sink-input-mute", "12", "0"]);
}

#[test]
fn outcomes_are_judged_by_exit_code() {
    assert_eq!(Outcome::Exited { code: Some(0) }.check(), None);
    assert_eq!(Outcome::Exited { code: None }.check(), None);
    assert_eq!(Outcome::Exited { code: Some(2) }.check(), Some(CollaboratorError::Exit { code: 2 }));
    assert_eq!(
        Outcome::NotStarted { os_error: None }.check(),
        Some(CollaboratorError::NotStarted { os_error: None })
    );
}
