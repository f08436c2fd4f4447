use pactl_mixer::cli::{cli, Options, Plan};
use pactl_mixer::error::LookupError;
use pactl_mixer::listing::StreamRecord;
use pactl_mixer::source::Sources;

fn record(id: i32, name: &str, volume: i32, mute: bool) -> StreamRecord {
    StreamRecord { id, name: name.to_string(), volume, mute }
}

fn two_streams() -> Sources {
    let mut sources = Sources::default();
    sources.reconcile(vec![record(5, "App A", 40, false), record(9, "App B", 75, true)]);
    sources
}

fn state(sources: &Sources) -> Vec<(i32, i32, bool)> {
    sources.iter().map(|e| (e.id(), e.volume(), e.mute())).collect()
}

fn options() -> Options {
    Options { list: false, id: None, name: None, volume: None, mute: false, unmute: false }
}

#[test]
fn listing_alone_stops_after_the_listing() {
    let mut sources = two_streams();
    let asked = Options { list: true, id: Some(5), ..options() };
    assert_eq!(cli(&mut sources, &asked, false), Plan::Stop);
    assert_eq!(cli(&mut sources, &asked, true), Plan::Stop);
    assert_eq!(state(&sources), vec![(5, 40, false), (9, 75, true)]);
}

#[test]
fn listing_with_an_edit_goes_on_to_the_edit() {
    let mut sources = two_streams();
    let asked = Options { list: true, id: Some(5), volume: Some(10), ..options() };
    assert_eq!(cli(&mut sources, &asked, false), Plan::Flush);
    assert_eq!(state(&sources), vec![(5, 10, false), (9, 75, true)]);
}

#[test]
fn id_goes_before_name() {
    let mut sources = two_streams();
    let asked = Options { id: Some(9), name: Some("App A".to_string()), volume: Some(60), ..options() };
    assert_eq!(cli(&mut sources, &asked, false), Plan::Flush);
    assert_eq!(state(&sources), vec![(5, 40, false), (9, 60, true)]);
}

#[test]
fn unknown_id_fails_even_if_the_name_would_match() {
    let mut sources = two_streams();
    let asked = Options { id: Some(7), name: Some("App A".to_string()), mute: true, ..options() };
    assert_eq!(cli(&mut sources, &asked, true), Plan::Fail(LookupError::Id));
    assert_eq!(state(&sources), vec![(5, 40, false), (9, 75, true)]);
}

#[test]
fn name_selects_the_first_entry_that_contains_it() {
    let mut sources = two_streams();
    let asked = Options { name: Some("App".to_string()), mute: true, ..options() };
    assert_eq!(cli(&mut sources, &asked, false), Plan::Flush);
    assert_eq!(state(&sources), vec![(5, 40, true), (9, 75, true)]);
    let asked = Options { name: Some("App C".to_string()), mute: true, ..options() };
    assert_eq!(cli(&mut sources, &asked, false), Plan::Fail(LookupError::Name));
}

#[test]
fn unmute_goes_before_mute() {
    let mut sources = two_streams();
    let asked = Options { id: Some(9), mute: true, unmute: true, ..options() };
    assert_eq!(cli(&mut sources, &asked, false), Plan::Flush);
    assert_eq!(state(&sources), vec![(5, 40, false), (9, 75, false)]);
}

#[test]
fn selection_without_an_edit_still_flushes() {
    let mut sources = two_streams();
    let asked = Options { id: Some(9), ..options() };
    assert_eq!(cli(&mut sources, &asked, false), Plan::Flush);
    assert_eq!(state(&sources), vec![(5, 40, false), (9, 75, true)]);
}

#[test]
fn no_selection_opens_the_mixer_or_fails() {
    let mut sources = two_streams();
    let asked = Options { volume: Some(10), ..options() };
    assert_eq!(cli(&mut sources, &asked, true), Plan::Interact);
    assert_eq!(cli(&mut sources, &asked, false), Plan::Fail(LookupError::Missing));
    assert_eq!(cli(&mut sources, &options(), true), Plan::Interact);
    assert_eq!(state(&sources), vec![(5, 40, false), (9, 75, true)]);
}

#[test]
fn entry_is_described_line_by_line() {
    let sources = two_streams();
    assert_eq!(
        sources.get(0).unwrap().describe(),
        "App A\n      id: 5\n    mute: false\n  volume: 40%\n\n"
    );
    assert_eq!(
        sources.get(1).unwrap().describe(),
        "App B\n      id: 9\n    mute: true\n  volume: 75%\n\n"
    );
}
