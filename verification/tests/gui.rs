use pactl_mixer::command::Listed;
use pactl_mixer::error::{ParseError, RefreshError};
use pactl_mixer::gui::{Input, Mixer, Reaction, SLIDER_MAX};
use pactl_mixer::listing::StreamRecord;
use pactl_mixer::source::Sources;

fn record(id: i32, name: &str, volume: i32, mute: bool) -> StreamRecord {
    StreamRecord { id, name: name.to_string(), volume, mute }
}

fn two_streams() -> Sources {
    let mut sources = Sources::default();
    sources.reconcile(vec![record(5, "App A", 40, false), record(9, "App B", 75, true)]);
    sources
}

fn state(sources: &Sources) -> Vec<(i32, i32, bool)> {
    sources.iter().map(|e| (e.id(), e.volume(), e.mute())).collect()
}

#[test]
fn slider_pushes_only_what_it_changed() {
    let mut mixer = Mixer::new(two_streams());
    assert_eq!(mixer.handle(Input::Volume { index: 1, volume: 75 }), Reaction::Nothing);
    assert_eq!(mixer.handle(Input::Volume { index: 1, volume: 80 }), Reaction::Flush { index: 1 });
    assert_eq!(state(mixer.sources()), vec![(5, 40, false), (9, 80, true)]);
    assert_eq!(mixer.handle(Input::Volume { index: 2, volume: 80 }), Reaction::Nothing);
    assert_eq!(state(mixer.sources()), vec![(5, 40, false), (9, 80, true)]);
}

#[test]
fn slider_stays_within_its_range() {
    let mut mixer = Mixer::new(two_streams());
    assert_eq!(mixer.handle(Input::Volume { index: 0, volume: 500 }), Reaction::Flush { index: 0 });
    assert_eq!(state(mixer.sources())[0], (5, SLIDER_MAX, false));
    assert_eq!(mixer.handle(Input::Volume { index: 0, volume: 201 }), Reaction::Nothing);
    assert_eq!(mixer.handle(Input::Volume { index: 0, volume: -5 }), Reaction::Flush { index: 0 });
    assert_eq!(state(mixer.sources())[0], (5, 0, false));
}

#[test]
fn mute_switch_pushes_only_what_it_changed() {
    let mut mixer = Mixer::new(two_streams());
    assert_eq!(mixer.handle(Input::Mute { index: 0, mute: false }), Reaction::Nothing);
    assert_eq!(mixer.handle(Input::Mute { index: 0, mute: true }), Reaction::Flush { index: 0 });
    assert_eq!(state(mixer.sources()), vec![(5, 40, true), (9, 75, true)]);
    assert_eq!(mixer.handle(Input::Mute { index: 7, mute: true }), Reaction::Nothing);
}

#[test]
fn buttons_are_handed_on() {
    let mut mixer = Mixer::new(two_streams());
    assert_eq!(mixer.handle(Input::Update), Reaction::Update);
    assert_eq!(mixer.handle(Input::Exit), Reaction::Exit);
    assert_eq!(state(mixer.sources()), vec![(5, 40, false), (9, 75, true)]);
}

#[test]
fn mixer_refreshes_its_registry() {
    let mut mixer = Mixer::new(two_streams());
    assert_eq!(mixer.refresh(Listed::Output(b"Sink Input #3\nMute: yes\n".to_vec())), Ok(()));
    assert_eq!(state(mixer.sources()), vec![(3, 0, true)]);
    assert_eq!(
        mixer.refresh(Listed::Output(b"Sink Input\n".to_vec())),
        Err(RefreshError::Parse(ParseError::Id))
    );
    assert_eq!(state(mixer.sources()), vec![(3, 0, true)]);
}
