use pactl_mixer::command::Listed;
use pactl_mixer::error::{CollaboratorError, ParseError, RefreshError};
use pactl_mixer::listing::StreamRecord;
use pactl_mixer::source::Sources;

fn record(id: i32, name: &str, volume: i32, mute: bool) -> StreamRecord {
    StreamRecord { id, name: name.to_string(), volume, mute }
}

fn two_streams() -> Sources {
    let mut sources = Sources::default();
    sources.reconcile(vec![record(5, "App A", 40, false), record(9, "App B", 75, true)]);
    sources
}

fn state(sources: &Sources) -> Vec<(i32, i32, bool)> {
    sources.iter().map(|e| (e.id(), e.volume(), e.mute())).collect()
}

#[test]
fn refresh_reads_the_output_of_the_listing_command() {
    let mut sources = two_streams();
    let output = "Sink Input #3\n\tMute: yes\n\t\tapplication.name = \"Müsik\"\n".as_bytes().to_vec();
    assert_eq!(sources.refresh(Listed::Output(output)), Ok(()));
    assert_eq!(state(&sources), vec![(3, 0, true)]);
    assert_eq!(sources.get(0).unwrap().name(), "Müsik");
}

#[test]
fn refresh_fails_without_a_listing_and_changes_nothing() {
    let mut sources = two_streams();
    assert_eq!(
        sources.refresh(Listed::NotStarted { os_error: Some(2) }),
        Err(RefreshError::Collaborator(CollaboratorError::NotStarted { os_error: Some(2) }))
    );
    assert_eq!(
        sources.refresh(Listed::Output(vec![b'S', 0xff, b'\n'])),
        Err(RefreshError::Collaborator(CollaboratorError::InvalidText))
    );
    assert_eq!(
        sources.refresh(Listed::Output(b"Sink Input #x\n".to_vec())),
        Err(RefreshError::Parse(ParseError::Id))
    );
    assert_eq!(state(&sources), vec![(5, 40, false), (9, 75, true)]);
}

#[test]
fn output_decodes_as_utf8() {
    assert_eq!(Listed::Output("a♫".as_bytes().to_vec()).text(), Ok("a♫".to_string()));
    assert_eq!(Listed::Output(vec![]).text(), Ok(String::new()));
    assert_eq!(Listed::Output(vec![0xc3]).text(), Err(CollaboratorError::InvalidText));
    assert_eq!(
        Listed::NotStarted { os_error: None }.text(),
        Err(CollaboratorError::NotStarted { os_error: None })
    );
}

#[test]
fn copy_of_the_registry_is_equal_and_independent() {
    let mut sources = two_streams();
    let copy = sources.clone();
    assert_eq!(copy, sources);
    sources.by_id(5).unwrap().set_volume(1);
    assert_ne!(copy, sources);
    assert_eq!(state(&copy), vec![(5, 40, false), (9, 75, true)]);
}
