use mmr_nostr::client::{Client, Handled, RelayMessage};
use mmr_nostr::mmr::Appended;
use mmr_nostr::{Error, EventId, Mmr};

fn appended(leaf_pos: u64, seed: u8) -> Appended {
    Appended { leaf_pos, root: [seed; 32], valid: true }
}

#[test]
fn new_client_has_no_subscriptions() {
    assert!(Client::new().subscriptions.is_empty());
}

#[test]
fn subscriptions_are_kept_in_order() {
    let mut client = Client::new();
    client.subscribe("first".to_string());
    client.subscribe("second".to_string());
    client.subscribe("first".to_string());
    assert_eq!(client.subscriptions, vec!["first", "second", "first"]);
}

#[test]
fn frames_without_a_note_are_informational() {
    let client = Client::new();
    let mmr = Mmr::new();
    let frames = [
        RelayMessage::Empty,
        RelayMessage::Unhandled,
        RelayMessage::Notice { message: "slow down".to_string() },
        RelayMessage::EndOfStoredEvents("sub".to_string()),
        RelayMessage::Acknowledged {
            event_id: EventId([1u8; 32]),
            status: false,
            message: "blocked".to_string(),
        },
    ];
    for frame in frames.iter() {
        assert_eq!(client.socket_reader(&mmr, Some(frame)), Handled::Info);
    }
    assert_eq!(mmr.leaf_count(), 0);
}

#[test]
fn note_that_extends_the_log_is_to_be_appended() {
    let keys = nostr::Keys::generate();
    let client = Client::new();
    let mut mmr = Mmr::new();
    let note = Mmr::new().build_event("hello", &keys).unwrap();
    let frame = RelayMessage::Event { subscription_id: "sub".to_string(), event: note.clone() };
    let leave = match client.socket_reader(&mmr, Some(&frame)) {
        Handled::Append(leave) => leave,
        other => panic!("{:?}", other),
    };
    assert_eq!(leave.id(), note.id);
    assert_eq!(leave.tip(), mmr.last_mmr_tag());
    assert_eq!(Handled::Append(leave), Handled::Append(mmr.handle_event(&note).unwrap()));
    assert_eq!(mmr.leaf_count(), 0);
    assert_eq!(mmr.push(leave, &appended(0, 1)), Ok(0));
    assert_eq!(client.socket_reader(&mmr, Some(&frame)), Handled::Dropped(Error::DuplicateId));
}

#[test]
fn refused_notes_are_dropped_with_their_reason() {
    let keys = nostr::Keys::generate();
    let client = Client::new();
    let mut writer = Mmr::new();
    let (first, leave) = writer.new_event("one", &keys).unwrap();
    assert_eq!(writer.push(leave, &appended(0, 1)), Ok(0));
    let (second, _) = writer.new_event("two", &keys).unwrap();

    let reader = Mmr::new();
    let frame = RelayMessage::Event { subscription_id: "sub".to_string(), event: second.clone() };
    assert_eq!(
        client.socket_reader(&reader, Some(&frame)),
        Handled::Dropped(Error::CommitmentMismatch)
    );

    let mut bare = first.clone();
    bare.tags.clear();
    let frame = RelayMessage::Event { subscription_id: "sub".to_string(), event: bare };
    assert_eq!(
        client.socket_reader(&reader, Some(&frame)),
        Handled::Dropped(Error::MissingCommitment)
    );

    let mut altered = first.clone();
    altered.content.push('!');
    let frame = RelayMessage::Event { subscription_id: "sub".to_string(), event: altered };
    assert_eq!(
        client.socket_reader(&reader, Some(&frame)),
        Handled::Dropped(Error::InvalidSignature)
    );
}

#[test]
fn failed_relay_is_reported_and_changes_nothing() {
    let client = Client::new();
    let mut mmr = Mmr::new();
    assert_eq!(client.socket_reader(&mmr, None), Handled::Dropped(Error::TransportFailure));
    assert!(!Error::TransportFailure.is_fatal());
    let keys = nostr::Keys::generate();
    let (_, leave) = mmr.new_event("one", &keys).unwrap();
    assert_eq!(mmr.push(leave, &appended(0, 1)), Ok(0));
    let tip = mmr.last_mmr_tag();
    assert_eq!(client.socket_reader(&mmr, None), Handled::Dropped(Error::TransportFailure));
    assert_eq!(mmr.last_mmr_tag(), tip);
    assert_eq!(mmr.leaf_count(), 1);
}
