use mmr_nostr::{Error, Event, EventId, MmrTag};

fn text(fields: &[&str]) -> Vec<String> {
    fields.iter().map(|f| f.to_string()).collect()
}

fn note(tags: Vec<Vec<String>>) -> Event {
    Event {
        id: EventId([3u8; 32]),
        pubkey: [4u8; 32],
        created_at: 1_700_000_000,
        kind: 1,
        tags,
        content: "hello".to_string(),
        sig: [5u8; 64],
    }
}

fn sample() -> MmrTag {
    MmrTag { prev_event_id: [0x1a; 32], prev_mmr_root: [0xb2; 32], prev_event_pos: 41 }
}

#[test]
fn sentinel_tag_on_the_wire() {
    let tag = MmrTag { prev_event_id: [0u8; 32], prev_mmr_root: [0u8; 32], prev_event_pos: -1 };
    assert_eq!(
        tag.as_vec(),
        vec!["mmr".to_string(), "0".repeat(64), "0".repeat(64), "-1".to_string()]
    );
}

#[test]
fn tag_on_the_wire() {
    assert_eq!(
        sample().as_vec(),
        vec!["mmr".to_string(), "1a".repeat(32), "b2".repeat(32), "41".to_string()]
    );
}

#[test]
fn tag_is_read_back_from_its_fields() {
    let tag = sample();
    assert_eq!(MmrTag::parse(&tag.as_vec()), Some(tag));
    let tag = MmrTag { prev_event_id: [0xff; 32], prev_mmr_root: [0; 32], prev_event_pos: i64::MIN };
    assert_eq!(MmrTag::parse(&tag.as_vec()), Some(tag));
}

#[test]
fn fields_that_are_no_commitment_are_refused() {
    let id = "1a".repeat(32);
    let root = "b2".repeat(32);
    assert_eq!(MmrTag::parse(&text(&["mmr", &id, &root, "41"])), Some(sample()));
    assert_eq!(MmrTag::parse(&text(&[])), None);
    assert_eq!(MmrTag::parse(&text(&["mmr"])), None);
    assert_eq!(MmrTag::parse(&text(&["mmr", &id, &root])), None);
    assert_eq!(MmrTag::parse(&text(&["mmr", &id, &root, "41", ""])), None);
    assert_eq!(MmrTag::parse(&text(&["MMR", &id, &root, "41"])), None);
    assert_eq!(MmrTag::parse(&text(&["mm", &id, &root, "41"])), None);
    assert_eq!(MmrTag::parse(&text(&["mmrr", &id, &root, "41"])), None);
    assert_eq!(MmrTag::parse(&text(&["e", &id, &root, "41"])), None);
    assert_eq!(MmrTag::parse(&text(&["mmr", &id[1..], &root, "41"])), None);
    assert_eq!(MmrTag::parse(&text(&["mmr", &id, "zz", "41"])), None);
    assert_eq!(MmrTag::parse(&text(&["mmr", &id, &root, "4 1"])), None);
    assert_eq!(MmrTag::parse(&text(&["mmr", &id, &root, ""])), None);
}

#[test]
fn equal_tags_agree_and_others_mismatch() {
    let tag = sample();
    assert_eq!(tag.equals(&sample()), Ok(()));
    let mut other = sample();
    other.prev_event_pos = 42;
    assert_eq!(tag.equals(&other), Err(Error::CommitmentMismatch));
    let mut other = sample();
    other.prev_event_id[31] ^= 1;
    assert_eq!(tag.equals(&other), Err(Error::CommitmentMismatch));
    let mut other = sample();
    other.prev_mmr_root[0] ^= 0x80;
    assert_eq!(tag.equals(&other), Err(Error::CommitmentMismatch));
    assert!(tag == sample());
    assert!(tag != other);
}

#[test]
fn note_without_tags_has_no_commitment() {
    assert_eq!(MmrTag::try_from(&note(vec![])), Err(Error::MissingCommitment));
}

#[test]
fn note_with_other_tags_only_has_no_commitment() {
    let tags = vec![
        text(&["e", &"00".repeat(32)]),
        text(&["p", &"11".repeat(32)]),
        text(&["mmr", "broken"]),
        text(&[]),
    ];
    assert_eq!(MmrTag::try_from(&note(tags)), Err(Error::MissingCommitment));
}

#[test]
fn commitment_is_found_among_other_tags() {
    let tags = vec![text(&["t", "log"]), sample().as_vec(), text(&["p", &"11".repeat(32)])];
    assert_eq!(MmrTag::try_from(&note(tags)), Ok(sample()));
}

#[test]
fn first_commitment_wins() {
    let mut second = sample();
    second.prev_event_pos = 99;
    let tags = vec![text(&["mmr", "not", "a", "tag"]), sample().as_vec(), second.as_vec()];
    assert_eq!(MmrTag::try_from(&note(tags)), Ok(sample()));
}

#[test]
fn sentinel_commitment_is_a_commitment() {
    let sentinel =
        MmrTag { prev_event_id: [0u8; 32], prev_mmr_root: [0u8; 32], prev_event_pos: -1 };
    assert_eq!(MmrTag::try_from(&note(vec![sentinel.as_vec()])), Ok(sentinel));
}
