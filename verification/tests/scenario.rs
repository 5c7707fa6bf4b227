use mmr_nostr::mmr::Appended;
use mmr_nostr::{Error, Mmr};

fn appended(leaf_pos: u64, seed: u8) -> Appended {
    Appended { leaf_pos, root: [seed; 32], valid: true }
}

#[test]
fn two_notes_then_a_duplicate_then_a_stale_note() {
    let keys = nostr::Keys::generate();
    let mut mmr = Mmr::new();

    let empty = mmr.last_mmr_tag();
    assert_eq!(empty.prev_event_id, [0u8; 32]);
    assert_eq!(empty.prev_mmr_root, [0u8; 32]);
    assert_eq!(empty.prev_event_pos, -1);

    let (a, leave) = mmr.new_event("first", &keys).unwrap();
    assert_eq!(leave.id(), a.id);
    assert_eq!(leave.tip(), empty);
    assert_eq!(mmr.push(leave, &appended(0, 1)), Ok(0));
    assert_eq!(mmr.leaf_count(), 1);
    let after_a = mmr.last_mmr_tag();
    assert_eq!(after_a.prev_event_id, a.id.0);
    assert_eq!(after_a.prev_mmr_root, [1u8; 32]);
    assert_eq!(after_a.prev_event_pos, 0);

    let b = mmr.build_event("second", &keys).unwrap();
    let leave = mmr.handle_event(&b).unwrap();
    assert_eq!(leave.id(), b.id);
    assert_eq!(leave.tip(), after_a);
    assert_eq!(mmr.push(leave, &appended(1, 2)), Ok(1));
    assert_eq!(mmr.leaf_count(), 2);

    assert_eq!(mmr.handle_event(&a), Err(Error::DuplicateId));
    assert_eq!(mmr.admit_local(&a), Err(Error::DuplicateId));
    assert_eq!(mmr.leaf_count(), 2);

    let c = Mmr::new().build_event("third", &keys).unwrap();
    assert_eq!(mmr.handle_event(&c), Err(Error::CommitmentMismatch));
    assert_eq!(mmr.leaf_count(), 2);
}

#[test]
fn run_of_own_notes_is_admitted_one_leaf_at_a_time() {
    let keys = nostr::Keys::generate();
    let mut mmr = Mmr::new();
    let positions = [0u64, 1, 3, 4, 7, 8, 10, 11];
    for (n, pos) in positions.iter().enumerate() {
        let text = format!("This is Nostr message number {} with embedded MMR", n);
        let (note, leave) = mmr.new_event(&text, &keys).unwrap();
        assert_eq!(note.content, text);
        assert_eq!(mmr.admit_local(&note), Ok(leave));
        assert_eq!(mmr.push(leave, &appended(*pos, n as u8 + 1)), Ok(*pos));
        assert_eq!(mmr.leaf_count(), n + 1);
        assert_eq!(mmr.position_of(&note.id), Some(*pos));
        let tip = mmr.last_mmr_tag();
        assert_eq!(tip.prev_event_id, note.id.0);
        assert_eq!(tip.prev_mmr_root, [n as u8 + 1; 32]);
        assert_eq!(tip.prev_event_pos, n as i64);
    }
    assert_eq!(mmr.leaf_count(), 8);
}

#[test]
fn second_note_before_the_first_is_a_mismatch() {
    let keys = nostr::Keys::generate();
    let mut writer = Mmr::new();
    let (first, leave) = writer.new_event("one", &keys).unwrap();
    assert_eq!(writer.push(leave, &appended(0, 1)), Ok(0));
    let (second, leave) = writer.new_event("two", &keys).unwrap();
    assert_eq!(writer.push(leave, &appended(1, 2)), Ok(1));

    let mut reader = Mmr::new();
    assert_eq!(reader.handle_event(&second), Err(Error::CommitmentMismatch));
    assert_eq!(reader.leaf_count(), 0);
    let leave = reader.handle_event(&first).unwrap();
    assert_eq!(reader.push(leave, &appended(0, 1)), Ok(0));
    let leave = reader.handle_event(&second).unwrap();
    assert_eq!(reader.push(leave, &appended(1, 2)), Ok(1));
    assert_eq!(reader.leaf_count(), 2);
    assert_eq!(reader.last_mmr_tag(), writer.last_mmr_tag());
    assert_eq!(reader.handle_event(&first), Err(Error::DuplicateId));
}

#[test]
fn reader_with_another_root_refuses_the_writers_next_note() {
    let keys = nostr::Keys::generate();
    let mut writer = Mmr::new();
    let (first, leave) = writer.new_event("one", &keys).unwrap();
    assert_eq!(writer.push(leave, &appended(0, 1)), Ok(0));
    let (second, _) = writer.new_event("two", &keys).unwrap();

    let mut reader = Mmr::new();
    let leave = reader.handle_event(&first).unwrap();
    assert_eq!(reader.push(leave, &appended(0, 9)), Ok(0));
    assert_eq!(reader.handle_event(&second), Err(Error::CommitmentMismatch));
}

#[test]
fn same_note_from_many_relays_is_admitted_once() {
    let keys = nostr::Keys::generate();
    let writer = Mmr::new();
    let note = writer.build_event("to everyone", &keys).unwrap();

    let mut reader = Mmr::new();
    let mut admitted = 0;
    let mut duplicates = 0;
    for _relay in 0..5 {
        match reader.handle_event(&note) {
            Ok(leave) => {
                assert_eq!(reader.push(leave, &appended(0, 1)), Ok(0));
                admitted += 1;
            }
            Err(Error::DuplicateId) => duplicates += 1,
            Err(e) => panic!("{:?}", e),
        }
    }
    assert_eq!(admitted, 1);
    assert_eq!(duplicates, 4);
    assert_eq!(reader.leaf_count(), 1);
}

#[test]
fn two_notes_on_one_state_leave_one_leaf() {
    let keys = nostr::Keys::generate();
    let writer = Mmr::new();
    let one = writer.build_event("one proposal", &keys).unwrap();
    let other = writer.build_event("another proposal", &keys).unwrap();

    let mut reader = Mmr::new();
    let leave = reader.handle_event(&one).unwrap();
    assert!(reader.handle_event(&other).is_ok());
    assert_eq!(reader.push(leave, &appended(0, 1)), Ok(0));
    assert_eq!(reader.handle_event(&other), Err(Error::CommitmentMismatch));
    assert_eq!(reader.leaf_count(), 1);
}

#[test]
fn leave_given_before_another_admission_is_refused() {
    let keys = nostr::Keys::generate();
    let writer = Mmr::new();
    let one = writer.build_event("one proposal", &keys).unwrap();
    let other = writer.build_event("another proposal", &keys).unwrap();

    let mut reader = Mmr::new();
    let first = reader.handle_event(&one).unwrap();
    let second = reader.handle_event(&other).unwrap();
    assert_eq!(reader.push(first, &appended(0, 1)), Ok(0));
    let tip = reader.last_mmr_tag();
    assert_eq!(reader.push(second, &appended(1, 2)), Err(Error::CommitmentMismatch));
    assert_eq!(reader.push(first, &appended(1, 2)), Err(Error::DuplicateId));
    assert_eq!(reader.leaf_count(), 1);
    assert_eq!(reader.last_mmr_tag(), tip);
    assert_eq!(reader.position_of(&other.id), None);
    assert!(!reader.is_corrupted());
}
