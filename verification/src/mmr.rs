//! The verifier: the state of one log and the decisions on its notes.

use vstd::prelude::*;
use crate::chain::{AdmissionView, AppendedView, ChainLog, NoteView};
use crate::error::Error;
use crate::event::{sign_text_note, Event, TEXT_NOTE};
use crate::hash::{zero_hash, EventId};
use crate::tag::MmrTag;

verus! {

/// What the accumulator reported of one append.
#[derive(Clone, Copy, Debug, PartialEq, Eq)]
pub struct Appended {
    /// The position it gave the new leaf.
    pub leaf_pos: u64,
    /// Its root digest after the append.
    pub root: [u8; 32],
    /// Whether it passed its consistency check after the append.
    pub valid: bool,
}

impl View for Appended {
    type V = AppendedView;

    open spec fn view(&self) -> AppendedView {
        AppendedView { leaf_pos: self.leaf_pos, root: self.root@, valid: self.valid }
    }
}

/// Leave to append one identifier to the accumulator, given by a decision of
/// the verifier. It is good for the state on which it was given:
/// [`Mmr::push`] refuses it once the log has moved on.
#[derive(Clone, Copy, Debug, PartialEq, Eq)]
pub struct Admission {
    id: EventId,
    tip: MmrTag,
}

impl View for Admission {
    type V = AdmissionView;

    closed spec fn view(&self) -> AdmissionView {
        AdmissionView { id: self.id@, tip: self.tip@ }
    }
}

impl Admission {
    /// The identifier to append.
    pub fn id(&self) -> (id: EventId)
        ensures
            id@ == self@.id,
    {
        self.id
    }

    /// The state that the log named when the leave was given.
    pub fn tip(&self) -> (tip: MmrTag)
        ensures
            tip@ == self@.tip,
    {
        self.tip
    }
}

/// What becomes of a note that the signer handed back for a log: no note, a
/// note without the log's state, or one whose signature does not verify, is
/// an error; any other note is returned.
pub open spec fn signed_result(log: ChainLog, signed: Option<Event>) -> Result<Event, Error> {
    match signed {
        None => Err(Error::InvalidSignature),
        Some(event) => if event@.commitment() is None {
            Err(Error::MissingCommitment)
        } else if event@.commitment() != Some(log.tip()) {
            Err(Error::CommitmentMismatch)
        } else if !event@.signature_verifies() {
            Err(Error::InvalidSignature)
        } else {
            Ok(event)
        },
    }
}

/// One line of the position index.
struct Entry {
    id: EventId,
    pos: u64,
    root: [u8; 32],
}

/// The verifier of one log. It holds what it was told of the accumulator: the
/// identifiers admitted, in order, each with its position and with the root
/// digest after its admission.
///
/// Admitting a note takes two steps with the accumulator's work between them.
/// [`Mmr::handle_event`] (for a note from a relay) or [`Mmr::admit_local`] (for
/// one's own) decides; on `Ok` the caller appends the identifier to the
/// accumulator, runs its consistency check, and reports to [`Mmr::push`] with
/// the [`Admission`] that the decision gave. An admission that was decided
/// before another one was recorded is refused there: the log takes one note
/// for each of its states.
pub struct Mmr {
    entries: Vec<Entry>,
    corrupted: bool,
}

impl View for Mmr {
    type V = ChainLog;

    closed spec fn view(&self) -> ChainLog {
        ChainLog {
            leaves: Seq::new(self.entries@.len(), |i: int| self.entries@[i].id@),
            positions: Seq::new(self.entries@.len(), |i: int| self.entries@[i].pos),
            roots: Seq::new(self.entries@.len(), |i: int| self.entries@[i].root@),
            corrupted: self.corrupted,
        }
    }
}

impl Mmr {
    #[verifier::type_invariant]
    spec fn inv(&self) -> bool {
        self@.leaves.no_duplicates()
    }

    /// A verifier for an empty log.
    pub fn new() -> (mmr: Mmr)
        ensures
            mmr@ == ChainLog::empty(),
            mmr@.wf(),
    {
        let mmr = Mmr { entries: Vec::new(), corrupted: false };
        assert(mmr@.leaves =~= Seq::<Seq<u8>>::empty());
        assert(mmr@.positions =~= Seq::<u64>::empty());
        assert(mmr@.roots =~= Seq::<Seq<u8>>::empty());
        mmr
    }

    /// The number of notes admitted.
    pub fn leaf_count(&self) -> (n: usize)
        ensures
            n == self@.leaf_count(),
            self@.wf(),
    {
        proof {
            use_type_invariant(self);
        }
        self.entries.len()
    }

    /// Whether the accumulator has failed its consistency check. Such a log
    /// admits nothing more.
    pub fn is_corrupted(&self) -> (corrupted: bool)
        ensures
            corrupted == self@.corrupted,
    {
        self.corrupted
    }

    /// Where in the index an identifier stands.
    fn find(&self, event_id: &EventId) -> (at: Option<usize>)
        ensures
            match at {
                Some(i) => i < self.entries@.len() && self@.leaves[i as int] == event_id@,
                None => !self@.contains(event_id@),
            },
    {
        let mut i: usize = 0;
        while i < self.entries.len()
            invariant
                i <= self.entries@.len(),
                forall|j: int| 0 <= j < i ==> self@.leaves[j] != event_id@,
            decreases self.entries@.len() - i,
        {
            if self.entries[i].id == *event_id {
                return Some(i);
            }
            i += 1;
        }
        None
    }

    /// The state of the log as the next note has to name it: the last
    /// identifier, the root digest and the last position, or the sentinel of
    /// an empty log. Nothing changes.
    pub fn last_mmr_tag(&self) -> (tag: MmrTag)
        ensures
            tag@ == self@.tip(),
            self@.wf(),
    {
        proof {
            use_type_invariant(self);
        }
        let n = self.entries.len();
        if n == 0 {
            MmrTag { prev_event_id: zero_hash(), prev_mmr_root: zero_hash(), prev_event_pos: -1 }
        } else {
            let last: u64 = (n - 1) as u64;
            let prev_event_pos: i64 = if last <= 0x7fff_ffff_ffff_ffff {
                last as i64
            } else {
                -1
            };
            MmrTag {
                prev_event_id: self.entries[n - 1].id.0,
                prev_mmr_root: self.entries[n - 1].root,
                prev_event_pos,
            }
        }
    }

    /// `DuplicateId` if a note with this identifier has been admitted, `Ok` if
    /// not.
    pub fn doesnt_contain(&self, event_id: &EventId) -> (r: Result<(), Error>)
        ensures
            r == if self@.contains(event_id@) {
                Err::<(), Error>(Error::DuplicateId)
            } else {
                Ok::<(), Error>(())
            },
    {
        match self.find(event_id) {
            Some(_) => Err(Error::DuplicateId),
            None => Ok(()),
        }
    }

    /// The position recorded for an admitted note, at which the accumulator
    /// is to be asked for the note's inclusion proof; `None` for a note that
    /// was never admitted.
    pub fn position_of(&self, event_id: &EventId) -> (pos: Option<u64>)
        ensures
            pos == self@.position_of(event_id@),
    {
        proof {
            use_type_invariant(self);
        }
        match self.find(event_id) {
            Some(i) => {
                proof {
                    let j = self@.leaves.index_of(event_id@);
                    assert(self@.leaves.contains(event_id@));
                    assert(0 <= j < self@.leaves.len() && self@.leaves[j] == event_id@);
                    assert(j == i);
                }
                Some(self.entries[i].pos)
            },
            None => None,
        }
    }

    /// The root digest that the accumulator had right after an admitted note
    /// was appended, against which the proof made at its admission verifies;
    /// `None` for a note that was never admitted.
    pub fn root_of(&self, event_id: &EventId) -> (root: Option<[u8; 32]>)
        ensures
            match root {
                Some(r) => self@.root_of(event_id@) == Some(r@),
                None => self@.root_of(event_id@) is None,
            },
    {
        proof {
            use_type_invariant(self);
        }
        match self.find(event_id) {
            Some(i) => {
                proof {
                    let j = self@.leaves.index_of(event_id@);
                    assert(self@.leaves.contains(event_id@));
                    assert(0 <= j < self@.leaves.len() && self@.leaves[j] == event_id@);
                    assert(j == i);
                }
                Some(self.entries[i].root)
            },
            None => None,
        }
    }

    /// Decides on a note from a relay, given whether its signature verifies.
    /// The checks run in this order: a log that was given up admits nothing;
    /// the note must carry a commitment; its identifier must be new; the
    /// commitment must equal the log's state; the signature must verify.
    pub fn verify_with(&self, event: &Event, signature_ok: bool) -> (r: Result<(), Error>)
        ensures
            r == self@.check_remote(NoteView { signature_ok, ..event@.note() }),
    {
        if self.corrupted {
            return Err(Error::AccumulatorCorruption);
        }
        let tag = match MmrTag::try_from(event) {
            Ok(tag) => tag,
            Err(e) => {
                return Err(e);
            },
        };
        match self.doesnt_contain(&event.id) {
            Ok(_) => {},
            Err(e) => {
                return Err(e);
            },
        }
        match self.last_mmr_tag().equals(&tag) {
            Ok(_) => {},
            Err(e) => {
                return Err(e);
            },
        }
        if !signature_ok {
            return Err(Error::InvalidSignature);
        }
        Ok(())
    }

    /// Decides on a note from a relay. The signature is checked last, and only
    /// for a note that passed every other check.
    pub fn verify(&self, event: &Event) -> (r: Result<(), Error>)
        ensures
            r == self@.check_remote(event@.note()),
    {
        match self.verify_with(event, true) {
            Ok(_) => event.verify(),
            Err(e) => Err(e),
        }
    }

    /// Decides on a note from a relay. `Ok` holds the leave to append the
    /// note's identifier to the accumulator; an error drops the note. The log
    /// stays as it was either way.
    pub fn handle_event(&self, event: &Event) -> (r: Result<Admission, Error>)
        ensures
            match r {
                Ok(admission) => admission@ == self@.admission(event@.id) && self@.check_remote(
                    event@.note(),
                ) is Ok,
                Err(e) => self@.check_remote(event@.note()) == Err::<(), Error>(e),
            },
    {
        match self.verify(event) {
            Ok(_) => Ok(Admission { id: event.id, tip: self.last_mmr_tag() }),
            Err(e) => Err(e),
        }
    }

    /// Decides on a note of one's own, written against this log's state. It is
    /// refused only as a duplicate, or by a log that was given up. `Ok` holds
    /// the leave to append the note's identifier to the accumulator.
    pub fn admit_local(&self, event: &Event) -> (r: Result<Admission, Error>)
        ensures
            match r {
                Ok(admission) => admission@ == self@.admission(event@.id) && self@.check_local(
                    event@.id,
                ) is Ok,
                Err(e) => self@.check_local(event@.id) == Err::<(), Error>(e),
            },
    {
        if self.corrupted {
            return Err(Error::AccumulatorCorruption);
        }
        match self.doesnt_contain(&event.id) {
            Ok(_) => Ok(Admission { id: event.id, tip: self.last_mmr_tag() }),
            Err(e) => Err(e),
        }
    }

    /// Reads again what the signer handed back for a note written against this
    /// log. The note is returned only if it carries the log's state and its
    /// signature verifies; the checks run in that order, after the check that
    /// the signer handed back a note at all.
    pub fn accept_signed(&self, signed: Option<Event>) -> (r: Result<Event, Error>)
        ensures
            r == signed_result(self@, signed),
    {
        let event = match signed {
            Some(event) => event,
            None => {
                return Err(Error::InvalidSignature);
            },
        };
        let carried = match MmrTag::try_from(&event) {
            Ok(carried) => carried,
            Err(e) => {
                return Err(e);
            },
        };
        match self.last_mmr_tag().equals(&carried) {
            Ok(_) => {},
            Err(e) => {
                return Err(e);
            },
        }
        match event.verify() {
            Ok(_) => Ok(event),
            Err(e) => Err(e),
        }
    }

    /// Writes and signs a text note with the text `msg` that names this log's
    /// state. The signer stamps the time and draws the signature, so whether
    /// a note comes back is its matter; what comes back has passed
    /// [`Mmr::accept_signed`].
    pub fn build_event(&self, msg: &str, keys: &nostr::Keys) -> (r: Result<Event, Error>)
        ensures
            match r {
                Ok(event) => {
                    &&& event@.content == msg@
                    &&& event.kind == TEXT_NOTE
                    &&& event@.commitment() == Some(self@.tip())
                    &&& event@.signature_verifies()
                },
                Err(e) => e == Error::InvalidSignature || e == Error::MissingCommitment || e
                    == Error::CommitmentMismatch,
            },
    {
        let tag = self.last_mmr_tag();
        self.accept_signed(sign_text_note(msg, &tag.as_vec(), keys))
    }

    /// Writes, signs and decides on a note of one's own with the text `msg`.
    /// `Ok` holds the note, which passed every check that a note from a relay
    /// has to pass, and the leave to append its identifier to the accumulator.
    /// A log that was given up refuses before anything is signed.
    pub fn new_event(&self, msg: &str, keys: &nostr::Keys) -> (r: Result<(Event, Admission), Error>)
        ensures
            self@.corrupted ==> r == Err::<(Event, Admission), Error>(Error::AccumulatorCorruption),
            match r {
                Ok((event, admission)) => {
                    &&& event@.content == msg@
                    &&& event.kind == TEXT_NOTE
                    &&& self@.check_remote(event@.note()) is Ok
                    &&& self@.check_local(event@.id) is Ok
                    &&& admission@ == self@.admission(event@.id)
                },
                Err(e) => e != Error::TransportFailure && (e == Error::AccumulatorCorruption
                    <==> self@.corrupted),
            },
    {
        if self.corrupted {
            return Err(Error::AccumulatorCorruption);
        }
        let event = match self.build_event(msg, keys) {
            Ok(event) => event,
            Err(e) => {
                return Err(e);
            },
        };
        match self.handle_event(&event) {
            Ok(admission) => Ok((event, admission)),
            Err(e) => Err(e),
        }
    }

    /// Records what the accumulator reported of the append that `admission`
    /// gave leave for. A failed consistency check gives the log up for good,
    /// whatever else holds. A leave for an identifier that is in the log by
    /// now is refused as a duplicate, and one that was given on another state
    /// than the log has now as a mismatch; neither changes anything. Otherwise
    /// the identifier becomes the last leaf, with its position and the new
    /// root, and `Ok` holds the position at which the accumulator is to be
    /// asked for the inclusion proof.
    pub fn push(&mut self, admission: Admission, appended: &Appended) -> (r: Result<u64, Error>)
        ensures
            final(self)@ == old(self)@.record(admission@, appended@),
            r == old(self)@.record_result(admission@, appended@),
            final(self)@.wf(),
    {
        proof {
            use_type_invariant(&*self);
        }
        if self.corrupted {
            return Err(Error::AccumulatorCorruption);
        }
        if !appended.valid {
            self.corrupted = true;
            assert(self@.leaves =~= old(self)@.leaves);
            assert(self@.positions =~= old(self)@.positions);
            assert(self@.roots =~= old(self)@.roots);
            return Err(Error::AccumulatorCorruption);
        }
        if self.find(&admission.id).is_some() {
            return Err(Error::DuplicateId);
        }
        match self.last_mmr_tag().equals(&admission.tip) {
            Ok(_) => {},
            Err(e) => {
                return Err(e);
            },
        }
        proof {
            crate::chain::lemma_record_append_only(self@, admission@, appended@);
        }
        let ghost next = old(self)@.record(admission@, appended@);
        let mut entries: Vec<Entry> = Vec::new();
        core::mem::swap(&mut self.entries, &mut entries);
        entries.push(Entry { id: admission.id, pos: appended.leaf_pos, root: appended.root });
        proof {
            assert(Seq::new(entries@.len(), |i: int| entries@[i].id@) =~= next.leaves);
        }
        core::mem::swap(&mut self.entries, &mut entries);
        assert(self@.leaves =~= next.leaves);
        assert(self@.positions =~= next.positions);
        assert(self@.roots =~= next.roots);
        Ok(appended.leaf_pos)
    }
}

} // verus!
