//! The log as a mathematical object: its state, the decisions taken on it and
//! the steps that extend it.

use vstd::prelude::*;
use crate::error::Error;
use crate::hash::zero_digest;
use crate::tag::TagView;

verus! {

/// The position that a tag names for the last of `leaves` notes: one less than
/// their number, and -1 where there is none, or where that number does not fit
/// the tag's sixty-four signed bits.
pub open spec fn last_pos(leaves: nat) -> int {
    if 0 < leaves <= 0x8000_0000_0000_0000 {
        leaves - 1
    } else {
        -1
    }
}

/// What a decision reads of a note.
pub ghost struct NoteView {
    /// The note's identifier.
    pub id: Seq<u8>,
    /// The commitment among its tags, if there is one.
    pub commitment: Option<TagView>,
    /// Whether its signature verifies.
    pub signature_ok: bool,
}

/// What the accumulator reported of one append.
pub ghost struct AppendedView {
    /// The position it gave the new leaf.
    pub leaf_pos: u64,
    /// Its root digest after the append.
    pub root: Seq<u8>,
    /// Whether it passed its consistency check after the append.
    pub valid: bool,
}

/// Leave to append one identifier, good for the state on which it was given.
pub ghost struct AdmissionView {
    /// The identifier to append.
    pub id: Seq<u8>,
    /// The state that the log named when the leave was given.
    pub tip: TagView,
}

/// The state of a log.
pub ghost struct ChainLog {
    /// The identifiers admitted, in the order of their admission.
    pub leaves: Seq<Seq<u8>>,
    /// The position that the accumulator gave each of them.
    pub positions: Seq<u64>,
    /// The accumulator's root digest after the admission of each of them.
    pub roots: Seq<Seq<u8>>,
    /// Set once the accumulator has failed its consistency check.
    pub corrupted: bool,
}

impl ChainLog {
    /// Every identifier has its position, none occurs twice, and all digests
    /// have thirty-two bytes.
    pub open spec fn wf(self) -> bool {
        &&& self.positions.len() == self.leaves.len()
        &&& self.roots.len() == self.leaves.len()
        &&& self.leaves.no_duplicates()
        &&& forall|i: int| 0 <= i < self.leaves.len() ==> (#[trigger] self.leaves[i]).len() == 32
        &&& forall|i: int| 0 <= i < self.roots.len() ==> (#[trigger] self.roots[i]).len() == 32
    }

    /// The log before the first admission.
    pub open spec fn empty() -> ChainLog {
        ChainLog {
            leaves: Seq::empty(),
            positions: Seq::empty(),
            roots: Seq::empty(),
            corrupted: false,
        }
    }

    /// The number of notes admitted.
    pub open spec fn leaf_count(self) -> nat {
        self.leaves.len()
    }

    /// Whether a note with this identifier has been admitted.
    pub open spec fn contains(self, id: Seq<u8>) -> bool {
        self.leaves.contains(id)
    }

    /// The position recorded for an identifier.
    pub open spec fn position_of(self, id: Seq<u8>) -> Option<u64> {
        if self.leaves.contains(id) {
            Some(self.positions[self.leaves.index_of(id)])
        } else {
            None
        }
    }

    /// The root digest recorded at the admission of an identifier.
    pub open spec fn root_of(self, id: Seq<u8>) -> Option<Seq<u8>> {
        if self.leaves.contains(id) {
            Some(self.roots[self.leaves.index_of(id)])
        } else {
            None
        }
    }

    /// The state that the next note has to name: the last identifier, the
    /// root after its admission and the last position, or the sentinel of an
    /// empty log.
    pub open spec fn tip(self) -> TagView {
        if self.leaves.len() == 0 {
            TagView { prev_event_id: zero_digest(), prev_mmr_root: zero_digest(), prev_event_pos: -1 }
        } else {
            TagView {
                prev_event_id: self.leaves.last(),
                prev_mmr_root: self.roots.last(),
                prev_event_pos: last_pos(self.leaves.len()),
            }
        }
    }

    /// The decision on a note of one's own: it is refused only by a log that
    /// has been given up, or as a duplicate.
    pub open spec fn check_local(self, id: Seq<u8>) -> Result<(), Error> {
        if self.corrupted {
            Err(Error::AccumulatorCorruption)
        } else if self.contains(id) {
            Err(Error::DuplicateId)
        } else {
            Ok(())
        }
    }

    /// The decision on a note that came from a relay. The checks are made in
    /// this order, and the first that fails names the error.
    pub open spec fn check_remote(self, note: NoteView) -> Result<(), Error> {
        if self.corrupted {
            Err(Error::AccumulatorCorruption)
        } else if note.commitment is None {
            Err(Error::MissingCommitment)
        } else if self.contains(note.id) {
            Err(Error::DuplicateId)
        } else if note.commitment != Some(self.tip()) {
            Err(Error::CommitmentMismatch)
        } else if !note.signature_ok {
            Err(Error::InvalidSignature)
        } else {
            Ok(())
        }
    }

    /// The leave that a favourable decision on `id` gives: to append `id` to
    /// the log as it stands.
    pub open spec fn admission(self, id: Seq<u8>) -> AdmissionView {
        AdmissionView { id, tip: self.tip() }
    }

    /// What recording an append answers: the leaf's position, or the reason
    /// why nothing was recorded. A failed consistency check counts before
    /// anything else; a leave is refused for an identifier that is in the log
    /// by now, and as a mismatch where the log has moved on since it was given.
    pub open spec fn record_result(self, admission: AdmissionView, appended: AppendedView) -> Result<
        u64,
        Error,
    > {
        if self.corrupted || !appended.valid {
            Err(Error::AccumulatorCorruption)
        } else if self.contains(admission.id) {
            Err(Error::DuplicateId)
        } else if admission.tip != self.tip() {
            Err(Error::CommitmentMismatch)
        } else {
            Ok(appended.leaf_pos)
        }
    }

    /// The log after an append was reported. A failed consistency check gives
    /// the log up; a leave that is refused changes nothing; otherwise the
    /// identifier becomes the last leaf.
    pub open spec fn record(self, admission: AdmissionView, appended: AppendedView) -> ChainLog {
        if self.corrupted {
            self
        } else if !appended.valid {
            ChainLog { corrupted: true, ..self }
        } else if self.contains(admission.id) || admission.tip != self.tip() {
            self
        } else {
            ChainLog {
                leaves: self.leaves.push(admission.id),
                positions: self.positions.push(appended.leaf_pos),
                roots: self.roots.push(appended.root),
                corrupted: false,
            }
        }
    }

    /// The log after a relay's note was handled in one piece: decided, and
    /// where the decision was to append, appended and recorded.
    pub open spec fn admit_remote(self, note: NoteView, appended: AppendedView) -> ChainLog {
        if self.check_remote(note) is Ok {
            self.record(self.admission(note.id), appended)
        } else {
            self
        }
    }

    /// What handling a relay's note answers.
    pub open spec fn admit_remote_result(self, note: NoteView, appended: AppendedView) -> Result<
        u64,
        Error,
    > {
        match self.check_remote(note) {
            Ok(_) => self.record_result(self.admission(note.id), appended),
            Err(e) => Err(e),
        }
    }

    /// The log after a note of one's own was handled in one piece.
    pub open spec fn admit_local(self, id: Seq<u8>, appended: AppendedView) -> ChainLog {
        if self.check_local(id) is Ok {
            self.record(self.admission(id), appended)
        } else {
            self
        }
    }

    /// What handling a note of one's own answers.
    pub open spec fn admit_local_result(self, id: Seq<u8>, appended: AppendedView) -> Result<
        u64,
        Error,
    > {
        match self.check_local(id) {
            Ok(_) => self.record_result(self.admission(id), appended),
            Err(e) => Err(e),
        }
    }

    /// The log after a run of notes of one's own, each stamped with the state
    /// that the one before it left.
    pub open spec fn publish_all(self, ids: Seq<Seq<u8>>, appends: Seq<AppendedView>) -> ChainLog
        decreases ids.len(),
    {
        if ids.len() == 0 {
            self
        } else {
            let before = self.publish_all(ids.drop_last(), appends.drop_last());
            before.admit_remote(
                NoteView { id: ids.last(), commitment: Some(before.tip()), signature_ok: true },
                appends.last(),
            )
        }
    }

    /// The log after one note was delivered once for each entry of `appends`.
    pub open spec fn deliver_copies(self, note: NoteView, appends: Seq<AppendedView>) -> ChainLog
        decreases appends.len(),
    {
        if appends.len() == 0 {
            self
        } else {
            self.deliver_copies(note, appends.drop_last()).admit_remote(note, appends.last())
        }
    }
}

/// Before the first admission the log names the sentinel: both digests zero,
/// position -1.
pub proof fn lemma_empty_log()
    ensures
        ChainLog::empty().wf(),
        ChainLog::empty().leaf_count() == 0,
        !ChainLog::empty().corrupted,
        ChainLog::empty().tip() == (TagView {
            prev_event_id: zero_digest(),
            prev_mmr_root: zero_digest(),
            prev_event_pos: -1,
        }),
        ChainLog::empty().tip().wf(),
{
}

/// The state that a well-formed log names fits a tag.
pub proof fn lemma_tip_wf(log: ChainLog)
    requires
        log.wf(),
    ensures
        log.tip().wf(),
{
    if log.leaves.len() > 0 {
        assert(log.leaves[log.leaves.len() - 1].len() == 32);
        assert(log.roots[log.roots.len() - 1].len() == 32);
    }
}

/// Recording keeps the log well formed, never removes or reorders a leaf, and
/// adds at most one.
pub proof fn lemma_record_append_only(
    log: ChainLog,
    admission: AdmissionView,
    appended: AppendedView,
)
    requires
        log.wf(),
        admission.id.len() == 32,
        appended.root.len() == 32,
    ensures
        log.record(admission, appended).wf(),
        log.leaves.is_prefix_of(log.record(admission, appended).leaves),
        log.positions.is_prefix_of(log.record(admission, appended).positions),
        log.roots.is_prefix_of(log.record(admission, appended).roots),
        log.record(admission, appended).leaf_count() == log.leaf_count() + (if log.record_result(
            admission,
            appended,
        ) is Ok {
            1nat
        } else {
            0nat
        }),
        log.corrupted ==> log.record(admission, appended).corrupted,
{
    let next = log.record(admission, appended);
    if log.record_result(admission, appended) is Ok {
        assert forall|i: int, j: int|
            0 <= i < next.leaves.len() && 0 <= j < next.leaves.len() && i != j implies next.leaves[i]
            != next.leaves[j] by {
            if i < log.leaves.len() && j < log.leaves.len() {
                assert(log.leaves[i] != log.leaves[j]);
            } else if i < log.leaves.len() {
                assert(log.leaves.contains(log.leaves[i]));
            } else {
                assert(log.leaves.contains(log.leaves[j]));
            }
        }
        assert forall|i: int| 0 <= i < next.leaves.len() implies (#[trigger] next.leaves[i]).len()
            == 32 by {
            if i < log.leaves.len() {
                assert(next.leaves[i] == log.leaves[i]);
            }
        }
        assert forall|i: int| 0 <= i < next.roots.len() implies (#[trigger] next.roots[i]).len()
            == 32 by {
            if i < log.roots.len() {
                assert(next.roots[i] == log.roots[i]);
            }
        }
    }
}

/// An append is recorded only on the state on which it was decided: the log
/// grows only by a leave that names the state the log has, for an identifier
/// that is new, after a consistency check that passed.
pub proof fn lemma_recorded_on_decided_state(
    log: ChainLog,
    admission: AdmissionView,
    appended: AppendedView,
)
    ensures
        log.record_result(admission, appended) is Ok ==> {
            &&& admission.tip == log.tip()
            &&& !log.contains(admission.id)
            &&& !log.corrupted
            &&& appended.valid
        },
        log.record(admission, appended).leaves != log.leaves ==> log.record_result(
            admission,
            appended,
        ) is Ok,
{
    let next = log.record(admission, appended);
    if next.leaves != log.leaves {
        if !(log.record_result(admission, appended) is Ok) {
            assert(next.leaves =~= log.leaves);
        }
    }
}

/// A note is admitted only on the state it names: whenever handling a relay's
/// note changes the log, the note carried the state the log had before.
pub proof fn lemma_admitted_only_on_tip(log: ChainLog, note: NoteView, appended: AppendedView)
    ensures
        log.admit_remote(note, appended) != log ==> note.commitment == Some(log.tip())
            && !log.contains(note.id) && note.signature_ok,
        log.admit_remote_result(note, appended) is Ok ==> note.commitment == Some(log.tip())
            && !log.contains(note.id) && note.signature_ok && appended.valid,
{
}

/// A note that names the log's own state, is new and is signed by its author
/// is admitted, and the log grows by exactly that note.
pub proof fn lemma_own_commitment_admitted(log: ChainLog, note: NoteView, appended: AppendedView)
    requires
        log.wf(),
        !log.corrupted,
        !log.contains(note.id),
        note.id.len() == 32,
        note.commitment == Some(log.tip()),
        note.signature_ok,
        appended.valid,
        appended.root.len() == 32,
    ensures
        log.check_local(note.id) is Ok,
        log.check_remote(note) is Ok,
        log.admit_remote_result(note, appended) == Ok::<u64, Error>(appended.leaf_pos),
        log.admit_local_result(note.id, appended) == Ok::<u64, Error>(appended.leaf_pos),
        log.admit_local(note.id, appended) == log.admit_remote(note, appended),
        log.admit_remote(note, appended).wf(),
        !log.admit_remote(note, appended).corrupted,
        log.admit_remote(note, appended).leaves == log.leaves.push(note.id),
        log.admit_remote(note, appended).leaf_count() == log.leaf_count() + 1,
        log.admit_remote(note, appended).tip().prev_event_id == note.id,
        log.admit_remote(note, appended).tip().prev_mmr_root == appended.root,
        log.admit_remote(note, appended).tip() != log.tip(),
{
    lemma_record_append_only(log, log.admission(note.id), appended);
    let next = log.admit_remote(note, appended);
    let n = log.leaves.len();
    if n > 0 {
        if last_pos(n) == last_pos(n + 1) {
            assert(log.leaves.contains(log.leaves[n - 1]));
            assert(next.tip().prev_event_id != log.tip().prev_event_id);
        }
    }
}

/// Every note of a run of one's own notes is admitted, and each adds one leaf:
/// a log never mistakes the state it named itself.
pub proof fn lemma_publish_all(log: ChainLog, ids: Seq<Seq<u8>>, appends: Seq<AppendedView>)
    requires
        log.wf(),
        !log.corrupted,
        ids.len() == appends.len(),
        ids.no_duplicates(),
        forall|i: int| 0 <= i < ids.len() ==> !log.contains(#[trigger] ids[i]) && ids[i].len() == 32,
        forall|i: int|
            0 <= i < appends.len() ==> (#[trigger] appends[i]).valid && appends[i].root.len() == 32,
    ensures
        log.publish_all(ids, appends).wf(),
        !log.publish_all(ids, appends).corrupted,
        log.publish_all(ids, appends).leaves == log.leaves + ids,
        log.publish_all(ids, appends).leaf_count() == log.leaf_count() + ids.len(),
        forall|k: int|
            #![trigger ids.take(k)]
            0 <= k < ids.len() ==> {
                let before = log.publish_all(ids.take(k), appends.take(k));
                let note = NoteView {
                    id: ids[k],
                    commitment: Some(before.tip()),
                    signature_ok: true,
                };
                &&& before.leaf_count() == log.leaf_count() + k
                &&& before.admit_remote_result(note, appends[k]) == Ok::<u64, Error>(
                    appends[k].leaf_pos,
                )
                &&& before.admit_remote(note, appends[k]).leaf_count() == before.leaf_count() + 1
            },
    decreases ids.len(),
{
    if ids.len() == 0 {
        assert(log.leaves + ids =~= log.leaves);
    } else {
        let n = ids.len() - 1;
        let front = ids.drop_last();
        let front_appends = appends.drop_last();
        assert forall|i: int| 0 <= i < front.len() implies !log.contains(#[trigger] front[i])
            && front[i].len() == 32 by {
            assert(front[i] == ids[i]);
        }
        assert forall|i: int| 0 <= i < front_appends.len() implies (#[trigger] front_appends[i]).valid
            && front_appends[i].root.len() == 32 by {
            assert(front_appends[i] == appends[i]);
        }
        lemma_publish_all(log, front, front_appends);
        let before = log.publish_all(front, front_appends);
        let note = NoteView { id: ids.last(), commitment: Some(before.tip()), signature_ok: true };
        assert(!before.contains(note.id)) by {
            if before.leaves.contains(note.id) {
                let j = choose|j: int| 0 <= j < before.leaves.len() && before.leaves[j] == note.id;
                if j < log.leaves.len() {
                    assert(log.leaves.contains(log.leaves[j]));
                } else {
                    assert(front[j - log.leaves.len()] == ids[j - log.leaves.len()]);
                }
            }
        }
        lemma_own_commitment_admitted(before, note, appends.last());
        assert(log.publish_all(ids, appends).leaves =~= log.leaves + ids);
        assert forall|k: int| #![trigger ids.take(k)] 0 <= k < ids.len() implies {
            let b = log.publish_all(ids.take(k), appends.take(k));
            let nt = NoteView { id: ids[k], commitment: Some(b.tip()), signature_ok: true };
            &&& b.leaf_count() == log.leaf_count() + k
            &&& b.admit_remote_result(nt, appends[k]) == Ok::<u64, Error>(appends[k].leaf_pos)
            &&& b.admit_remote(nt, appends[k]).leaf_count() == b.leaf_count() + 1
        } by {
            if k < n {
                assert(front.take(k) =~= ids.take(k));
                assert(front_appends.take(k) =~= appends.take(k));
                assert(front[k] == ids[k]);
                assert(front_appends[k] == appends[k]);
            } else {
                assert(ids.take(k) =~= front);
                assert(appends.take(k) =~= front_appends);
            }
        }
    }
}

/// A note that names another state than the log's is refused as a mismatch,
/// whatever its signature, and the log stays as it was.
pub proof fn lemma_mismatch_rejected(log: ChainLog, note: NoteView, appended: AppendedView)
    requires
        !log.corrupted,
        note.commitment is Some,
        note.commitment != Some(log.tip()),
        !log.contains(note.id),
    ensures
        log.check_remote(note) == Err::<(), Error>(Error::CommitmentMismatch),
        log.admit_remote_result(note, appended) == Err::<u64, Error>(Error::CommitmentMismatch),
        log.admit_remote(note, appended) == log,
{
}

/// A note whose identifier is in the log is refused as a duplicate on either
/// path, and the log stays as it was. So is a leave for it, however old.
pub proof fn lemma_duplicate_rejected(
    log: ChainLog,
    note: NoteView,
    admission: AdmissionView,
    appended: AppendedView,
)
    requires
        !log.corrupted,
        log.contains(note.id),
        note.commitment is Some,
        admission.id == note.id,
    ensures
        log.check_local(note.id) == Err::<(), Error>(Error::DuplicateId),
        log.check_remote(note) == Err::<(), Error>(Error::DuplicateId),
        log.admit_local_result(note.id, appended) == Err::<u64, Error>(Error::DuplicateId),
        log.admit_remote_result(note, appended) == Err::<u64, Error>(Error::DuplicateId),
        log.admit_local(note.id, appended) == log,
        log.admit_remote(note, appended) == log,
        appended.valid ==> log.record_result(admission, appended) == Err::<u64, Error>(
            Error::DuplicateId,
        ) && log.record(admission, appended) == log,
{
}

/// A leave that was given before another admission was recorded is refused as
/// a mismatch afterwards: two decisions on one state lead to one leaf.
pub proof fn lemma_stale_admission_refused(
    log: ChainLog,
    first: Seq<u8>,
    second: Seq<u8>,
    appended: AppendedView,
    later: AppendedView,
)
    requires
        log.wf(),
        log.check_local(first) is Ok,
        log.check_local(second) is Ok,
        first != second,
        first.len() == 32,
        appended.valid,
        appended.root.len() == 32,
        later.valid,
    ensures
        log.record_result(log.admission(first), appended) == Ok::<u64, Error>(appended.leaf_pos),
        log.record(log.admission(first), appended).record_result(log.admission(second), later)
            == Err::<u64, Error>(Error::CommitmentMismatch),
        log.record(log.admission(first), appended).record(log.admission(second), later)
            == log.record(log.admission(first), appended),
{
    let note = NoteView { id: first, commitment: Some(log.tip()), signature_ok: true };
    lemma_own_commitment_admitted(log, note, appended);
    let next = log.record(log.admission(first), appended);
    assert(next == log.admit_remote(note, appended));
    assert(!next.contains(second)) by {
        if next.leaves.contains(second) {
            let j = choose|j: int| 0 <= j < next.leaves.len() && next.leaves[j] == second;
            if j < log.leaves.len() {
                assert(log.leaves.contains(log.leaves[j]));
            }
        }
    }
}

/// The position and the root recorded at a note's admission are the ones
/// found for it afterwards.
pub proof fn lemma_admission_recorded(
    log: ChainLog,
    admission: AdmissionView,
    appended: AppendedView,
)
    requires
        log.wf(),
        log.record_result(admission, appended) is Ok,
    ensures
        log.record(admission, appended).contains(admission.id),
        log.record(admission, appended).position_of(admission.id) == Some(appended.leaf_pos),
        log.record(admission, appended).root_of(admission.id) == Some(appended.root),
{
    let id = admission.id;
    let next = log.record(admission, appended);
    let n = log.leaves.len() as int;
    assert(next.leaves[n] == id);
    let j = next.leaves.index_of(id);
    assert(0 <= j < next.leaves.len() && next.leaves[j] == id);
    if j < n {
        assert(log.leaves.contains(log.leaves[j]));
    }
}

/// Later admissions leave the position and the root of an admitted note as
/// they were.
pub proof fn lemma_admission_stable(
    log: ChainLog,
    id: Seq<u8>,
    admission: AdmissionView,
    appended: AppendedView,
)
    requires
        log.wf(),
        log.contains(id),
    ensures
        log.record(admission, appended).contains(id),
        log.record(admission, appended).position_of(id) == log.position_of(id),
        log.record(admission, appended).root_of(id) == log.root_of(id),
{
    let next = log.record(admission, appended);
    if next.leaves != log.leaves {
        let i = log.leaves.index_of(id);
        assert(0 <= i < log.leaves.len() && log.leaves[i] == id);
        assert(next.leaves[i] == id);
        let j = next.leaves.index_of(id);
        assert(0 <= j < next.leaves.len() && next.leaves[j] == id);
        if j == log.leaves.len() {
            assert(admission.id == id);
        } else {
            assert(log.leaves[j] == id);
        }
    } else {
        assert(next.leaves == log.leaves);
        assert(next.positions =~= log.positions);
        assert(next.roots =~= log.roots);
    }
}

/// Of two notes written one after the other, the second is admitted after the
/// first and refused as a mismatch before it.
pub proof fn lemma_order_matters(
    log: ChainLog,
    first: Seq<u8>,
    second: NoteView,
    appended: AppendedView,
)
    requires
        log.wf(),
        !log.corrupted,
        first.len() == 32,
        !log.contains(first),
        first != second.id,
        !log.contains(second.id),
        appended.valid,
        appended.root.len() == 32,
        second.signature_ok,
        second.commitment == Some(
            log.admit_remote(
                NoteView { id: first, commitment: Some(log.tip()), signature_ok: true },
                appended,
            ).tip(),
        ),
    ensures
        log.check_remote(NoteView { id: first, commitment: Some(log.tip()), signature_ok: true })
            is Ok,
        log.admit_remote(
            NoteView { id: first, commitment: Some(log.tip()), signature_ok: true },
            appended,
        ).check_remote(second) is Ok,
        log.check_remote(second) == Err::<(), Error>(Error::CommitmentMismatch),
{
    let note = NoteView { id: first, commitment: Some(log.tip()), signature_ok: true };
    lemma_own_commitment_admitted(log, note, appended);
    let next = log.admit_remote(note, appended);
    assert(!next.contains(second.id)) by {
        if next.leaves.contains(second.id) {
            let j = choose|j: int| 0 <= j < next.leaves.len() && next.leaves[j] == second.id;
            if j < log.leaves.len() {
                assert(log.leaves.contains(log.leaves[j]));
            }
        }
    }
}

/// Of two different notes that both name the log's state, the one handled
/// first is admitted and the other is then refused as a mismatch: the log
/// takes one successor for each state and never branches.
pub proof fn lemma_first_valid_wins(
    log: ChainLog,
    first: NoteView,
    second: NoteView,
    appended: AppendedView,
)
    requires
        log.wf(),
        log.check_remote(first) is Ok,
        log.check_remote(second) is Ok,
        first.id != second.id,
        first.id.len() == 32,
        appended.valid,
        appended.root.len() == 32,
    ensures
        log.admit_remote_result(first, appended) == Ok::<u64, Error>(appended.leaf_pos),
        log.admit_remote(first, appended).check_remote(second) == Err::<(), Error>(
            Error::CommitmentMismatch,
        ),
{
    lemma_own_commitment_admitted(log, first, appended);
    let next = log.admit_remote(first, appended);
    assert(!next.contains(second.id)) by {
        if next.leaves.contains(second.id) {
            let j = choose|j: int| 0 <= j < next.leaves.len() && next.leaves[j] == second.id;
            if j < log.leaves.len() {
                assert(log.leaves.contains(log.leaves[j]));
            }
        }
    }
}

/// When one note is delivered many times over, the first delivery that finds
/// it valid admits it, every later one is refused as a duplicate, and the log
/// has grown by one leaf.
pub proof fn lemma_one_copy_wins(log: ChainLog, note: NoteView, appends: Seq<AppendedView>)
    requires
        log.wf(),
        log.check_remote(note) is Ok,
        note.id.len() == 32,
        appends.len() >= 1,
        appends[0].valid,
        appends[0].root.len() == 32,
    ensures
        log.admit_remote_result(note, appends[0]) == Ok::<u64, Error>(appends[0].leaf_pos),
        forall|k: int|
            #![trigger appends.take(k)]
            1 <= k < appends.len() ==> log.deliver_copies(note, appends.take(k)).admit_remote_result(
                note,
                appends[k],
            ) == Err::<u64, Error>(Error::DuplicateId),
        log.deliver_copies(note, appends) == log.admit_remote(note, appends[0]),
        log.deliver_copies(note, appends).leaf_count() == log.leaf_count() + 1,
    decreases appends.len(),
{
    let won = log.admit_remote(note, appends[0]);
    lemma_own_commitment_admitted(log, note, appends[0]);
    assert(won.leaves[log.leaves.len() as int] == note.id);
    assert(won.contains(note.id));
    if appends.len() == 1 {
        assert(appends.drop_last() =~= Seq::<AppendedView>::empty());
        assert(log.deliver_copies(note, appends.drop_last()) == log);
    } else {
        let front = appends.drop_last();
        assert(front[0] == appends[0]);
        lemma_one_copy_wins(log, note, front);
        lemma_duplicate_rejected(won, note, won.admission(note.id), appends.last());
        assert forall|k: int| #![trigger appends.take(k)] 1 <= k < appends.len() implies log.deliver_copies(
            note,
            appends.take(k),
        ).admit_remote_result(note, appends[k]) == Err::<u64, Error>(Error::DuplicateId) by {
            if k < appends.len() - 1 {
                assert(front.take(k) =~= appends.take(k));
                assert(front[k] == appends[k]);
            } else {
                assert(appends.take(k) =~= front);
            }
        }
    }
}

} // verus!
