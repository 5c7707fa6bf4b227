use vstd::prelude::*;

verus! {

/// Number of bytes in a digest.
pub const HASH_LEN: usize = 32;

/// The digest of thirty-two zero bytes, which stands for "nothing before".
pub open spec fn zero_digest() -> Seq<u8> {
    Seq::new(32, |i: int| 0u8)
}

/// Returns the all-zero digest.
pub fn zero_hash() -> (h: [u8; 32])
    ensures
        h@ == zero_digest(),
{
    let h = [0u8; 32];
    assert(h@ =~= zero_digest());
    h
}

/// Compares two digests byte by byte.
pub fn hash_eq(a: &[u8; 32], b: &[u8; 32]) -> (same: bool)
    ensures
        same == (*a == *b),
        same == (a@ == b@),
{
    let mut i: usize = 0;
    while i < 32
        invariant
            i <= 32,
            forall|j: int| 0 <= j < i ==> a[j] == b[j],
        decreases 32 - i,
    {
        if a[i] != b[i] {
            return false;
        }
        i += 1;
    }
    assert(*a =~= *b);
    assert(a@ =~= b@);
    true
}

/// Identifier of a note: the SHA-256 digest of its signed payload.
#[derive(Clone, Copy, Debug, Hash)]
pub struct EventId(pub [u8; 32]);

impl View for EventId {
    type V = Seq<u8>;

    open spec fn view(&self) -> Seq<u8> {
        self.0@
    }
}

impl PartialEq for EventId {
    fn eq(&self, other: &EventId) -> (same: bool) {
        hash_eq(&self.0, &other.0)
    }
}

impl Eq for EventId {}

impl vstd::std_specs::cmp::PartialEqSpecImpl for EventId {
    open spec fn obeys_eq_spec() -> bool {
        true
    }

    open spec fn eq_spec(&self, other: &EventId) -> bool {
        self@ == other@
    }
}

} // verus!
