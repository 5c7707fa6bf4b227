//! The commitment tag: what a note says of the log it was written against.

use vstd::prelude::*;
use vstd::string::StringExecFns;
use crate::codec::{hash_decode, hash_from_hex, hash_to_hex, hex_encode, lemma_hash_round_trip,
    lemma_pos_round_trip, pos_decode, pos_encode, pos_from_text, pos_to_text};
use crate::error::Error;
use crate::event::Event;
use crate::hash::hash_eq;

verus! {

/// A note's claim about the log it extends: the identifier of the note before
/// it, the accumulator's root digest, and the position of the note before it.
/// On an empty log both digests are zero and the position is -1.
#[derive(Clone, Copy, Debug)]
pub struct MmrTag {
    /// Identifier of the note admitted last, or zero.
    pub prev_event_id: [u8; 32],
    /// Root digest of the accumulator after that admission, or zero.
    pub prev_mmr_root: [u8; 32],
    /// Position of that note in the log, counted from zero, or -1.
    pub prev_event_pos: i64,
}

/// The mathematical content of a tag.
pub ghost struct TagView {
    /// Identifier of the note admitted last, or zero.
    pub prev_event_id: Seq<u8>,
    /// Root digest of the accumulator after that admission, or zero.
    pub prev_mmr_root: Seq<u8>,
    /// Position of that note in the log, counted from zero, or -1.
    pub prev_event_pos: int,
}

impl TagView {
    /// A tag as it can exist in memory: two digests of thirty-two bytes and a
    /// position that fits sixty-four bits.
    pub open spec fn wf(self) -> bool {
        &&& self.prev_event_id.len() == 32
        &&& self.prev_mmr_root.len() == 32
        &&& i64::MIN <= self.prev_event_pos <= i64::MAX
    }
}

impl View for MmrTag {
    type V = TagView;

    open spec fn view(&self) -> TagView {
        TagView {
            prev_event_id: self.prev_event_id@,
            prev_mmr_root: self.prev_mmr_root@,
            prev_event_pos: self.prev_event_pos as int,
        }
    }
}

impl PartialEq for MmrTag {
    fn eq(&self, other: &MmrTag) -> (same: bool) {
        hash_eq(&self.prev_event_id, &other.prev_event_id) && hash_eq(
            &self.prev_mmr_root,
            &other.prev_mmr_root,
        ) && self.prev_event_pos == other.prev_event_pos
    }
}

impl Eq for MmrTag {}

impl vstd::std_specs::cmp::PartialEqSpecImpl for MmrTag {
    open spec fn obeys_eq_spec() -> bool {
        true
    }

    open spec fn eq_spec(&self, other: &MmrTag) -> bool {
        self@ == other@
    }
}

/// The first field of a commitment tag on the wire.
pub open spec fn tag_name() -> Seq<char> {
    seq!['m', 'm', 'r']
}

/// The fields of a tag on the wire: its name, the two digests in hexadecimal
/// and the position in decimal.
pub open spec fn encode_tag(tag: TagView) -> Seq<Seq<char>> {
    seq![
        tag_name(),
        hex_encode(tag.prev_event_id),
        hex_encode(tag.prev_mmr_root),
        pos_encode(tag.prev_event_pos),
    ]
}

/// The tag that four fields on the wire stand for, if they are a commitment
/// tag.
pub open spec fn decode_tag(fields: Seq<Seq<char>>) -> Option<TagView> {
    if fields.len() == 4 && fields[0] == tag_name() && hash_decode(fields[1]) is Some
        && hash_decode(fields[2]) is Some && pos_decode(fields[3]) is Some {
        Some(
            TagView {
                prev_event_id: hash_decode(fields[1]).unwrap(),
                prev_mmr_root: hash_decode(fields[2]).unwrap(),
                prev_event_pos: pos_decode(fields[3]).unwrap(),
            },
        )
    } else {
        None
    }
}

/// The commitment that a note's tags carry: the first of them that is a
/// commitment tag.
pub open spec fn first_commitment(tags: Seq<Seq<Seq<char>>>) -> Option<TagView>
    decreases tags.len(),
{
    if tags.len() == 0 {
        None
    } else if decode_tag(tags[0]) is Some {
        decode_tag(tags[0])
    } else {
        first_commitment(tags.skip(1))
    }
}

/// The fields written for a tag are read back as that tag.
pub proof fn lemma_tag_round_trip(tag: TagView)
    requires
        tag.wf(),
    ensures
        decode_tag(encode_tag(tag)) == Some(tag),
{
    lemma_hash_round_trip(tag.prev_event_id);
    lemma_hash_round_trip(tag.prev_mmr_root);
    lemma_pos_round_trip(tag.prev_event_pos);
}

/// A note whose first tag was written for `tag` carries `tag`.
pub proof fn lemma_first_commitment_of_encoded(tag: TagView, rest: Seq<Seq<Seq<char>>>)
    requires
        tag.wf(),
    ensures
        first_commitment(seq![encode_tag(tag)] + rest) == Some(tag),
{
    lemma_tag_round_trip(tag);
    assert((seq![encode_tag(tag)] + rest)[0] == encode_tag(tag));
}

fn is_tag_name(name: &str) -> (yes: bool)
    ensures
        yes == (name@ == tag_name()),
{
    let yes = name.unicode_len() == 3 && name.get_char(0) == 'm' && name.get_char(1) == 'm'
        && name.get_char(2) == 'r';
    assert(yes ==> name@ =~= tag_name());
    yes
}

impl MmrTag {
    /// Ok if the two tags agree in every field, `CommitmentMismatch` if not.
    pub fn equals(&self, rhs: &MmrTag) -> (r: Result<(), Error>)
        ensures
            r == if self@ == rhs@ {
                Ok::<(), Error>(())
            } else {
                Err::<(), Error>(Error::CommitmentMismatch)
            },
    {
        if *self == *rhs {
            Ok(())
        } else {
            Err(Error::CommitmentMismatch)
        }
    }

    /// The tag's fields as they travel on the wire.
    pub fn as_vec(&self) -> (fields: Vec<String>)
        ensures
            fields.deep_view() == encode_tag(self@),
    {
        proof {
            reveal_strlit("mmr");
        }
        let mut fields: Vec<String> = Vec::new();
        fields.push(String::from_str("mmr"));
        fields.push(hash_to_hex(&self.prev_event_id));
        fields.push(hash_to_hex(&self.prev_mmr_root));
        fields.push(pos_to_text(self.prev_event_pos));
        assert(fields@[0]@ =~= tag_name());
        assert(fields.deep_view() =~= encode_tag(self@));
        fields
    }

    /// Reads a tag from the fields of one wire tag. `None` unless the fields
    /// are a well-formed commitment tag.
    pub fn parse(fields: &Vec<String>) -> (tag: Option<MmrTag>)
        ensures
            match tag {
                Some(t) => decode_tag(fields.deep_view()) == Some(t@),
                None => decode_tag(fields.deep_view()) is None,
            },
    {
        let ghost wire = fields.deep_view();
        if fields.len() != 4 {
            return None;
        }
        assert(wire[0] == fields@[0]@ && wire[1] == fields@[1]@ && wire[2] == fields@[2]@
            && wire[3] == fields@[3]@);
        if !is_tag_name(fields[0].as_str()) {
            return None;
        }
        let prev_event_id = match hash_from_hex(fields[1].as_str()) {
            Some(h) => h,
            None => {
                return None;
            },
        };
        let prev_mmr_root = match hash_from_hex(fields[2].as_str()) {
            Some(h) => h,
            None => {
                return None;
            },
        };
        let prev_event_pos = match pos_from_text(fields[3].as_str()) {
            Some(p) => p,
            None => {
                return None;
            },
        };
        Some(MmrTag { prev_event_id, prev_mmr_root, prev_event_pos })
    }

    /// The commitment that a note carries, or `MissingCommitment` where none of
    /// its tags is a commitment tag.
    pub fn try_from(event: &Event) -> (r: Result<MmrTag, Error>)
        ensures
            match r {
                Ok(tag) => event@.commitment() == Some(tag@),
                Err(e) => e == Error::MissingCommitment && event@.commitment() is None,
            },
    {
        let ghost tags = event.tags.deep_view();
        let mut i: usize = 0;
        assert(tags.skip(0) =~= tags);
        while i < event.tags.len()
            invariant
                i <= event.tags.len(),
                tags == event.tags.deep_view(),
                first_commitment(tags) == first_commitment(tags.skip(i as int)),
            decreases event.tags.len() - i,
        {
            let ghost rest = tags.skip(i as int);
            assert(rest[0] == event.tags@[i as int].deep_view());
            assert(rest.skip(1) =~= tags.skip(i + 1));
            match MmrTag::parse(&event.tags[i]) {
                Some(tag) => {
                    return Ok(tag);
                },
                None => {},
            }
            i += 1;
        }
        assert(tags.skip(i as int).len() == 0);
        Err(Error::MissingCommitment)
    }
}

} // verus!
