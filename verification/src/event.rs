//! Notes as the verifier sees them.

use nostr::secp256k1::schnorr::Signature;
use nostr::secp256k1::XOnlyPublicKey;
use nostr::{EventBuilder, Keys, Kind, Tag, Timestamp};
use vstd::prelude::*;
use crate::chain::NoteView;
use crate::error::Error;
use crate::hash::EventId;
use crate::tag::{first_commitment, TagView};

verus! {

/// The kind of a text note, the only kind that this library writes and
/// subscribes to.
pub const TEXT_NOTE: u64 = 1;

/// A signed note, held as plain values: what travelled on the wire, field by
/// field.
#[derive(Clone, Debug, PartialEq, Eq)]
pub struct Event {
    /// Identifier of the note.
    pub id: EventId,
    /// Public key of the author, in its thirty-two byte form.
    pub pubkey: [u8; 32],
    /// Time of writing, in seconds since the epoch.
    pub created_at: i64,
    /// Kind of note; [`TEXT_NOTE`] for the notes of a log.
    pub kind: u64,
    /// The note's tags, each a list of text fields.
    pub tags: Vec<Vec<String>>,
    /// The text of the note.
    pub content: String,
    /// Signature of the author over the note.
    pub sig: [u8; 64],
}

/// Whether nostr accepts the signature of the note made of these fields: the
/// key, the signature and every tag can be made into nostr's types, and
/// `nostr::Event::verify` finds `sig` to be the Schnorr signature by `pubkey`
/// over the digest that it computes from the author, the time, the kind, the
/// tags and the content. The identifier travels along; nostr's check does not
/// read it.
pub uninterp spec fn schnorr_verifies(
    id: Seq<u8>,
    pubkey: Seq<u8>,
    created_at: i64,
    kind: u64,
    tags: Seq<Seq<Seq<char>>>,
    content: Seq<char>,
    sig: Seq<u8>,
) -> bool;

/// Calls `nostr::Event::verify` on the note made of these fields. Nothing is
/// proved of the answer; the contract only gives it its name, which is to say
/// that the same fields always get the same answer. A key, a signature or a
/// tag that nostr does not take makes the answer `false`.
#[verifier::external_body]
fn verify_signature(
    id: &[u8; 32],
    pubkey: &[u8; 32],
    created_at: i64,
    kind: u64,
    tags: &Vec<Vec<String>>,
    content: &str,
    sig: &[u8; 64],
) -> (ok: bool)
    ensures
        ok == schnorr_verifies(id@, pubkey@, created_at, kind, tags.deep_view(), content@, sig@),
{
    let Ok(id) = nostr::EventId::from_slice(id) else { return false };
    let Ok(pubkey) = XOnlyPublicKey::from_slice(pubkey) else { return false };
    let Ok(sig) = Signature::from_slice(sig) else { return false };
    let parsed: Result<Vec<_>, _> = tags.iter().map(|t| Tag::parse(t.clone())).collect();
    let Ok(tags) = parsed else { return false };
    let (created_at, kind) = (Timestamp::from(created_at as u64), Kind::from(kind));
    let content = content.to_string();
    nostr::Event { id, pubkey, created_at, kind, tags, content, sig }.verify().is_ok()
}

/// A pair of keys of nostr, with which notes are signed.
#[verifier::external_type_specification]
#[verifier::external_body]
pub struct ExKeys(Keys);

/// Calls `nostr::EventBuilder::new_text_note` with the text and one tag, and
/// `to_event` with the keys, which stamps the note with the time and signs it.
/// The time and the signature differ from call to call, so the contract says
/// only what the builder copies into the note: the text, and the kind of a
/// text note. `None` where nostr refuses the tag or cannot sign.
#[verifier::external_body]
pub(crate) fn sign_text_note(content: &str, tag: &Vec<String>, keys: &Keys) -> (signed: Option<
    Event,
>)
    ensures
        signed matches Some(event) ==> event.content@ == content@ && event.kind == TEXT_NOTE,
{
    let tag = Tag::parse(tag.clone()).ok()?;
    let note = EventBuilder::new_text_note(content, &[tag]).to_event(keys).ok()?;
    Some(Event {
        id: EventId(nostr::hashes::Hash::to_byte_array(note.id.inner())),
        pubkey: note.pubkey.serialize(),
        created_at: note.created_at.as_i64(),
        kind: note.kind.as_u64(),
        tags: note.tags.iter().map(|t| t.as_vec()).collect(),
        content: note.content,
        sig: *note.sig.as_ref(),
    })
}

/// The mathematical content of a note.
pub ghost struct EventView {
    /// Identifier of the note.
    pub id: Seq<u8>,
    /// Public key of the author.
    pub pubkey: Seq<u8>,
    /// Time of writing, in seconds since the epoch.
    pub created_at: i64,
    /// Kind of note.
    pub kind: u64,
    /// The note's tags, each a list of text fields.
    pub tags: Seq<Seq<Seq<char>>>,
    /// The text of the note.
    pub content: Seq<char>,
    /// Signature of the author over the note.
    pub sig: Seq<u8>,
}

impl EventView {
    /// The commitment that the note carries among its tags, if it carries one.
    pub open spec fn commitment(self) -> Option<TagView> {
        first_commitment(self.tags)
    }

    /// Whether the author's signature over the note verifies.
    pub open spec fn signature_verifies(self) -> bool {
        schnorr_verifies(
            self.id,
            self.pubkey,
            self.created_at,
            self.kind,
            self.tags,
            self.content,
            self.sig,
        )
    }

    /// What the verifier's decisions read of the note.
    pub open spec fn note(self) -> NoteView {
        NoteView {
            id: self.id,
            commitment: self.commitment(),
            signature_ok: self.signature_verifies(),
        }
    }
}

impl View for Event {
    type V = EventView;

    open spec fn view(&self) -> EventView {
        EventView {
            id: self.id@,
            pubkey: self.pubkey@,
            created_at: self.created_at,
            kind: self.kind,
            tags: self.tags.deep_view(),
            content: self.content@,
            sig: self.sig@,
        }
    }
}

impl Event {
    /// Checks the author's signature over the note.
    pub fn verify(&self) -> (r: Result<(), Error>)
        ensures
            r == if self@.signature_verifies() {
                Ok::<(), Error>(())
            } else {
                Err::<(), Error>(Error::InvalidSignature)
            },
    {
        if verify_signature(
            &self.id.0,
            &self.pubkey,
            self.created_at,
            self.kind,
            &self.tags,
            self.content.as_str(),
            &self.sig,
        ) {
            Ok(())
        } else {
            Err(Error::InvalidSignature)
        }
    }
}

} // verus!
