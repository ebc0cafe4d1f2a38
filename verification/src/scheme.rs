//! The rules of the scheme: whom a tag addresses, which key opens a
//! ciphertext, and what puncturing a tag does to the store.
//!
//! The broadcast scheme is not called from here. Encapsulation asks
//! `recipients` for the identity labels of a tag and encrypts to them.
//! Decapsulation asks `opening` for the key to use and decrypts with it, or
//! gives up without decrypting if `opening` has none.
use crate::label::decimal;
use crate::label::label;
use crate::label::labels;
use crate::label::labels_of;
use crate::sampler::lemma_sample_is_selection;
use crate::sampler::sample_bytes;
use crate::sampler::sample_spec;
use crate::store::filled;
use crate::store::first_present;
use crate::store::is_present;
use crate::store::lemma_first_present;
use crate::store::punctured;
use crate::store::selects;
use crate::store::Sk;
use crate::M;
use vstd::prelude::*;
use vstd::string::StringSliceAdditionalSpecFns;

verus! {

/// The slot whose key opens a ciphertext for `tag`: the first slot of the
/// tag, in coordinate order, that still holds a key.
pub open spec fn opening_slot<S>(slots: Seq<Option<S>>, tag: Seq<u8>) -> Option<usize> {
    match sample_spec(tag) {
        Some(ids) => first_present(slots, ids),
        None => None,
    }
}

/// The store after `tag` has been punctured.
pub open spec fn punctured_by<S>(slots: Seq<Option<S>>, tag: Seq<u8>) -> Seq<Option<S>> {
    match sample_spec(tag) {
        Some(ids) => punctured(slots, ids),
        None => slots,
    }
}

/// Whether no slot is listed in both `a` and `b`.
pub open spec fn disjoint(a: Seq<usize>, b: Seq<usize>) -> bool {
    forall|i: int, j: int| 0 <= i < a.len() && 0 <= j < b.len() ==> a[i] != b[j]
}

/// What decapsulation hands to the broadcast scheme.
pub struct Opening<'a, S> {
    /// The slot key to decrypt with.
    pub key: &'a S,
    /// The identity label of that key's slot.
    pub id: String,
    /// The identity labels that the ciphertext is addressed to, in coordinate
    /// order.
    pub ids: Vec<String>,
}

/// The identity labels that a ciphertext for `tag` is addressed to, in
/// coordinate order. Any bytes are a tag. `None` if the tag selects no slots.
pub fn recipients_bytes(tag: &[u8]) -> (ids: Option<Vec<String>>)
    ensures
        match sample_spec(tag@) {
            Some(slots) => ids matches Some(ids) && ids.deep_view() == labels_of(slots),
            None => ids is None,
        },
{
    match sample_bytes(tag) {
        Some(slots) => Some(labels(slots.as_slice())),
        None => None,
    }
}

/// The identity labels that a ciphertext for `tag` is addressed to: those of
/// its UTF-8 bytes.
pub fn recipients(tag: &str) -> (ids: Option<Vec<String>>)
    ensures
        match sample_spec(tag.spec_bytes()) {
            Some(slots) => ids matches Some(ids) && ids.deep_view() == labels_of(slots),
            None => ids is None,
        },
{
    recipients_bytes(tag.as_bytes())
}

/// The key that opens a ciphertext for `tag`, with the labels that the
/// broadcast scheme needs to decrypt: the key of the first slot of the tag,
/// in coordinate order, that has not been deleted. Any bytes are a tag.
/// `None` if the tag selects no slots or all its slots have been deleted;
/// then nothing can be decrypted.
pub fn opening_bytes<'a, S>(sk: &'a Sk<S>, tag: &[u8]) -> (found: Option<Opening<'a, S>>)
    ensures
        match opening_slot(sk@, tag@) {
            Some(slot) => {
                &&& found matches Some(found)
                &&& sk@[slot as int] == Some(*found.key)
                &&& found.id@ == decimal(slot as nat)
                &&& sample_spec(tag@) matches Some(slots)
                &&& found.ids.deep_view() == labels_of(slots)
            },
            None => found is None,
        },
{
    let slots = match sample_bytes(tag) {
        Some(slots) => slots,
        None => {
            return None;
        },
    };
    match sk.first_present(slots.as_slice()) {
        Some((slot, key)) => Some(Opening { key, id: label(slot), ids: labels(slots.as_slice()) }),
        None => None,
    }
}

/// The key that opens a ciphertext for `tag`: that for its UTF-8 bytes.
pub fn opening<'a, S>(sk: &'a Sk<S>, tag: &str) -> (found: Option<Opening<'a, S>>)
    ensures
        match opening_slot(sk@, tag.spec_bytes()) {
            Some(slot) => {
                &&& found matches Some(found)
                &&& sk@[slot as int] == Some(*found.key)
                &&& found.id@ == decimal(slot as nat)
                &&& sample_spec(tag.spec_bytes()) matches Some(slots)
                &&& found.ids.deep_view() == labels_of(slots)
            },
            None => found is None,
        },
{
    opening_bytes(sk, tag.as_bytes())
}

/// Deletes the keys of the slots that `tag` selects. Any bytes are a tag.
/// What was encapsulated for `tag` can no longer be opened; a tag that
/// selects no slots leaves the store as it is.
pub fn puncture_bytes<S>(sk: &mut Sk<S>, tag: &[u8])
    ensures
        final(sk)@ == punctured_by(old(sk)@, tag@),
        opening_slot(final(sk)@, tag@) is None,
        old(sk).wf() ==> final(sk).wf(),
{
    proof {
        lemma_puncture_closes(sk@, tag@);
    }
    match sample_bytes(tag) {
        Some(slots) => {
            sk.delete(slots.as_slice());
        },
        None => {},
    }
}

/// Deletes the keys of the slots that `tag` selects: those of its UTF-8
/// bytes.
pub fn puncture<S>(sk: &mut Sk<S>, tag: &str)
    ensures
        final(sk)@ == punctured_by(old(sk)@, tag.spec_bytes()),
        opening_slot(final(sk)@, tag.spec_bytes()) is None,
        old(sk).wf() ==> final(sk).wf(),
{
    puncture_bytes(sk, tag.as_bytes())
}

/// Deleting slots empties the listed slots and changes no other: a slot that
/// holds a key afterwards held the same key before, and no slot is ever
/// refilled.
pub proof fn lemma_punctured<S>(slots: Seq<Option<S>>, ids: Seq<usize>, id: int)
    requires
        0 <= id < slots.len(),
    ensures
        punctured(slots, ids).len() == slots.len(),
        selects(ids, id) ==> punctured(slots, ids)[id] is None,
        !selects(ids, id) ==> punctured(slots, ids)[id] == slots[id],
        is_present(punctured(slots, ids), id) ==> is_present(slots, id),
{
}

/// On a fresh store every tag that selects slots can be opened: the slot
/// that opens it is the first slot of the tag, and that slot holds the key
/// the store was made with.
pub proof fn lemma_fresh_store_opens<S>(keys: Seq<S>, tag: Seq<u8>)
    requires
        keys.len() == M,
    ensures
        sample_spec(tag) matches Some(ids) ==> {
            &&& opening_slot(filled(keys), tag) == Some(ids[0])
            &&& filled(keys)[ids[0] as int] == Some(keys[ids[0] as int])
        },
{
    if let Some(ids) = sample_spec(tag) {
        lemma_sample_is_selection(tag);
        assert(is_present(filled(keys), ids[0] as int));
    }
}

/// After a tag has been punctured, no key opens a ciphertext for it.
pub proof fn lemma_puncture_closes<S>(slots: Seq<Option<S>>, tag: Seq<u8>)
    ensures
        opening_slot(punctured_by(slots, tag), tag) is None,
{
    if let Some(ids) = sample_spec(tag) {
        let after = punctured(slots, ids);
        lemma_first_present(after, ids);
        if let Some(id) = first_present(after, ids) {
            let p = choose|p: int|
                {
                    &&& 0 <= p < ids.len()
                    &&& #[trigger] ids[p] == id
                    &&& is_present(after, id as int)
                    &&& forall|q: int| 0 <= q < p ==> !is_present(after, #[trigger] ids[q] as int)
                };
            assert(selects(ids, id as int));
        }
    }
}

/// Whether `tag` and `other` select no slot in common.
pub open spec fn disjoint_tags(tag: Seq<u8>, other: Seq<u8>) -> bool {
    match (sample_spec(tag), sample_spec(other)) {
        (Some(a), Some(b)) => disjoint(a, b),
        _ => true,
    }
}

/// Puncturing one tag does not touch another tag that has no slot in common
/// with it: the same slot opens the other tag as before, with the same key.
pub proof fn lemma_puncture_is_local<S>(slots: Seq<Option<S>>, tag: Seq<u8>, other: Seq<u8>)
    requires
        disjoint_tags(tag, other),
    ensures
        opening_slot(punctured_by(slots, tag), other) == opening_slot(slots, other),
        opening_slot(slots, other) matches Some(slot) ==> punctured_by(slots, tag)[slot as int]
            == slots[slot as int],
{
    if let (Some(a), Some(b)) = (sample_spec(tag), sample_spec(other)) {
        lemma_untouched_slots(slots, a, b);
        lemma_first_present(slots, b);
    }
}

/// Deleting slots makes no difference to a list of slots that names none of
/// them.
proof fn lemma_untouched_slots<S>(slots: Seq<Option<S>>, a: Seq<usize>, b: Seq<usize>)
    requires
        disjoint(a, b),
    ensures
        first_present(punctured(slots, a), b) == first_present(slots, b),
        forall|j: int|
            0 <= j < b.len() && b[j] < slots.len() ==> punctured(slots, a)[#[trigger] b[j] as int]
                == slots[b[j] as int],
    decreases b.len(),
{
    assert forall|j: int| 0 <= j < b.len() implies !selects(a, #[trigger] b[j] as int) by {
        if selects(a, b[j] as int) {
            let i = choose|i: int| 0 <= i < a.len() && #[trigger] a[i] == b[j] as int;
            assert(a[i] != b[j]);
        }
    }
    if b.len() > 0 {
        let rest = b.drop_first();
        assert forall|i: int, j: int| 0 <= i < a.len() && 0 <= j < rest.len() implies a[i]
            != rest[j] by {
            assert(rest[j] == b[j + 1]);
        }
        lemma_untouched_slots(slots, a, rest);
        assert(!selects(a, b[0] as int));
    }
}

/// Puncturing a tag a second time changes nothing.
pub proof fn lemma_puncture_idempotent<S>(slots: Seq<Option<S>>, tag: Seq<u8>)
    ensures
        punctured_by(punctured_by(slots, tag), tag) == punctured_by(slots, tag),
{
    if let Some(ids) = sample_spec(tag) {
        assert(punctured(punctured(slots, ids), ids) =~= punctured(slots, ids));
    }
}

} // verus!
