//! Tag-based puncturable key encapsulation on top of an identity-based
//! broadcast scheme.
//!
//! A tag is hashed to `K` distinct slots out of `M`. A session key is
//! encapsulated to the identities of those slots, any one of the slot keys
//! opens it, and puncturing a tag deletes the slot keys that the tag selects.
//!
//! This crate holds the tag sampler, the key store and the rules that tie
//! them together. The broadcast scheme itself is the caller's: the functions
//! here hand it identity labels and slot keys, and take its keys back.
use vstd::prelude::*;

pub mod label;
pub mod sampler;
pub mod scheme;
pub mod store;
pub mod xof;

verus! {

/// Number of slots that one tag selects.
pub const K: usize = 3;

/// Number of slots in the identity universe.
pub const M: usize = 128;

/// A tag can only select distinct slots if there are enough of them.
pub proof fn lemma_slots_suffice()
    ensures
        K <= M,
        0 < M,
{
}

} // verus!
