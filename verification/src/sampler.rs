//! From a tag to the slots it selects.
//!
//! Coordinate `k` of a tag has a stream of its own: the SHAKE256 output for
//! the four little-endian bytes of `k` followed by the tag. The stream is cut
//! into eight byte words, each word names the slot `word % M`, and the
//! coordinate takes the first slot that no earlier coordinate has taken.
//!
//! A coordinate goes on drawing until a word is accepted. The draws are
//! counted in a `u64`, so a stream is given up only when that counter is
//! exhausted; where every slot is taken already, no word can be accepted and
//! nothing is drawn at all.
use crate::xof::le_bytes;
use crate::xof::le_decode_u64;
use crate::xof::le_encode_u32;
use crate::xof::le_value;
use crate::xof::reader_message;
use crate::xof::reader_offset;
use crate::xof::shake256_finish;
use crate::xof::shake256_new;
use crate::xof::shake256_output;
use crate::xof::shake256_process;
use crate::xof::xof_read_word;
use crate::K;
use crate::M;
use vstd::prelude::*;
use vstd::slice::slice_subrange;
use vstd::string::StringSliceAdditionalSpecFns;

verus! {

/// The number of words that one coordinate may draw: as many as a `u64`
/// can count.
pub const MAX_DRAWS: u64 = 18446744073709551615;

/// The message that is hashed for coordinate `k` of `tag`.
pub open spec fn stream_message(k: nat, tag: Seq<u8>) -> Seq<u8> {
    le_bytes(k, 4) + tag
}

/// The slot that a word names.
pub open spec fn word_slot(word: nat) -> usize {
    (word % (M as nat)) as usize
}

/// Word number `j` of the stream for `message`.
pub open spec fn stream_word(message: Seq<u8>, j: nat) -> nat {
    le_value(shake256_output(message, 8 * j, 8))
}

/// The slot that word number `j` of the stream for `message` names.
pub open spec fn candidate(message: Seq<u8>, j: nat) -> usize {
    word_slot(stream_word(message, j))
}

/// The first slot not in `taken` that the stream for `message` names with a
/// word numbered `from` or later. `None` if no word does before the count of
/// draws reaches `MAX_DRAWS`.
pub open spec fn first_fresh(message: Seq<u8>, taken: Seq<usize>, from: nat) -> Option<usize>
    decreases MAX_DRAWS - from,
{
    if from >= MAX_DRAWS {
        None
    } else if !taken.contains(candidate(message, from)) {
        Some(candidate(message, from))
    } else {
        first_fresh(message, taken, from + 1)
    }
}

/// The slots of the first `n` coordinates of `tag`, or `None` if the stream
/// of one of them ran out.
pub open spec fn sample_prefix(tag: Seq<u8>, n: nat) -> Option<Seq<usize>>
    decreases n,
{
    if n == 0 {
        Some(Seq::empty())
    } else {
        match sample_prefix(tag, (n - 1) as nat) {
            None => None,
            Some(ids) => match first_fresh(stream_message((n - 1) as nat, tag), ids, 0) {
                None => None,
                Some(id) => Some(ids.push(id)),
            },
        }
    }
}

/// The slots that `tag` selects, in coordinate order.
pub open spec fn sample_spec(tag: Seq<u8>) -> Option<Seq<usize>> {
    sample_prefix(tag, K as nat)
}

/// Whether every slot of the universe is in `taken`.
pub open spec fn is_full(taken: Seq<usize>) -> bool {
    forall|slot: usize| slot < M ==> #[trigger] taken.contains(slot)
}

/// Whether the stream of coordinate `k` of `tag` is given up: the coordinates
/// before it have their slots, and every word that may be drawn names one of
/// those.
pub open spec fn runs_out(tag: Seq<u8>, k: nat) -> bool {
    sample_prefix(tag, k) matches Some(ids) && forall|j: nat|
        j < MAX_DRAWS ==> ids.contains(#[trigger] candidate(stream_message(k, tag), j))
}

/// `K` slots of the universe, no slot twice.
pub open spec fn is_selection(ids: Seq<usize>) -> bool {
    &&& ids.len() == K
    &&& forall|i: int| 0 <= i < ids.len() ==> ids[i] < M
    &&& forall|i: int, j: int| 0 <= i < j < ids.len() ==> ids[i] != ids[j]
}

/// What `first_fresh` finds is in the universe, is not taken, and is named by
/// the first word from `from` on that names a slot not taken; it finds
/// nothing exactly if every word from `from` to the bound names a taken slot.
pub proof fn lemma_first_fresh(message: Seq<u8>, taken: Seq<usize>, from: nat)
    ensures
        match first_fresh(message, taken, from) {
            Some(id) => {
                &&& id < M
                &&& !taken.contains(id)
                &&& exists|j: nat|
                    {
                        &&& from <= j < MAX_DRAWS
                        &&& id == #[trigger] candidate(message, j)
                        &&& forall|i: nat|
                            from <= i < j ==> taken.contains(#[trigger] candidate(message, i))
                    }
            },
            None => forall|j: nat|
                from <= j < MAX_DRAWS ==> taken.contains(#[trigger] candidate(message, j)),
        },
    decreases MAX_DRAWS - from,
{
    if from >= MAX_DRAWS {
    } else if !taken.contains(candidate(message, from)) {
        assert(candidate(message, from) < M);
    } else {
        lemma_first_fresh(message, taken, from + 1);
        match first_fresh(message, taken, from + 1) {
            Some(id) => {
                let j = choose|j: nat|
                    {
                        &&& from + 1 <= j < MAX_DRAWS
                        &&& id == #[trigger] candidate(message, j)
                        &&& forall|i: nat|
                            from + 1 <= i < j ==> taken.contains(
                                #[trigger] candidate(message, i),
                            )
                    };
                assert forall|i: nat| from <= i < j implies taken.contains(
                    #[trigger] candidate(message, i),
                ) by {
                    if i == from {
                    }
                }
            },
            None => {
                assert forall|j: nat| from <= j < MAX_DRAWS implies taken.contains(
                    #[trigger] candidate(message, j),
                ) by {
                    if j == from {
                    }
                }
            },
        }
    }
}

/// Where every slot is taken, no word of any stream names a free one.
pub proof fn lemma_full_has_no_fresh(message: Seq<u8>, taken: Seq<usize>, from: nat)
    requires
        is_full(taken),
    ensures
        first_fresh(message, taken, from) is None,
    decreases MAX_DRAWS - from,
{
    if from < MAX_DRAWS {
        assert(candidate(message, from) < M);
        assert(taken.contains(candidate(message, from)));
        lemma_full_has_no_fresh(message, taken, from + 1);
    }
}

/// The first `n` coordinates of a tag select `n` slots of the universe, no
/// slot twice.
pub proof fn lemma_sample_prefix(tag: Seq<u8>, n: nat)
    ensures
        sample_prefix(tag, n) matches Some(ids) ==> {
            &&& ids.len() == n
            &&& forall|i: int| 0 <= i < ids.len() ==> ids[i] < M
            &&& forall|i: int, j: int| 0 <= i < j < ids.len() ==> ids[i] != ids[j]
        },
    decreases n,
{
    if n > 0 {
        lemma_sample_prefix(tag, (n - 1) as nat);
        if let Some(ids) = sample_prefix(tag, (n - 1) as nat) {
            lemma_first_fresh(stream_message((n - 1) as nat, tag), ids, 0);
        }
    }
}

/// The first `n` coordinates of a tag have no selection exactly if the stream
/// of one of them is given up.
pub proof fn lemma_sample_prefix_none(tag: Seq<u8>, n: nat)
    ensures
        sample_prefix(tag, n) is None <==> exists|k: nat| k < n && #[trigger] runs_out(tag, k),
    decreases n,
{
    if n > 0 {
        let last = (n - 1) as nat;
        lemma_sample_prefix_none(tag, last);
        match sample_prefix(tag, last) {
            None => {
                let k = choose|k: nat| k < last && #[trigger] runs_out(tag, k);
                assert(k < n && runs_out(tag, k));
            },
            Some(ids) => {
                let message = stream_message(last, tag);
                lemma_first_fresh(message, ids, 0);
                match first_fresh(message, ids, 0) {
                    None => {
                        assert(runs_out(tag, last));
                    },
                    Some(id) => {
                        let j = choose|j: nat|
                            {
                                &&& 0 <= j < MAX_DRAWS
                                &&& id == #[trigger] candidate(message, j)
                                &&& forall|i: nat|
                                    0 <= i < j ==> ids.contains(#[trigger] candidate(message, i))
                            };
                        assert(!ids.contains(candidate(message, j)));
                        assert(!runs_out(tag, last));
                        assert forall|k: nat| k < n implies !#[trigger] runs_out(tag, k) by {
                            if k < last {
                            }
                        }
                    },
                }
            },
        }
    }
}

/// A tag selects no slots exactly if the stream of one of its coordinates is
/// given up: every word that may be drawn from it names a slot of the
/// coordinates before it.
pub proof fn lemma_sample_none(tag: Seq<u8>)
    ensures
        sample_spec(tag) is None <==> exists|k: nat| k < K && #[trigger] runs_out(tag, k),
{
    lemma_sample_prefix_none(tag, K as nat);
}

/// Whatever the tag, the slots it selects are `K` slots of the universe and
/// no two of them are the same.
pub proof fn lemma_sample_is_selection(tag: Seq<u8>)
    ensures
        sample_spec(tag) matches Some(ids) ==> is_selection(ids),
{
    lemma_sample_prefix(tag, K as nat);
}

/// The stream of one coordinate of a tag, read word by word.
pub struct TagStream {
    reader: sha3::Sha3XofReader,
}

impl TagStream {
    /// The message whose SHAKE256 output this stream is.
    pub closed spec fn message(self) -> Seq<u8> {
        reader_message(self.reader)
    }

    /// The number of bytes drawn so far.
    pub closed spec fn position(self) -> nat {
        reader_offset(self.reader)
    }

    /// Opens the stream of coordinate `k` of `tag`.
    pub fn new(k: u32, tag: &[u8]) -> (stream: TagStream)
        ensures
            stream.message() == stream_message(k as nat, tag@),
            stream.position() == 0,
    {
        let mut hasher = shake256_new();
        let prefix = le_encode_u32(k);
        shake256_process(&mut hasher, prefix.as_slice());
        shake256_process(&mut hasher, tag);
        let reader = shake256_finish(hasher);
        assert(Seq::<u8>::empty() + prefix@ + tag@ =~= stream_message(k as nat, tag@));
        TagStream { reader }
    }

    /// Draws the next eight bytes of the stream as a little-endian number.
    pub fn next_u64(&mut self) -> (word: u64)
        ensures
            word as nat == le_value(
                shake256_output(old(self).message(), old(self).position(), 8),
            ),
            final(self).message() == old(self).message(),
            final(self).position() == old(self).position() + 8,
    {
        let bytes = xof_read_word(&mut self.reader);
        le_decode_u64(&bytes)
    }
}

/// Whether `slot` is one of `taken`.
pub fn is_taken(taken: &[usize], slot: usize) -> (found: bool)
    ensures
        found == taken@.contains(slot),
{
    let mut i: usize = 0;
    while i < taken.len()
        invariant
            i <= taken.len(),
            forall|j: int| 0 <= j < i ==> taken@[j] != slot,
        decreases taken.len() - i,
    {
        if taken[i] == slot {
            assert(taken@[i as int] == slot);
            return true;
        }
        i += 1;
    }
    false
}

/// Whether every slot of the universe is in `taken`, so that none is left to
/// select.
pub fn all_taken(taken: &[usize]) -> (full: bool)
    ensures
        full == is_full(taken@),
{
    let mut slot: usize = 0;
    while slot < M
        invariant
            slot <= M,
            forall|s: usize| s < slot ==> #[trigger] taken@.contains(s),
        decreases M - slot,
    {
        if !is_taken(taken, slot) {
            return false;
        }
        slot += 1;
    }
    true
}

/// The slot that `word` names, unless it is one of `taken`.
pub fn accept(word: u64, taken: &[usize]) -> (slot: Option<usize>)
    ensures
        slot == if taken@.contains(word_slot(word as nat)) {
            None
        } else {
            Some(word_slot(word as nat))
        },
{
    let id = (word % (M as u64)) as usize;
    if is_taken(taken, id) {
        None
    } else {
        Some(id)
    }
}

/// Draws from the stream of coordinate `k` of `tag` until a word names a slot
/// that is not in `taken`, and returns that slot.
///
/// Returns `None` at once, without drawing, if every slot of the universe is
/// taken. Otherwise `None` only if `MAX_DRAWS` words in a row name taken
/// slots.
pub fn pick_slot(k: u32, tag: &[u8], taken: &[usize]) -> (slot: Option<usize>)
    ensures
        slot == first_fresh(stream_message(k as nat, tag@), taken@, 0),
        is_full(taken@) ==> slot is None,
{
    if all_taken(taken) {
        proof {
            lemma_full_has_no_fresh(stream_message(k as nat, tag@), taken@, 0);
        }
        return None;
    }
    let mut stream = TagStream::new(k, tag);
    let ghost message = stream.message();
    let mut draws: u64 = 0;
    while draws < MAX_DRAWS
        invariant
            draws <= MAX_DRAWS,
            message == stream_message(k as nat, tag@),
            stream.message() == message,
            stream.position() == 8 * draws,
            first_fresh(message, taken@, 0) == first_fresh(message, taken@, draws as nat),
        decreases MAX_DRAWS - draws,
    {
        let word = stream.next_u64();
        if let Some(id) = accept(word, taken) {
            return Some(id);
        }
        draws += 1;
    }
    None
}

/// The slots that the tag `tag` selects: one per coordinate, in coordinate
/// order. Any bytes are a tag.
///
/// Returns `None` only if the stream of some coordinate was given up, after
/// `MAX_DRAWS` words that all named slots of the coordinates before it. The
/// result depends on the bytes of the tag and on nothing else.
pub fn sample_bytes(tag: &[u8]) -> (ids: Option<[usize; K]>)
    ensures
        match ids {
            Some(ids) => sample_spec(tag@) == Some(ids@),
            None => sample_spec(tag@) is None,
        },
        ids matches Some(ids) ==> is_selection(ids@),
{
    let mut output = [0usize; K];
    let mut k: usize = 0;
    while k < K
        invariant
            k <= K,
            sample_prefix(tag@, k as nat) == Some(output@.take(k as int)),
        decreases K - k,
    {
        let taken = slice_subrange(output.as_slice(), 0, k);
        assert(taken@ =~= output@.take(k as int));
        match pick_slot(k as u32, tag, taken) {
            None => {
                proof {
                    lemma_sample_stays_none(tag@, (k + 1) as nat, K as nat);
                }
                return None;
            },
            Some(id) => {
                let ghost before = output@;
                output[k] = id;
                assert(output@.take(k as int + 1) =~= before.take(k as int).push(id));
            },
        }
        k += 1;
    }
    proof {
        assert(output@.take(K as int) =~= output@);
        lemma_sample_is_selection(tag@);
    }
    Some(output)
}

/// The slots that the tag `tag` selects: those of its UTF-8 bytes.
pub fn sample(tag: &str) -> (ids: Option<[usize; K]>)
    ensures
        match ids {
            Some(ids) => sample_spec(tag.spec_bytes()) == Some(ids@),
            None => sample_spec(tag.spec_bytes()) is None,
        },
        ids matches Some(ids) ==> is_selection(ids@),
{
    sample_bytes(tag.as_bytes())
}

/// Once the stream of a coordinate has run out, no longer prefix of the
/// coordinates has a selection.
proof fn lemma_sample_stays_none(tag: Seq<u8>, n: nat, m: nat)
    requires
        n <= m,
        sample_prefix(tag, n) is None,
    ensures
        sample_prefix(tag, m) is None,
    decreases m - n,
{
    if n < m {
        lemma_sample_stays_none(tag, n, (m - 1) as nat);
    }
}

} // verus!
