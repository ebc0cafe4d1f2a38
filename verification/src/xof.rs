//! The SHAKE256 output stream that the sampler draws from.
//!
//! Hashing is done by the `sha3` crate and byte order by `byteorder`. Nothing
//! in this module is proved about them: each function below that calls one of
//! them states what the call does, and the rest of the crate builds on those
//! statements.
use byteorder::ByteOrder;
use digest::ExtendableOutput;
use digest::Input;
use digest::XofReader;
use vstd::prelude::*;

verus! {

/// `sha3::Shake256`, the hasher. Nothing is known of what is inside it but
/// what `absorbed` says.
#[verifier::external_type_specification]
#[verifier::external_body]
pub struct ExShake256(sha3::Shake256);

/// `sha3::Sha3XofReader`, the reader of a hasher's output. Nothing is known
/// of what is inside it but what `reader_message` and `reader_offset` say.
#[verifier::external_type_specification]
#[verifier::external_body]
pub struct ExSha3XofReader(sha3::Sha3XofReader);

/// The bytes that a hasher has been fed so far, in the order it got them.
pub uninterp spec fn absorbed(hasher: sha3::Shake256) -> Seq<u8>;

/// The message whose SHAKE256 output a reader hands out.
pub uninterp spec fn reader_message(reader: sha3::Sha3XofReader) -> Seq<u8>;

/// The number of output bytes that have been read from a reader.
pub uninterp spec fn reader_offset(reader: sha3::Sha3XofReader) -> nat;

/// The `len` bytes that start at offset `from` in the SHAKE256 output for
/// `message`.
pub uninterp spec fn shake256_output(message: Seq<u8>, from: nat, len: nat) -> Seq<u8>;

/// The number that `bytes` spell in little-endian order.
pub open spec fn le_value(bytes: Seq<u8>) -> nat
    decreases bytes.len(),
{
    if bytes.len() == 0 {
        0
    } else {
        bytes[0] as nat + 256 * le_value(bytes.drop_first())
    }
}

/// The first `len` little-endian bytes of `n`.
pub open spec fn le_bytes(n: nat, len: nat) -> Seq<u8>
    decreases len,
{
    if len == 0 {
        Seq::empty()
    } else {
        seq![(n % 256) as u8] + le_bytes(n / 256, (len - 1) as nat)
    }
}

/// Calls `Shake256::default()`. Trusted: the new hasher has been fed nothing.
#[verifier::external_body]
pub(crate) fn shake256_new() -> (hasher: sha3::Shake256)
    ensures
        absorbed(hasher) == Seq::<u8>::empty(),
{
    sha3::Shake256::default()
}

/// Calls `digest::Input::process`. Trusted: feeding `data` appends it to what
/// the hasher was fed before.
#[verifier::external_body]
pub(crate) fn shake256_process(hasher: &mut sha3::Shake256, data: &[u8])
    ensures
        absorbed(*final(hasher)) == absorbed(*old(hasher)) + data@,
{
    hasher.process(data)
}

/// Calls `digest::ExtendableOutput::xof_result`. Trusted: the reader stands at
/// the start of the SHAKE256 output for the bytes that the hasher was fed.
#[verifier::external_body]
pub(crate) fn shake256_finish(hasher: sha3::Shake256) -> (reader: sha3::Sha3XofReader)
    ensures
        reader_message(reader) == absorbed(hasher),
        reader_offset(reader) == 0,
{
    hasher.xof_result()
}

/// Calls `digest::XofReader::read` on an eight byte buffer. Trusted: the
/// buffer comes back holding the next eight bytes of the output, and the
/// reader has moved past them.
#[verifier::external_body]
pub(crate) fn xof_read_word(reader: &mut sha3::Sha3XofReader) -> (word: [u8; 8])
    ensures
        word@ == shake256_output(reader_message(*old(reader)), reader_offset(*old(reader)), 8),
        reader_message(*final(reader)) == reader_message(*old(reader)),
        reader_offset(*final(reader)) == reader_offset(*old(reader)) + 8,
{
    let mut word = [0u8; 8];
    reader.read(&mut word);
    word
}

/// Calls `byteorder::LittleEndian::write_u32` on a four byte buffer. Trusted:
/// the buffer comes back holding `n` in little-endian order.
#[verifier::external_body]
pub(crate) fn le_encode_u32(n: u32) -> (bytes: [u8; 4])
    ensures
        bytes@ == le_bytes(n as nat, 4),
{
    let mut bytes = [0u8; 4];
    byteorder::LittleEndian::write_u32(&mut bytes, n);
    bytes
}

/// Calls `byteorder::LittleEndian::read_u64`. Trusted: the result is the
/// number that the eight bytes spell in little-endian order.
#[verifier::external_body]
pub(crate) fn le_decode_u64(bytes: &[u8; 8]) -> (n: u64)
    ensures
        n as nat == le_value(bytes@),
{
    byteorder::LittleEndian::read_u64(bytes)
}

} // verus!
