//! The stored form of a bucket array: the number of buckets in eight bytes,
//! then every bucket in eight bytes, each number with its lowest byte first.

use vstd::bytes::{
    lemma_auto_spec_u64_to_from_le_bytes, spec_u64_from_le_bytes, spec_u64_to_le_bytes,
};
use vstd::prelude::*;

verus! {

/// The error of the `bincode` crate. It is carried through unread.
#[verifier::external_type_specification]
#[verifier::external_body]
pub struct ExBincodeErrorKind(bincode::ErrorKind);

/// The buckets one behind the other, eight bytes each.
pub open spec fn words(values: Seq<u64>) -> Seq<u8>
    decreases values.len(),
{
    if values.len() == 0 {
        Seq::<u8>::empty()
    } else {
        words(values.drop_last()) + spec_u64_to_le_bytes(values.last())
    }
}

/// The stored form of a bucket array.
pub open spec fn encoded(values: Seq<u64>) -> Seq<u8> {
    spec_u64_to_le_bytes(values.len() as u64) + words(values)
}

/// The number of buckets that stored bytes announce.
pub open spec fn announced(bytes: Seq<u8>) -> int {
    spec_u64_from_le_bytes(bytes.take(8)) as int
}

/// The bucket array that stored bytes hold: they must announce a count and
/// hold at least that many buckets; what follows the last bucket is not read.
pub open spec fn decoded(bytes: Seq<u8>) -> Option<Seq<u64>> {
    if bytes.len() >= 8 && announced(bytes) <= usize::MAX && 8 + 8 * announced(bytes)
        <= bytes.len() {
        Some(
            Seq::new(
                announced(bytes) as nat,
                |i: int| spec_u64_from_le_bytes(bytes.subrange(8 + 8 * i, 16 + 8 * i)),
            ),
        )
    } else {
        None
    }
}

/// The stored form of the array is no longer than the longest buffer that
/// can be allocated, `isize::MAX` bytes.
pub open spec fn storable(values: Seq<u64>) -> bool {
    8 + 8 * values.len() <= isize::MAX
}

/// Calls `bincode::serialize` on a vector of 64-bit numbers. The claim: it
/// succeeds, and the bytes are the vector's length and then its items, each
/// as eight bytes with the lowest first, which is what the crate's default
/// options with fixed-width integers write. It succeeds because each of its
/// three ways to fail is closed here: the size limit of the default options
/// is `Infinite`, whose `add` is always `Ok`; the length of the sequence is
/// known, since a vector's iterator gives its exact size; and the writer is
/// a `Vec<u8>`, which takes every write. It allocates the whole buffer at
/// once and panics above `isize::MAX` bytes, which `requires` leaves out.
#[verifier::external_body]
fn bincode_serialize(values: &Vec<u64>) -> (bytes: Result<Vec<u8>, bincode::Error>)
    requires
        storable(values@),
    ensures
        bytes matches Ok(bytes) && bytes@ == encoded(values@),
{
    bincode::serialize(values)
}

/// Calls `bincode::deserialize` for a vector of 64-bit numbers. The claim: it
/// reads a length of eight bytes and then that many items of eight bytes,
/// lowest byte first, fails where the bytes run out before that or the
/// length is beyond `usize`, and ignores bytes behind the last item.
#[verifier::external_body]
fn bincode_deserialize(bytes: &[u8]) -> (values: Result<Vec<u64>, bincode::Error>)
    ensures
        match values {
            Ok(values) => decoded(bytes@) == Some(values@),
            Err(_) => decoded(bytes@) is None,
        },
{
    bincode::deserialize(bytes)
}

/// Writes a bucket array in its stored form. Every array has one, but for
/// an array whose stored form would be longer than the longest buffer that
/// can be allocated: for that one the answer is `None`.
pub fn serialize_buckets(values: &Vec<u64>) -> (bytes: Option<Vec<u8>>)
    ensures
        match bytes {
            Some(bytes) => storable(values@) && bytes@ == encoded(values@),
            None => !storable(values@),
        },
{
    let longest: usize = isize::MAX as usize;
    if values.len() > (longest - 8) / 8 {
        return None;
    }
    match bincode_serialize(values) {
        Ok(bytes) => Some(bytes),
        Err(_) => None,
    }
}

/// Reads a bucket array from its stored form, or `None` where the bytes hold
/// none.
pub fn deserialize_buckets(bytes: &[u8]) -> (values: Option<Vec<u64>>)
    ensures
        match values {
            Some(values) => decoded(bytes@) == Some(values@),
            None => decoded(bytes@) is None,
        },
{
    match bincode_deserialize(bytes) {
        Ok(values) => Some(values),
        Err(_) => None,
    }
}

/// Bucket `i` stands at byte `8 * i` of the buckets' bytes.
pub proof fn lemma_words_layout(values: Seq<u64>, i: int)
    requires
        0 <= i < values.len(),
    ensures
        words(values).len() == 8 * values.len(),
        words(values).subrange(8 * i, 8 * i + 8) == spec_u64_to_le_bytes(values[i]),
    decreases values.len(),
{
    lemma_auto_spec_u64_to_from_le_bytes();
    lemma_words_len(values);
    let front = values.drop_last();
    lemma_words_len(front);
    if i == values.len() - 1 {
        assert(words(values).subrange(8 * i, 8 * i + 8) =~= spec_u64_to_le_bytes(values.last()));
    } else {
        lemma_words_layout(front, i);
        assert(words(values).subrange(8 * i, 8 * i + 8) =~= words(front).subrange(
            8 * i,
            8 * i + 8,
        ));
    }
}

/// The buckets' bytes are eight for every bucket.
pub proof fn lemma_words_len(values: Seq<u64>)
    ensures
        words(values).len() == 8 * values.len(),
    decreases values.len(),
{
    lemma_auto_spec_u64_to_from_le_bytes();
    if values.len() > 0 {
        lemma_words_len(values.drop_last());
    }
}

/// Round trip: reading the stored form of a bucket array gives the array
/// back, bucket for bucket and in the same order.
pub proof fn lemma_round_trip(values: Seq<u64>)
    requires
        values.len() <= usize::MAX,
    ensures
        decoded(encoded(values)) == Some(values),
{
    lemma_auto_spec_u64_to_from_le_bytes();
    lemma_words_len(values);
    let bytes = encoded(values);
    let count = spec_u64_to_le_bytes(values.len() as u64);
    assert(bytes.take(8) =~= count);
    assert(announced(bytes) == values.len());
    let read = decoded(bytes).unwrap();
    assert forall|i: int| 0 <= i < values.len() implies read[i] == values[i] by {
        lemma_words_layout(values, i);
        assert(bytes.subrange(8 + 8 * i, 16 + 8 * i) =~= words(values).subrange(
            8 * i,
            8 * i + 8,
        ));
    }
    assert(read =~= values);
}

} // verus!
