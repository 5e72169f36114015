//! The value of the file index: the ids of the nodes of one file, sixteen
//! bytes each, little-endian, one after another. The index itself is a
//! key-value store that the caller keeps; here is what its values hold.

use vstd::bytes::*;
use vstd::prelude::*;
use vstd::slice::*;

use crate::storage::round_trip::lemma_u128_col;
use crate::storage::segment::u128_at;
use crate::storage::writer::u128_col;

verus! {

/// The ids that a value holds: as many as it has whole groups of sixteen
/// bytes; bytes beyond the last whole group do not count.
pub open spec fn stored_ids(value: Seq<u8>) -> Seq<u128> {
    Seq::new((value.len() / 16) as nat, |i: int| u128_at(value, 16 * i))
}

/// The value with one more id: the id's sixteen bytes behind what the
/// value held; a value that is not there yet holds nothing.
pub fn append_id(value: Option<&[u8]>, id: u128) -> (r: Vec<u8>)
    ensures
        r@ == (match value {
            Some(v) => v@,
            None => Seq::empty(),
        }) + spec_u128_to_le_bytes(id),
{
    let mut out: Vec<u8> = match value {
        Some(v) => slice_to_vec(v),
        None => Vec::new(),
    };
    let mut bytes = u128_to_le_bytes(id);
    out.append(&mut bytes);
    out
}

/// The ids that a value holds.
pub fn decode_ids(value: &[u8]) -> (r: Vec<u128>)
    ensures
        r@ == stored_ids(value@),
{
    let n: usize = value.len();
    let count: usize = n / 16;
    let mut out: Vec<u128> = Vec::new();
    let mut i: usize = 0;
    while i < count
        invariant
            i <= count,
            count == value@.len() / 16,
            count * 16 <= value@.len(),
            value@.len() <= usize::MAX,
            out@ == stored_ids(value@).subrange(0, i as int),
        decreases count - i,
    {
        let id = u128_from_le_bytes(slice_subrange(value, i * 16, i * 16 + 16));
        out.push(id);
        i += 1;
        assert(out@ =~= stored_ids(value@).subrange(0, i as int));
    }
    assert(stored_ids(value@).subrange(0, count as int) =~= stored_ids(value@));
    out
}

/// A value that was made by appending ids holds those ids, in the order
/// in which they were appended.
pub proof fn lemma_appended_ids(ids: Seq<u128>)
    ensures
        stored_ids(u128_col(ids)) == ids,
{
    lemma_u128_col(ids);
    let v = u128_col(ids);
    assert forall|i: int| 0 <= i < ids.len() implies stored_ids(v)[i] == ids[i] by {
        assert(u128_at(v, 16 * i) == ids[i]);
    }
    assert(stored_ids(v) =~= ids);
}

} // verus!
