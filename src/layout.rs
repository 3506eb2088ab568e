//! Facts about the parameter block: its size, how it decodes, and which writes are refused.
use vstd::prelude::*;
use crate::bulk_write::{
    all_data_fits, data_too_large, encode_block, encode_entry, encoded_len, first_error,
    first_error_from, is_valid, lemma_accepted_iff_valid, lemma_first_error_skip, rejected_at,
    BulkWriteData, WriteError, ENTRY_HEADER_LEN,
};
use crate::endian::{lemma_u16_le_round_trip, u16_from_le};

verus! {

/// Reads a parameter block back as (motor id, address, data) triples, entry by entry
/// from the front. `None` when the bytes do not split into whole entries.
pub open spec fn decode_block(bytes: Seq<u8>) -> Option<Seq<(u8, u16, Seq<u8>)>>
    decreases bytes.len(),
{
    if bytes.len() == 0 {
        Some(Seq::empty())
    } else if bytes.len() < ENTRY_HEADER_LEN {
        None
    } else {
        let end = ENTRY_HEADER_LEN + u16_from_le(bytes[3], bytes[4]);
        if bytes.len() < end {
            None
        } else {
            match decode_block(bytes.subrange(end, bytes.len() as int)) {
                Some(rest) => Some(
                    seq![(bytes[0], u16_from_le(bytes[1], bytes[2]), bytes.subrange(ENTRY_HEADER_LEN as int, end))]
                        + rest,
                ),
                None => None,
            }
        }
    }
}

/// The block is as long as the sum of its entry sizes.
proof fn lemma_block_len(writes: Seq<BulkWriteData>)
    ensures
        encode_block(writes).len() == encoded_len(writes),
    decreases writes.len(),
{
    if writes.len() > 0 {
        lemma_block_len(writes.drop_last());
    }
}

/// The block starts with the entry of the first write, followed by the block of the rest.
proof fn lemma_block_front(writes: Seq<BulkWriteData>)
    requires
        writes.len() > 0,
    ensures
        encode_block(writes) == encode_entry(writes[0]) + encode_block(writes.drop_first()),
    decreases writes.len(),
{
    if writes.len() == 1 {
        assert(writes.drop_last() =~= Seq::<BulkWriteData>::empty());
        assert(writes.drop_first() =~= Seq::<BulkWriteData>::empty());
        assert(encode_block(writes.drop_last()) == Seq::<u8>::empty());
        assert(encode_block(writes.drop_first()) == Seq::<u8>::empty());
        assert(encode_block(writes) =~= encode_entry(writes[0]) + encode_block(writes.drop_first()));
    } else {
        let init = writes.drop_last();
        lemma_block_front(init);
        assert(init.drop_first() =~= writes.drop_first().drop_last());
        assert(writes.drop_first().last() == writes.last());
        assert(init[0] == writes[0]);
        assert(encode_block(writes) =~= encode_entry(writes[0]) + encode_block(writes.drop_first()));
    }
}

/// Writes whose data lengths fit and whose motor ids are distinct are accepted, and
/// their block is exactly the sum of `5 + data length` over the writes.
pub proof fn lemma_valid_writes_accepted(writes: Seq<BulkWriteData>)
    requires
        is_valid(writes),
    ensures
        first_error(writes) is None,
        encode_block(writes).len() == encoded_len(writes),
{
    lemma_accepted_iff_valid(writes);
    lemma_block_len(writes);
}

/// Two writes to the same motor make the writes refused with a duplicate id error,
/// provided every data length fits (else an oversized write may be reported first).
pub proof fn lemma_duplicate_rejected(writes: Seq<BulkWriteData>, i: int, j: int)
    requires
        0 <= i < j < writes.len(),
        writes[i].motor_id == writes[j].motor_id,
        all_data_fits(writes),
    ensures
        first_error(writes) matches Some(WriteError::DuplicateMotorId { .. }),
{
    lemma_accepted_iff_valid(writes);
    lemma_first_error_kind(writes, 0);
}

/// Without oversized data, any error found from `k` on is a duplicate id error.
proof fn lemma_first_error_kind(writes: Seq<BulkWriteData>, k: int)
    requires
        0 <= k,
        all_data_fits(writes),
    ensures
        first_error_from(writes, k) is None || first_error_from(writes, k) matches Some(
            WriteError::DuplicateMotorId { .. },
        ),
    decreases writes.len() - k,
{
    if k < writes.len() {
        assert(!data_too_large(writes[k]));
        lemma_first_error_kind(writes, k + 1);
    }
}

/// A write whose data is too long makes the writes refused; when no earlier write is
/// refused, the error is the oversized data error naming that write's motor and length.
pub proof fn lemma_oversized_rejected(writes: Seq<BulkWriteData>, i: int)
    requires
        0 <= i < writes.len(),
        data_too_large(writes[i]),
    ensures
        first_error(writes) is Some,
        (forall|k: int| 0 <= k < i ==> !rejected_at(writes, k)) ==> first_error(writes) == Some(
            WriteError::DataTooLarge { motor_id: writes[i].motor_id, length: writes[i].data@.len() as usize },
        ),
{
    lemma_accepted_iff_valid(writes);
    if forall|k: int| 0 <= k < i ==> !rejected_at(writes, k) {
        lemma_first_error_skip(writes, i);
    }
}

/// Decoding the block entry by entry gives back each write's motor id, address and
/// data, in the order of the writes.
pub proof fn lemma_decode_encode(writes: Seq<BulkWriteData>)
    requires
        all_data_fits(writes),
    ensures
        decode_block(encode_block(writes)) == Some(writes.map_values(|w: BulkWriteData| w@)),
    decreases writes.len(),
{
    let views = writes.map_values(|w: BulkWriteData| w@);
    if writes.len() == 0 {
        assert(views =~= Seq::empty());
    } else {
        let w = writes[0];
        let rest = writes.drop_first();
        assert(!data_too_large(w));
        assert(all_data_fits(rest)) by {
            assert forall|k: int| 0 <= k < rest.len() implies !data_too_large(#[trigger] rest[k]) by {
                assert(rest[k] == writes[k + 1]);
            }
        }
        lemma_block_front(writes);
        lemma_decode_encode(rest);
        lemma_u16_le_round_trip(w.address);
        lemma_u16_le_round_trip(w.data@.len() as u16);
        let bytes = encode_block(writes);
        let entry = encode_entry(w);
        let end = ENTRY_HEADER_LEN + w.data@.len();
        assert(entry.len() == end);
        assert(bytes.subrange(ENTRY_HEADER_LEN as int, end) =~= w.data@);
        assert(bytes.subrange(end, bytes.len() as int) =~= encode_block(rest));
        assert(seq![w@] + rest.map_values(|w: BulkWriteData| w@) =~= views);
    }
}

} // verus!
