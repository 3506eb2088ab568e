//! Validation and serialization of bulk write descriptors.
//!
//! Each descriptor becomes one entry of the parameter block:
//! `[motor_id][address: 2 bytes LE][data length: 2 bytes LE][data]`.
use vstd::prelude::*;
use crate::endian::{u16_le_bytes, write_u16_le, write_u8};
use vstd::set_lib::{lemma_int_range, lemma_len_subset, set_int_range};

verus! {

/// The largest data length that the 16-bit length field of an entry can carry.
pub const MAX_DATA_LEN: usize = 65535;

/// The size of the fixed header of one entry: id, address and data length.
pub const ENTRY_HEADER_LEN: usize = 5;

/// One write of a bulk write instruction: `data` goes to register `address` of motor `motor_id`.
///
/// Multi-byte register values are expected to be serialized little-endian in `data`.
#[derive(Clone, Debug, PartialEq, Eq)]
pub struct BulkWriteData {
    pub motor_id: u8,
    pub address: u16,
    pub data: Vec<u8>,
}

impl View for BulkWriteData {
    type V = (u8, u16, Seq<u8>);

    open spec fn view(&self) -> (u8, u16, Seq<u8>) {
        (self.motor_id, self.address, self.data@)
    }
}

/// Why a set of bulk writes was refused before anything was sent.
#[derive(Clone, Copy, Debug, PartialEq, Eq, Structural)]
pub enum WriteError {
    /// The data for `motor_id` is longer than the 16-bit length field allows.
    DataTooLarge { motor_id: u8, length: usize },
    /// `motor_id` is the target of more than one write.
    DuplicateMotorId { motor_id: u8 },
}

/// The data of `w` does not fit the 16-bit length field.
pub open spec fn data_too_large(w: BulkWriteData) -> bool {
    w.data@.len() > MAX_DATA_LEN
}

/// The motor of write `i` is also the target of an earlier write.
pub open spec fn repeats_earlier(writes: Seq<BulkWriteData>, i: int) -> bool {
    exists|j: int| 0 <= j < i && #[trigger] writes[j].motor_id == writes[i].motor_id
}

/// Write `i` is refused, given the writes before it.
pub open spec fn rejected_at(writes: Seq<BulkWriteData>, i: int) -> bool {
    data_too_large(writes[i]) || repeats_earlier(writes, i)
}

/// The error reported for write `i` when it is refused: an oversized payload
/// is reported before a repeated motor id.
pub open spec fn error_at(writes: Seq<BulkWriteData>, i: int) -> WriteError {
    if data_too_large(writes[i]) {
        WriteError::DataTooLarge { motor_id: writes[i].motor_id, length: writes[i].data@.len() as usize }
    } else {
        WriteError::DuplicateMotorId { motor_id: writes[i].motor_id }
    }
}

/// The error of the first refused write at or after `i`, if there is one.
pub open spec fn first_error_from(writes: Seq<BulkWriteData>, i: int) -> Option<WriteError>
    decreases writes.len() - i,
{
    if i < 0 || i >= writes.len() {
        None
    } else if rejected_at(writes, i) {
        Some(error_at(writes, i))
    } else {
        first_error_from(writes, i + 1)
    }
}

/// The error of the first refused write, scanning in order.
pub open spec fn first_error(writes: Seq<BulkWriteData>) -> Option<WriteError> {
    first_error_from(writes, 0)
}

/// Every data length fits the length field.
pub open spec fn all_data_fits(writes: Seq<BulkWriteData>) -> bool {
    forall|i: int| 0 <= i < writes.len() ==> !data_too_large(#[trigger] writes[i])
}

/// No motor is the target of two writes.
pub open spec fn distinct_motor_ids(writes: Seq<BulkWriteData>) -> bool {
    forall|i: int, j: int|
        0 <= i < j < writes.len() ==> #[trigger] writes[i].motor_id != #[trigger] writes[j].motor_id
}

/// A set of writes that can be sent as one bulk write.
pub open spec fn is_valid(writes: Seq<BulkWriteData>) -> bool {
    all_data_fits(writes) && distinct_motor_ids(writes)
}

/// The size of the entry for `w`.
pub open spec fn entry_len(w: BulkWriteData) -> int {
    ENTRY_HEADER_LEN + w.data@.len()
}

/// The size of the parameter block for `writes`: the sum of the entry sizes.
pub open spec fn encoded_len(writes: Seq<BulkWriteData>) -> int
    decreases writes.len(),
{
    if writes.len() == 0 {
        0
    } else {
        encoded_len(writes.drop_last()) + entry_len(writes.last())
    }
}

/// When no write before `i` is refused, the first error is found at or after `i`.
pub(crate) proof fn lemma_first_error_skip(writes: Seq<BulkWriteData>, i: int)
    requires
        0 <= i <= writes.len(),
        forall|k: int| 0 <= k < i ==> !rejected_at(writes, k),
    ensures
        first_error(writes) == first_error_from(writes, i),
    decreases i,
{
    if i > 0 {
        lemma_first_error_skip(writes, i - 1);
    }
}

/// Checks the writes in order and computes the size of their parameter block.
///
/// Fails on the first write whose data is too long for the length field, or whose
/// motor id was already used by an earlier write.
pub fn parameter_count(writes: &[BulkWriteData]) -> (r: Result<usize, WriteError>)
    ensures
        match r {
            Ok(count) => first_error(writes@) is None && count == encoded_len(writes@),
            Err(e) => first_error(writes@) == Some(e),
        },
{
    let mut seen: Vec<bool> = vec![false; 256];
    let mut count: usize = 0;
    let mut i: usize = 0;
    let ghost mut ids: Set<int> = Set::empty();
    while i < writes.len()
        invariant
            i <= writes@.len(),
            seen@.len() == 256,
            forall|k: int| 0 <= k < i ==> !rejected_at(writes@, k),
            count == encoded_len(writes@.take(i as int)),
            count <= 65540 * i,
            ids.finite(),
            ids.len() == i,
            forall|x: int| ids.contains(x) <==> exists|j: int| 0 <= j < i && writes@[j].motor_id as int == x,
            forall|id: int| 0 <= id < 256 ==> (seen@[id] <==> ids.contains(id)),
        decreases writes@.len() - i,
    {
        let w = &writes[i];
        let len = w.data.len();
        if len > MAX_DATA_LEN {
            proof {
                lemma_first_error_skip(writes@, i as int);
            }
            return Err(WriteError::DataTooLarge { motor_id: w.motor_id, length: len });
        }
        if seen[w.motor_id as usize] {
            proof {
                assert(ids.contains(w.motor_id as int));
                let j = choose|j: int| 0 <= j < i && writes@[j].motor_id as int == w.motor_id as int;
                assert(writes@[j].motor_id == writes@[i as int].motor_id);
                lemma_first_error_skip(writes@, i as int);
            }
            return Err(WriteError::DuplicateMotorId { motor_id: w.motor_id });
        }
        proof {
            assert(!ids.contains(w.motor_id as int));
            assert forall|j: int| 0 <= j < i implies writes@[j].motor_id != w.motor_id by {
                if writes@[j].motor_id == w.motor_id {
                    assert(exists|k: int| 0 <= k < i && writes@[k].motor_id as int == w.motor_id as int);
                    assert(writes@[j].motor_id as int == w.motor_id as int);
                }
            }
            assert(!repeats_earlier(writes@, i as int));
            let new_ids = ids.insert(w.motor_id as int);
            assert forall|x: int| new_ids.contains(x) implies set_int_range(0, 256).contains(x) by {
                if x != w.motor_id as int {
                    let j = choose|j: int| 0 <= j < i && writes@[j].motor_id as int == x;
                }
            }
            lemma_int_range(0, 256);
            lemma_len_subset(new_ids, set_int_range(0, 256));
            assert(writes@.take(i + 1).drop_last() =~= writes@.take(i as int));
            ids = new_ids;
        }
        seen[w.motor_id as usize] = true;
        count = count + ENTRY_HEADER_LEN + len;
        i = i + 1;
        proof {
            assert forall|x: int| ids.contains(x) <==> exists|j: int| 0 <= j < i && writes@[j].motor_id as int == x by {
                if ids.contains(x) && x == writes@[i - 1].motor_id as int {
                    assert(writes@[i - 1].motor_id as int == x);
                }
            }
        }
    }
    proof {
        lemma_first_error_skip(writes@, i as int);
        assert(writes@.take(i as int) =~= writes@);
    }
    Ok(count)
}

/// The entry for `w`: motor id, address and data length (both little-endian), then the data.
pub open spec fn encode_entry(w: BulkWriteData) -> Seq<u8> {
    seq![w.motor_id] + u16_le_bytes(w.address) + u16_le_bytes(w.data@.len() as u16) + w.data@
}

/// The parameter block for `writes`: their entries, concatenated in order.
pub open spec fn encode_block(writes: Seq<BulkWriteData>) -> Seq<u8>
    decreases writes.len(),
{
    if writes.len() == 0 {
        Seq::empty()
    } else {
        encode_block(writes.drop_last()) + encode_entry(writes.last())
    }
}

/// The block for the first `k + 1` writes extends the block for the first `k` by entry `k`.
proof fn lemma_take_step(writes: Seq<BulkWriteData>, k: int)
    requires
        0 <= k < writes.len(),
    ensures
        encode_block(writes.take(k + 1)) == encode_block(writes.take(k)) + encode_entry(writes[k]),
        encoded_len(writes.take(k + 1)) == encoded_len(writes.take(k)) + entry_len(writes[k]),
{
    assert(writes.take(k + 1).drop_last() =~= writes.take(k));
}

/// A prefix of the writes never needs more room than all of them.
proof fn lemma_encoded_len_prefix(writes: Seq<BulkWriteData>, k: int)
    requires
        0 <= k <= writes.len(),
    ensures
        encoded_len(writes.take(k)) <= encoded_len(writes),
    decreases writes.len(),
{
    if k == writes.len() {
        assert(writes.take(k) =~= writes);
    } else {
        assert(writes.drop_last().take(k) =~= writes.take(k));
        lemma_encoded_len_prefix(writes.drop_last(), k);
    }
}

/// Fills `buffer`, sized exactly for `writes`, with their entries in order.
pub fn fill_parameters(buffer: &mut [u8], writes: &[BulkWriteData])
    requires
        all_data_fits(writes@),
        old(buffer)@.len() == encoded_len(writes@),
    ensures
        final(buffer)@ == encode_block(writes@),
{
    let total = buffer.len();
    let mut offset: usize = 0;
    let mut i: usize = 0;
    while i < writes.len()
        invariant
            i <= writes@.len(),
            all_data_fits(writes@),
            total == encoded_len(writes@),
            buffer@.len() == total,
            offset <= total,
            offset == encoded_len(writes@.take(i as int)),
            buffer@.subrange(0, offset as int) == encode_block(writes@.take(i as int)),
        decreases writes@.len() - i,
    {
        let w = &writes[i];
        let len = w.data.len();
        let ghost done = encode_block(writes@.take(i as int));
        proof {
            lemma_take_step(writes@, i as int);
            lemma_encoded_len_prefix(writes@, i + 1);
            assert(!data_too_large(writes@[i as int]));
        }
        write_u8(buffer, offset, w.motor_id);
        write_u16_le(buffer, offset + 1, w.address);
        write_u16_le(buffer, offset + 3, len as u16);
        let start = offset + ENTRY_HEADER_LEN;
        let ghost header = buffer@.subrange(0, start as int);
        assert(header =~= done + seq![w.motor_id] + u16_le_bytes(w.address) + u16_le_bytes(len as u16));
        let mut j: usize = 0;
        while j < len
            invariant
                j <= len,
                len == w.data@.len(),
                start + len <= buffer@.len(),
                buffer@.len() == total,
                buffer@.subrange(0, start as int) == header,
                buffer@.subrange(start as int, start + j) == w.data@.take(j as int),
            decreases len - j,
        {
            buffer[start + j] = w.data[j];
            j = j + 1;
            assert(buffer@.subrange(0, start as int) =~= header);
            assert(buffer@.subrange(start as int, start + j) =~= w.data@.take(j as int));
        }
        assert(buffer@.subrange(0, start + len) =~= header + w.data@) by {
            assert(w.data@.take(len as int) =~= w.data@);
            assert(buffer@.subrange(0, start + len) =~= buffer@.subrange(0, start as int)
                + buffer@.subrange(start as int, start + len));
        }
        offset = start + len;
        i = i + 1;
    }
    assert(writes@.take(i as int) =~= writes@);
    assert(buffer@.subrange(0, offset as int) =~= buffer@);
}

/// No write at or after `i` is refused exactly when no error is found from `i` on.
proof fn lemma_first_error_from_none(writes: Seq<BulkWriteData>, i: int)
    requires
        0 <= i <= writes.len(),
    ensures
        first_error_from(writes, i) is None <==> forall|k: int| i <= k < writes.len() ==> !rejected_at(writes, k),
    decreases writes.len() - i,
{
    if i < writes.len() {
        lemma_first_error_from_none(writes, i + 1);
    }
}

/// The writes are accepted exactly when every data length fits and the motor ids are distinct.
pub proof fn lemma_accepted_iff_valid(writes: Seq<BulkWriteData>)
    ensures
        first_error(writes) is None <==> is_valid(writes),
{
    lemma_first_error_from_none(writes, 0);
    if first_error(writes) is None {
        assert forall|k: int| 0 <= k < writes.len() implies !data_too_large(#[trigger] writes[k]) by {
            assert(!rejected_at(writes, k));
        }
        assert forall|i: int, j: int| 0 <= i < j < writes.len() implies writes[i].motor_id
            != writes[j].motor_id by {
            assert(!rejected_at(writes, j));
        }
    }
    if is_valid(writes) {
        assert forall|k: int| 0 <= k < writes.len() implies !rejected_at(writes, k) by {
            assert(!data_too_large(writes[k]));
            if repeats_earlier(writes, k) {
                let j = choose|j: int| 0 <= j < k && #[trigger] writes[j].motor_id == writes[k].motor_id;
                assert(writes[j].motor_id != writes[k].motor_id);
            }
        }
    }
}

/// Validates the writes and serializes them into a parameter block of exactly the computed size.
///
/// On failure nothing is allocated or written, and the error names the first refused write.
pub fn encode_parameters(writes: &[BulkWriteData]) -> (r: Result<Vec<u8>, WriteError>)
    ensures
        match r {
            Ok(block) => first_error(writes@) is None && block@ == encode_block(writes@),
            Err(e) => first_error(writes@) == Some(e),
        },
{
    let count = match parameter_count(writes) {
        Ok(count) => count,
        Err(e) => return Err(e),
    };
    proof {
        lemma_accepted_iff_valid(writes@);
    }
    let mut buffer: Vec<u8> = vec![0u8; count];
    fill_parameters(buffer.as_mut_slice(), writes);
    Ok(buffer)
}

} // verus!
