//! Byte layout of the page: pure offset arithmetic mapping a slot's order
//! (a dense index in `[0, MAX_NUM_RECORDS)`) to byte offsets in the buffer.

use vstd::prelude::*;

verus! {

/// Size of the whole page buffer in bytes.
pub const PAGE_SIZE: usize = 256;

/// Trailer byte: 1 while at least one directory entry is free, else 0.
pub const POS_IS_THERE_SPACE: usize = 255;

/// Trailer byte: the lowest free order, or 0 when the page is full.
pub const POS_NEXT_ORDER: usize = 254;

/// Trailer byte: the number of occupied directory entries.
pub const POS_NUM_RECORDS: usize = 253;

/// Offset of the high byte of the directory entry at order 0; the
/// directory grows from here toward lower addresses.
pub const POS_START_OF_SLOTS: usize = 239;

/// Offset of the first record slot.
pub const POS_START_RECORDS: usize = 16;

/// Size of one record slot in bytes.
pub const RECORD_SIZE: usize = 8;

/// Size of one directory entry in bytes: an identifier byte and an
/// offset byte.
pub const SLOT_SIZE: usize = 2;

/// The identifier value that marks a directory entry as unoccupied.
/// It is reserved: no stored record may carry it.
pub const POS_NULL: u8 = 0;

/// Capacity of the page in records.
pub const MAX_NUM_RECORDS: usize = 22;

/// End of the record area: record slots live in
/// `[POS_START_RECORDS, BOUNDARY)`, the directory above it.
pub const BOUNDARY: usize = POS_START_RECORDS + RECORD_SIZE * MAX_NUM_RECORDS;

/// Byte offset of the record slot at `order`, as a mathematical value.
pub open spec fn spec_record_offset(order: int) -> int {
    16 + 8 * order
}

/// Byte offset of the identifier byte of the directory entry at `order`.
pub open spec fn spec_id_offset(order: int) -> int {
    238 - 2 * order
}

/// Byte offset of the record-offset byte of the directory entry at `order`.
pub open spec fn spec_off_offset(order: int) -> int {
    239 - 2 * order
}

/// Byte offset of the record slot at `order`.
pub fn get_record_offset(order: usize) -> (r: usize)
    requires
        order < MAX_NUM_RECORDS,
    ensures
        r == spec_record_offset(order as int),
        BOUNDARY <= PAGE_SIZE && r + RECORD_SIZE <= BOUNDARY,
{
    POS_START_RECORDS + RECORD_SIZE * order
}

/// Byte offset of the high (record-offset) byte of the directory entry at
/// `order`; the identifier byte sits one byte below it.
pub fn get_slot_offset(order: usize) -> (r: usize)
    requires
        order < MAX_NUM_RECORDS,
    ensures
        r == spec_off_offset(order as int),
        r == spec_id_offset(order as int) + 1,
        BOUNDARY <= r - 1 && r < PAGE_SIZE,
{
    POS_START_OF_SLOTS - SLOT_SIZE * order
}

} // verus!
