//! The slot directory: the occupancy index living inside the page buffer.
//!
//! The entry at order `o` is the byte pair at offsets `238 - 2*o`
//! (identifier) and `239 - 2*o` (record offset). An entry whose identifier
//! byte is `POS_NULL` is unoccupied. Scans always run from order 0 upward,
//! so the lowest matching or free order wins.

use vstd::prelude::*;

use crate::layout::MAX_NUM_RECORDS;
use crate::layout::PAGE_SIZE;
use crate::layout::POS_NULL;
use crate::layout::POS_START_OF_SLOTS;
use crate::layout::SLOT_SIZE;
use crate::page::PageError;

verus! {

/// Identifier byte of the directory entry at `order`.
pub open spec fn entry_id(p: Seq<u8>, order: int) -> u8 {
    p[238 - 2 * order]
}

/// Record-offset byte of the directory entry at `order`.
pub open spec fn entry_off(p: Seq<u8>, order: int) -> u8 {
    p[239 - 2 * order]
}

/// Whether the directory entry at `order` holds a record.
pub open spec fn entry_occupied(p: Seq<u8>, order: int) -> bool {
    entry_id(p, order) != POS_NULL
}

/// Whether some entry in `[0, MAX_NUM_RECORDS)` carries the identifier
/// byte `rid`. With `rid == POS_NULL` this reads as "some entry is free".
pub open spec fn spec_entry_exists(p: Seq<u8>, rid: u8) -> bool {
    exists|o: int| 0 <= o < 22 && entry_id(p, o) == rid
}

/// The lowest order in `[from, 22)` whose identifier byte is `rid`, or 22
/// when there is none. Both lookup by identifier and the free-slot scan are
/// instances of this: a free entry is one whose identifier is `POS_NULL`.
pub open spec fn spec_find_order_from(p: Seq<u8>, rid: u8, from: int) -> int
    decreases 22 - from,
{
    if from < 0 || from >= 22 {
        22
    } else if entry_id(p, from) == rid {
        from
    } else {
        spec_find_order_from(p, rid, from + 1)
    }
}

/// The lowest order whose identifier byte is `rid`, or 22 when none.
pub open spec fn spec_find_order(p: Seq<u8>, rid: u8) -> int {
    spec_find_order_from(p, rid, 0)
}

/// The lowest free order, or 22 when the directory is full.
pub open spec fn spec_first_free(p: Seq<u8>) -> int {
    spec_find_order(p, POS_NULL)
}

/// What the scan returns: the result is the lowest order in `[from, 22)`
/// carrying `rid`, every order below it in that range carries something
/// else, and 22 means no order in the range carries `rid`.
pub proof fn lemma_find_order_from_spec(p: Seq<u8>, rid: u8, from: int)
    requires
        0 <= from <= 22,
    ensures
        from <= spec_find_order_from(p, rid, from) <= 22,
        spec_find_order_from(p, rid, from) < 22 ==> entry_id(
            p,
            spec_find_order_from(p, rid, from),
        ) == rid,
        forall|k: int|
            from <= k < spec_find_order_from(p, rid, from) ==> entry_id(p, k) != rid,
    decreases 22 - from,
{
    if from < 22 && entry_id(p, from) != rid {
        lemma_find_order_from_spec(p, rid, from + 1);
    }
}

/// The scan's result characterised from order 0: it finds `rid` exactly
/// when some entry carries it, and then returns the lowest such order.
pub proof fn lemma_find_order_spec(p: Seq<u8>, rid: u8)
    ensures
        0 <= spec_find_order(p, rid) <= 22,
        spec_find_order(p, rid) < 22 <==> spec_entry_exists(p, rid),
        spec_find_order(p, rid) < 22 ==> entry_id(p, spec_find_order(p, rid)) == rid,
        forall|k: int| 0 <= k < spec_find_order(p, rid) ==> entry_id(p, k) != rid,
{
    lemma_find_order_from_spec(p, rid, 0);
    if spec_find_order(p, rid) < 22 {
        assert(spec_entry_exists(p, rid));
    }
}

/// Two pages whose directory bytes agree entry by entry scan alike.
pub proof fn lemma_find_order_agree(p1: Seq<u8>, p2: Seq<u8>, rid: u8, from: int)
    requires
        0 <= from <= 22,
        forall|o: int| 0 <= o < 22 ==> entry_id(p1, o) == entry_id(p2, o),
    ensures
        spec_find_order_from(p1, rid, from) == spec_find_order_from(p2, rid, from),
    decreases 22 - from,
{
    if from < 22 && entry_id(p1, from) != rid {
        lemma_find_order_agree(p1, p2, rid, from + 1);
    }
}

/// Resolves an identifier to the order of its directory entry, scanning
/// from order 0 upward. The sentinel `POS_NULL` never names a record, so
/// looking it up fails like any absent identifier.
pub fn get_order(rid: u8, page: &Vec<u8>) -> (r: Result<usize, PageError>)
    requires
        page@.len() == PAGE_SIZE,
    ensures
        rid != POS_NULL && spec_entry_exists(page@, rid) ==> r == Ok::<usize, PageError>(
            spec_find_order(page@, rid) as usize,
        ),
        !(rid != POS_NULL && spec_entry_exists(page@, rid)) ==> r == Err::<usize, PageError>(
            PageError::NoSuchRecord(rid),
        ),
{
    proof {
        lemma_find_order_spec(page@, rid);
    }
    if rid == POS_NULL {
        return Err(PageError::NoSuchRecord(rid));
    }
    let mut order: usize = 0;
    while order < MAX_NUM_RECORDS
        invariant
            page@.len() == PAGE_SIZE,
            order <= MAX_NUM_RECORDS,
            rid != POS_NULL,
            spec_find_order(page@, rid) == spec_find_order_from(page@, rid, order as int),
        decreases MAX_NUM_RECORDS - order,
    {
        let slot_offset = POS_START_OF_SLOTS - SLOT_SIZE * order;
        if page[slot_offset - 1] == rid {
            proof {
                assert(entry_id(page@, order as int) == rid);
                assert(spec_entry_exists(page@, rid));
            }
            return Ok(order);
        }
        order = order + 1;
    }
    Err(PageError::NoSuchRecord(rid))
}

/// Finds the lowest free order, scanning from order 0 upward; `None` means
/// every entry is occupied, which is the page's full condition.
pub fn get_next_empty_order(page: &Vec<u8>) -> (r: Option<usize>)
    requires
        page@.len() == PAGE_SIZE,
    ensures
        spec_entry_exists(page@, POS_NULL) ==> r == Some(spec_first_free(page@) as usize),
        !spec_entry_exists(page@, POS_NULL) ==> r == None::<usize>,
{
    proof {
        lemma_find_order_spec(page@, POS_NULL);
    }
    let mut order: usize = 0;
    while order < MAX_NUM_RECORDS
        invariant
            page@.len() == PAGE_SIZE,
            order <= MAX_NUM_RECORDS,
            spec_first_free(page@) == spec_find_order_from(page@, POS_NULL, order as int),
        decreases MAX_NUM_RECORDS - order,
    {
        let slot_offset = POS_START_OF_SLOTS - SLOT_SIZE * order;
        if page[slot_offset - 1] == POS_NULL {
            proof {
                assert(entry_id(page@, order as int) == POS_NULL);
                assert(spec_entry_exists(page@, POS_NULL));
            }
            return Some(order);
        }
        order = order + 1;
    }
    None
}

/// Marks the entry at `order` occupied by `rid`, recording where its
/// record slot lies.
pub fn occupy(page: &mut Vec<u8>, order: usize, rid: u8, record_offset: u8)
    requires
        old(page)@.len() == PAGE_SIZE,
        order < MAX_NUM_RECORDS,
    ensures
        final(page)@ == old(page)@.update(238 - 2 * order as int, rid).update(
            239 - 2 * order as int,
            record_offset,
        ),
{
    let slot_offset = POS_START_OF_SLOTS - SLOT_SIZE * order;
    page[slot_offset - 1] = rid;
    page[slot_offset] = record_offset;
}

/// Marks the entry at `order` free again by zeroing both of its bytes.
pub fn vacate(page: &mut Vec<u8>, order: usize)
    requires
        old(page)@.len() == PAGE_SIZE,
        order < MAX_NUM_RECORDS,
    ensures
        final(page)@ == old(page)@.update(238 - 2 * order as int, POS_NULL).update(
            239 - 2 * order as int,
            POS_NULL,
        ),
{
    let slot_offset = POS_START_OF_SLOTS - SLOT_SIZE * order;
    page[slot_offset - 1] = POS_NULL;
    page[slot_offset] = POS_NULL;
}

} // verus!
