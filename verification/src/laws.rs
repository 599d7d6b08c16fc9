//! Laws of the page: properties relating several operations, proved once
//! over the mathematical model of the buffer.

use vstd::prelude::*;

use crate::directory::entry_id;
use crate::directory::entry_occupied;
use crate::directory::entry_off;
use crate::directory::lemma_find_order_spec;
use crate::directory::spec_entry_exists;
use crate::directory::spec_find_order;
use crate::directory::spec_first_free;
use crate::layout::POS_NULL;
use crate::page::lemma_delete_result;
use crate::page::lemma_insert_result;
use crate::page::page_inv;
use crate::page::spec_delete_result;
use crate::page::spec_has_record;
use crate::page::spec_has_space;
use crate::page::spec_insert_result;
use crate::page::spec_read_result;
use crate::records::spec_zero_pad;

verus! {

/// Insert/read round trip: inserting a payload of at most one record slot
/// under a fresh identifier and then reading that identifier returns the
/// payload right-padded with zero bytes.
pub proof fn lemma_insert_read_round_trip(p: Seq<u8>, input: Seq<u8>, rid: u8)
    requires
        page_inv(p),
        input.len() <= 8,
        rid != POS_NULL,
        !spec_entry_exists(p, rid),
        spec_has_space(p),
    ensures
        spec_has_record(spec_insert_result(p, input, rid), rid),
        spec_read_result(spec_insert_result(p, input, rid), rid) == spec_zero_pad(input),
{
    let o = spec_first_free(p);
    let q = spec_insert_result(p, input, rid);
    lemma_insert_result(p, input, rid);
    lemma_find_order_spec(q, rid);
    assert(forall|k: int| 0 <= k < 22 ==> entry_id(p, k) != rid);
    let m = spec_find_order(q, rid);
    assert(m < 22);
    if m != o {
        assert(entry_id(q, m) == entry_id(p, m));
        assert(false);
    }
}

/// Delete makes the identifier absent: after a successful delete, the page
/// no longer holds a record under it, so a subsequent read or delete of
/// the same identifier fails with `NoSuchRecord`.
pub proof fn lemma_delete_then_absent(p: Seq<u8>, rid: u8)
    requires
        page_inv(p),
        spec_has_record(p, rid),
    ensures
        !spec_has_record(spec_delete_result(p, rid), rid),
{
    lemma_delete_result(p, rid);
}

/// Directory reuse order: insert takes the lowest free order, so with two
/// free orders `o1 < o2` the new record lands at or below `o1`, receives
/// that order's record offset, and `o2` stays free.
pub proof fn lemma_insert_reuses_lowest_free_order(
    p: Seq<u8>,
    input: Seq<u8>,
    rid: u8,
    o1: int,
    o2: int,
)
    requires
        page_inv(p),
        input.len() <= 8,
        rid != POS_NULL,
        !spec_entry_exists(p, rid),
        0 <= o1 < o2 < 22,
        !entry_occupied(p, o1),
        !entry_occupied(p, o2),
    ensures
        spec_first_free(p) <= o1,
        entry_id(spec_insert_result(p, input, rid), spec_first_free(p)) == rid,
        entry_off(spec_insert_result(p, input, rid), spec_first_free(p)) as int == 16 + 8
            * spec_first_free(p),
        !entry_occupied(spec_insert_result(p, input, rid), o2),
{
    assert(entry_id(p, o1) == POS_NULL);
    assert(spec_has_space(p));
    lemma_insert_result(p, input, rid);
    assert(spec_first_free(p) <= o1);
}

/// A delete always leaves space: the freed entry guarantees that the next
/// insert of a fitting payload under a fresh identifier succeeds.
pub proof fn lemma_delete_restores_space(p: Seq<u8>, rid: u8)
    requires
        page_inv(p),
        spec_has_record(p, rid),
    ensures
        spec_has_space(spec_delete_result(p, rid)),
{
    lemma_delete_result(p, rid);
}

} // verus!
