//! Page operations: initialize, insert, read, delete, over the whole
//! 256-byte buffer, together with the invariant that keeps the layout
//! self-consistent across them.
//!
//! The buffer is modelled as a `Seq<u8>` of length `PAGE_SIZE`.
//! `page_inv` ties the trailer bytes to the directory: `record_count`
//! equals the number of occupied entries, `has_space` is set exactly while
//! a free entry remains, the hint byte names the lowest free order, every
//! occupied entry stores its own slot's offset, identifiers are unique,
//! and every free record slot is all zero.

use vstd::prelude::*;

use crate::directory::entry_id;
use crate::directory::entry_occupied;
use crate::directory::entry_off;
use crate::directory::get_next_empty_order;
use crate::directory::get_order;
use crate::directory::lemma_find_order_agree;
use crate::directory::lemma_find_order_spec;
use crate::directory::occupy;
use crate::directory::spec_entry_exists;
use crate::directory::spec_find_order;
use crate::directory::spec_first_free;
use crate::directory::vacate;
use crate::layout::MAX_NUM_RECORDS;
use crate::layout::PAGE_SIZE;
use crate::layout::POS_IS_THERE_SPACE;
use crate::layout::POS_NEXT_ORDER;
use crate::layout::POS_NULL;
use crate::layout::POS_NUM_RECORDS;
use crate::layout::RECORD_SIZE;
use crate::layout::get_record_offset;
use crate::records::clear_record;
use crate::records::get_record;
use crate::records::spec_clear_record;
use crate::records::spec_record_at;
use crate::records::spec_write_record;
use crate::records::spec_zero_pad;
use crate::records::write_record;
use crate::records::zero_record;

verus! {

/// The recoverable failures of the page operations. Storage trouble is
/// reported by whoever persists the buffer; the in-memory operations
/// themselves never raise it.
#[derive(Debug, Clone, Copy, PartialEq, Eq, Structural)]
pub enum PageError {
    /// Insert attempted with no free directory entry left.
    PageFull,
    /// Read or delete named an identifier not present in the directory.
    NoSuchRecord(u8),
    /// Insert offered a payload longer than one record slot.
    PayloadTooLarge(usize),
    /// The underlying read or write of the page buffer failed.
    StorageFailure,
}

/// How many of the directory entries below order `n` are occupied.
pub open spec fn count_occupied_up_to(p: Seq<u8>, n: int) -> int
    decreases n,
{
    if n <= 0 {
        0
    } else {
        count_occupied_up_to(p, n - 1) + if entry_occupied(p, n - 1) {
            1int
        } else {
            0int
        }
    }
}

/// The number of records the page holds: its occupied directory entries.
pub open spec fn spec_num_records(p: Seq<u8>) -> int {
    count_occupied_up_to(p, 22)
}

/// Whether at least one directory entry is free.
pub open spec fn spec_has_space(p: Seq<u8>) -> bool {
    spec_entry_exists(p, POS_NULL)
}

/// Whether the page holds a record under `rid`. The sentinel value never
/// names a record.
pub open spec fn spec_has_record(p: Seq<u8>, rid: u8) -> bool {
    rid != POS_NULL && spec_entry_exists(p, rid)
}

/// Well-formedness of the whole page.
pub open spec fn page_inv(p: Seq<u8>) -> bool {
    &&& p.len() == PAGE_SIZE
    &&& forall|o: int|
        0 <= o < 22 && entry_occupied(p, o) ==> entry_off(p, o) as int == 16 + 8 * o
    &&& forall|o1: int, o2: int|
        0 <= o1 < o2 < 22 && entry_occupied(p, o1) && entry_occupied(p, o2) ==> entry_id(p, o1)
            != entry_id(p, o2)
    &&& p[253] as int == spec_num_records(p)
    &&& (p[255] == 1 <==> spec_has_space(p))
    &&& p[255] == 0 || p[255] == 1
    &&& (spec_has_space(p) ==> p[254] as int == spec_first_free(p))
    &&& (!spec_has_space(p) ==> p[254] == POS_NULL)
    &&& forall|o: int|
        0 <= o < 22 && !entry_occupied(p, o) ==> spec_record_at(p, o) == zero_record()
}

/// The count of occupied entries below `n` lies in `[0, n]`; it reaches
/// `n` exactly when all of them are occupied, and 0 exactly when none is.
pub proof fn lemma_count_bounds(p: Seq<u8>, n: int)
    requires
        0 <= n <= 22,
    ensures
        0 <= count_occupied_up_to(p, n) <= n,
        count_occupied_up_to(p, n) == n <==> forall|o: int| 0 <= o < n ==> entry_occupied(p, o),
        count_occupied_up_to(p, n) == 0 <==> forall|o: int| 0 <= o < n ==> !entry_occupied(p, o),
    decreases n,
{
    if n > 0 {
        lemma_count_bounds(p, n - 1);
    }
}

/// Two pages whose directory entries agree everywhere below `n` except
/// possibly at order `j` have counts that differ exactly by the change at
/// `j`.
pub proof fn lemma_count_agree_except(p1: Seq<u8>, p2: Seq<u8>, n: int, j: int)
    requires
        0 <= n <= 22,
        0 <= j,
        forall|o: int| 0 <= o < n && o != j ==> entry_id(p2, o) == entry_id(p1, o),
    ensures
        j < n ==> count_occupied_up_to(p2, n) == count_occupied_up_to(p1, n) + (
        if entry_occupied(p2, j) {
            1int
        } else {
            0int
        }) - (
        if entry_occupied(p1, j) {
            1int
        } else {
            0int
        }),
        j >= n ==> count_occupied_up_to(p2, n) == count_occupied_up_to(p1, n),
    decreases n,
{
    if n > 0 {
        lemma_count_agree_except(p1, p2, n - 1, j);
    }
}

/// The page has a free entry exactly while it holds fewer than
/// `MAX_NUM_RECORDS` records.
pub proof fn lemma_space_iff_below_capacity(p: Seq<u8>)
    ensures
        0 <= spec_num_records(p) <= 22,
        spec_has_space(p) <==> spec_num_records(p) < 22,
{
    lemma_count_bounds(p, 22);
    if spec_has_space(p) {
        let o = choose|o: int| 0 <= o < 22 && entry_id(p, o) == POS_NULL;
        assert(!entry_occupied(p, o));
    }
}

/// The freshly initialized page: all zero but for the `has_space` flag.
pub open spec fn spec_initial_page() -> Seq<u8> {
    Seq::new(256, |i: int| if i == 255 { 1u8 } else { 0u8 })
}

/// Creates a fresh page: a zero-filled buffer with `record_count = 0`,
/// `next_hint_order = 0` and the `has_space` flag set.
pub fn do_restart() -> (r: Vec<u8>)
    ensures
        r@ == spec_initial_page(),
        page_inv(r@),
        spec_num_records(r@) == 0,
        spec_has_space(r@),
        forall|o: int| 0 <= o < 22 ==> !entry_occupied(r@, o),
{
    let mut empty_page: Vec<u8> = Vec::new();
    let mut i: usize = 0;
    while i < PAGE_SIZE
        invariant
            i <= PAGE_SIZE,
            empty_page@.len() == i,
            forall|k: int| 0 <= k < i ==> empty_page@[k] == 0u8,
        decreases PAGE_SIZE - i,
    {
        empty_page.push(0u8);
        i = i + 1;
    }
    empty_page[POS_IS_THERE_SPACE] = 1;
    proof {
        assert(empty_page@ =~= spec_initial_page());
        let p = empty_page@;
        assert forall|o: int| 0 <= o < 22 implies !entry_occupied(p, o) by {
            assert(p[238 - 2 * o] == 0u8);
        }
        lemma_count_bounds(p, 22);
        lemma_find_order_spec(p, POS_NULL);
        assert(entry_id(p, 0) == POS_NULL);
        assert(spec_entry_exists(p, POS_NULL));
        assert(spec_first_free(p) == 0) by {
            assert(forall|k: int| 0 <= k < spec_first_free(p) ==> entry_id(p, k) != POS_NULL);
        }
        assert forall|o: int|
            0 <= o < 22 && !entry_occupied(p, o) implies spec_record_at(p, o)
            == zero_record() by {
            assert(spec_record_at(p, o) =~= zero_record());
        }
    }
    empty_page
}

/// Reserved scan operation; deliberately a no-op for now.
pub fn do_fullscan(_page: &Vec<u8>) {
}

/// The raw slot bytes that a lookup of `rid` returns: the record at the
/// lowest order whose entry carries `rid`.
pub open spec fn spec_read_result(p: Seq<u8>, rid: u8) -> Seq<u8> {
    spec_record_at(p, spec_find_order(p, rid))
}

/// Looks up `request_rid` in the directory and returns a copy of its raw
/// 8-byte record, zero padding included. Pure: the page is not touched.
pub fn do_read(page: &Vec<u8>, request_rid: u8) -> (r: Result<Vec<u8>, PageError>)
    requires
        page_inv(page@),
    ensures
        spec_has_record(page@, request_rid) ==> (r matches Ok(v) && v@ == spec_read_result(
            page@,
            request_rid,
        ) && v@.len() == RECORD_SIZE),
        !spec_has_record(page@, request_rid) ==> r == Err::<Vec<u8>, PageError>(
            PageError::NoSuchRecord(request_rid),
        ),
{
    proof {
        lemma_find_order_spec(page@, request_rid);
    }
    match get_order(request_rid, page) {
        Ok(order) => {
            let record_offset = get_record_offset(order);
            match get_record(record_offset, page) {
                Some(record) => Ok(record),
                None => Err(PageError::NoSuchRecord(request_rid)),
            }
        },
        Err(e) => Err(e),
    }
}

/// Decides `page_inv` for a buffer of unknown provenance, such as one
/// loaded from storage: callers can reject a damaged page instead of
/// operating on it.
pub fn is_well_formed(page: &Vec<u8>) -> (r: bool)
    ensures
        r == page_inv(page@),
{
    if page.len() != PAGE_SIZE {
        return false;
    }
    let ghost p = page@;
    let mut count: usize = 0;
    let mut o: usize = 0;
    while o < MAX_NUM_RECORDS
        invariant
            p == page@,
            p.len() == PAGE_SIZE,
            o <= MAX_NUM_RECORDS,
            count <= o,
            count as int == count_occupied_up_to(p, o as int),
            forall|k: int|
                0 <= k < o && entry_occupied(p, k) ==> entry_off(p, k) as int == 16 + 8 * k,
            forall|k1: int, k2: int|
                0 <= k1 < k2 < o && entry_occupied(p, k1) && entry_occupied(p, k2) ==> entry_id(
                    p,
                    k1,
                ) != entry_id(p, k2),
            forall|k: int|
                0 <= k < o && !entry_occupied(p, k) ==> spec_record_at(p, k) == zero_record(),
        decreases MAX_NUM_RECORDS - o,
    {
        let id = page[238 - 2 * o];
        if id != POS_NULL {
            if page[239 - 2 * o] as usize != 16 + 8 * o {
                proof {
                    assert(entry_occupied(p, o as int) && entry_off(p, o as int) as int != 16 + 8
                        * o);
                }
                return false;
            }
            let mut k: usize = 0;
            while k < o
                invariant
                    p == page@,
                    p.len() == PAGE_SIZE,
                    k <= o < MAX_NUM_RECORDS,
                    id == entry_id(p, o as int),
                    id != POS_NULL,
                    forall|j: int| 0 <= j < k ==> entry_id(p, j) != id,
                decreases o - k,
            {
                if page[238 - 2 * k] == id {
                    proof {
                        assert(entry_occupied(p, k as int) && entry_occupied(p, o as int)
                            && entry_id(p, k as int) == entry_id(p, o as int));
                    }
                    return false;
                }
                k = k + 1;
            }
            count = count + 1;
        } else {
            let mut i: usize = 0;
            while i < RECORD_SIZE
                invariant
                    p == page@,
                    p.len() == PAGE_SIZE,
                    i <= RECORD_SIZE,
                    o < MAX_NUM_RECORDS,
                    !entry_occupied(p, o as int),
                    forall|j: int| 16 + 8 * o <= j < 16 + 8 * o + i ==> p[j] == 0u8,
                decreases RECORD_SIZE - i,
            {
                if page[16 + 8 * o + i] != 0 {
                    proof {
                        assert(spec_record_at(p, o as int)[i as int] == p[16 + 8 * o + i as int]);
                        assert(zero_record()[i as int] == 0u8);
                        assert(spec_record_at(p, o as int) != zero_record());
                    }
                    return false;
                }
                i = i + 1;
            }
            proof {
                assert(spec_record_at(p, o as int) =~= zero_record());
            }
        }
        o = o + 1;
    }
    proof {
        lemma_space_iff_below_capacity(p);
    }
    if page[POS_NUM_RECORDS] as usize != count {
        return false;
    }
    if count < MAX_NUM_RECORDS {
        if page[POS_IS_THERE_SPACE] != 1 {
            return false;
        }
        proof {
            lemma_find_order_spec(p, POS_NULL);
        }
        match get_next_empty_order(page) {
            Some(f) => {
                if page[POS_NEXT_ORDER] as usize != f {
                    return false;
                }
            },
            None => {
                // Unreachable: fewer records than slots means a free entry.
                return false;
            },
        }
    } else {
        if page[POS_IS_THERE_SPACE] != 0 {
            return false;
        }
        if page[POS_NEXT_ORDER] != POS_NULL {
            return false;
        }
    }
    true
}

/// The page with the directory entry at `order` marked occupied by `rid`,
/// storing the offset of its record slot.
pub open spec fn spec_occupy(p: Seq<u8>, order: int, rid: u8) -> Seq<u8> {
    p.update(238 - 2 * order, rid).update(239 - 2 * order, (16 + 8 * order) as u8)
}

/// The page with the directory entry at `order` zeroed.
pub open spec fn spec_vacate(p: Seq<u8>, order: int) -> Seq<u8> {
    p.update(238 - 2 * order, POS_NULL).update(239 - 2 * order, POS_NULL)
}

/// The page with the three trailer bytes replaced.
pub open spec fn spec_set_trailer(p: Seq<u8>, count: u8, hint: u8, space: u8) -> Seq<u8> {
    p.update(253, count).update(254, hint).update(255, space)
}

/// The page after a successful insert of `input` under `rid`: the payload
/// written into the slot at the lowest free order, that entry occupied,
/// the count raised, and the hint and flag recomputed by a fresh scan of
/// the updated directory.
pub open spec fn spec_insert_result(p: Seq<u8>, input: Seq<u8>, rid: u8) -> Seq<u8> {
    let o = spec_first_free(p);
    let q = spec_occupy(spec_write_record(p, o, input), o, rid);
    let f = spec_first_free(q);
    if f < 22 {
        spec_set_trailer(q, (p[253] + 1) as u8, f as u8, 1u8)
    } else {
        spec_set_trailer(q, (p[253] + 1) as u8, POS_NULL, 0u8)
    }
}

/// The page after a successful delete of `rid`: the record slot zeroed,
/// its entry vacated, the count lowered, the hint recomputed, and the
/// `has_space` flag set (freeing a slot always leaves space).
pub open spec fn spec_delete_result(p: Seq<u8>, rid: u8) -> Seq<u8> {
    let o = spec_find_order(p, rid);
    let q = spec_vacate(spec_clear_record(p, o), o);
    spec_set_trailer(q, (p[253] - 1) as u8, spec_first_free(q) as u8, 1u8)
}

/// What a successful insert does to a well-formed page: it keeps the page
/// well formed, takes the lowest free order (every order below it is
/// occupied), stores the payload there right-padded with zero bytes,
/// raises the count by one, and leaves every other entry and record slot
/// as it was.
pub proof fn lemma_insert_result(p: Seq<u8>, input: Seq<u8>, rid: u8)
    requires
        page_inv(p),
        input.len() <= 8,
        rid != POS_NULL,
        !spec_entry_exists(p, rid),
        spec_has_space(p),
    ensures
        page_inv(spec_insert_result(p, input, rid)),
        spec_num_records(spec_insert_result(p, input, rid)) == spec_num_records(p) + 1,
        0 <= spec_first_free(p) < 22,
        !entry_occupied(p, spec_first_free(p)),
        forall|k: int| 0 <= k < spec_first_free(p) ==> entry_occupied(p, k),
        entry_id(spec_insert_result(p, input, rid), spec_first_free(p)) == rid,
        entry_off(spec_insert_result(p, input, rid), spec_first_free(p)) as int == 16 + 8
            * spec_first_free(p),
        spec_record_at(spec_insert_result(p, input, rid), spec_first_free(p)) == spec_zero_pad(
            input,
        ),
        forall|k: int|
            0 <= k < 22 && k != spec_first_free(p) ==> entry_id(
                spec_insert_result(p, input, rid),
                k,
            ) == entry_id(p, k),
        forall|k: int|
            0 <= k < 22 && k != spec_first_free(p) ==> spec_record_at(
                spec_insert_result(p, input, rid),
                k,
            ) == spec_record_at(p, k),
        spec_has_record(spec_insert_result(p, input, rid), rid),
        spec_has_space(spec_insert_result(p, input, rid)) <==> spec_num_records(p) + 1 < 22,
{
    let o = spec_first_free(p);
    lemma_find_order_spec(p, POS_NULL);
    assert(0 <= o < 22);
    assert(!entry_occupied(p, o));
    let w = spec_write_record(p, o, input);
    let q = spec_occupy(w, o, rid);
    let f = spec_first_free(q);
    let r = spec_insert_result(p, input, rid);
    assert(r.len() == 256);

    // The directory after the occupy: only the entry at `o` changed.
    assert(entry_id(q, o) == rid);
    assert(entry_off(q, o) as int == 16 + 8 * o);
    assert forall|k: int| 0 <= k < 22 && k != o implies entry_id(q, k) == entry_id(p, k)
        && entry_off(q, k) == entry_off(p, k) by {
        assert(w[238 - 2 * k] == p[238 - 2 * k]);
        assert(w[239 - 2 * k] == p[239 - 2 * k]);
    }
    // The trailer writes leave the directory and the record area alone.
    assert forall|k: int| 0 <= k < 22 implies entry_id(r, k) == entry_id(q, k) && entry_off(r, k)
        == entry_off(q, k) by {}
    assert forall|k: int| 0 <= k < 22 implies spec_record_at(r, k) == spec_record_at(q, k) by {
        assert(spec_record_at(r, k) =~= spec_record_at(q, k));
    }

    // Record slots other than `o` are untouched.
    assert forall|k: int| 0 <= k < 22 && k != o implies spec_record_at(q, k) == spec_record_at(
        p,
        k,
    ) by {
        assert(spec_record_at(q, k) =~= spec_record_at(p, k));
    }

    // The slot at `o` was all zero, so it now reads as the padded payload.
    assert(spec_record_at(p, o) == zero_record());
    assert forall|j: int| 16 + 8 * o <= j < 16 + 8 * o + 8 implies p[j] == 0u8 by {
        assert(spec_record_at(p, o)[j - (16 + 8 * o)] == p[j]);
        assert(zero_record()[j - (16 + 8 * o)] == 0u8);
    }
    assert(spec_record_at(q, o) =~= spec_zero_pad(input));

    // Counting: exactly the entry at `o` flipped from free to occupied.
    lemma_space_iff_below_capacity(p);
    lemma_count_agree_except(p, r, 22, o);
    assert(spec_num_records(r) == spec_num_records(p) + 1);

    // No entry of `p` carries `rid`, so identifiers stay unique.
    assert(forall|k: int| 0 <= k < 22 ==> entry_id(p, k) != rid);
    assert forall|o1: int, o2: int|
        0 <= o1 < o2 < 22 && entry_occupied(r, o1) && entry_occupied(r, o2) implies entry_id(
        r,
        o1,
    ) != entry_id(r, o2) by {
        if o1 != o && o2 != o {
            assert(entry_occupied(p, o1) && entry_occupied(p, o2));
        }
    }

    // The rescan and the trailer.
    lemma_find_order_spec(q, POS_NULL);
    lemma_find_order_agree(q, r, POS_NULL, 0);
    assert(spec_first_free(r) == f);
    if f < 22 {
        assert(entry_id(q, f) == POS_NULL);
        assert(entry_id(r, f) == POS_NULL);
        assert(spec_entry_exists(r, POS_NULL));
        assert(r[254] as int == f);
        assert(r[255] == 1u8);
    } else {
        assert forall|k: int| 0 <= k < 22 implies entry_id(r, k) != POS_NULL by {}
        assert(!spec_entry_exists(r, POS_NULL));
        assert(r[255] == 0u8);
        assert(r[254] == POS_NULL);
    }
    assert(r[253] as int == spec_num_records(r));
    lemma_space_iff_below_capacity(r);
    assert(spec_entry_exists(r, rid));
}

/// What a successful delete does to a well-formed page: it keeps the page
/// well formed, zeroes the slot of the deleted record, frees its entry so
/// that the identifier is no longer present, lowers the count by one,
/// guarantees space for the next insert, and leaves every other entry and
/// record slot as it was.
pub proof fn lemma_delete_result(p: Seq<u8>, rid: u8)
    requires
        page_inv(p),
        spec_has_record(p, rid),
    ensures
        page_inv(spec_delete_result(p, rid)),
        0 <= spec_find_order(p, rid) < 22,
        entry_id(p, spec_find_order(p, rid)) == rid,
        spec_num_records(spec_delete_result(p, rid)) == spec_num_records(p) - 1,
        !entry_occupied(spec_delete_result(p, rid), spec_find_order(p, rid)),
        spec_record_at(spec_delete_result(p, rid), spec_find_order(p, rid)) == zero_record(),
        !spec_entry_exists(spec_delete_result(p, rid), rid),
        spec_has_space(spec_delete_result(p, rid)),
        forall|k: int|
            0 <= k < 22 && k != spec_find_order(p, rid) ==> entry_id(spec_delete_result(p, rid), k)
                == entry_id(p, k),
        forall|k: int|
            0 <= k < 22 && k != spec_find_order(p, rid) ==> spec_record_at(
                spec_delete_result(p, rid),
                k,
            ) == spec_record_at(p, k),
{
    let o = spec_find_order(p, rid);
    lemma_find_order_spec(p, rid);
    assert(0 <= o < 22);
    assert(entry_id(p, o) == rid);
    assert(entry_occupied(p, o));
    let c = spec_clear_record(p, o);
    let q = spec_vacate(c, o);
    let f = spec_first_free(q);
    let r = spec_delete_result(p, rid);
    assert(r.len() == 256);

    // The directory after the vacate: only the entry at `o` changed.
    assert(entry_id(q, o) == POS_NULL);
    assert forall|k: int| 0 <= k < 22 && k != o implies entry_id(q, k) == entry_id(p, k)
        && entry_off(q, k) == entry_off(p, k) by {
        assert(c[238 - 2 * k] == p[238 - 2 * k]);
        assert(c[239 - 2 * k] == p[239 - 2 * k]);
    }
    // The trailer writes leave the directory and the record area alone.
    assert forall|k: int| 0 <= k < 22 implies entry_id(r, k) == entry_id(q, k) && entry_off(r, k)
        == entry_off(q, k) by {}
    assert forall|k: int| 0 <= k < 22 implies spec_record_at(r, k) == spec_record_at(q, k) by {
        assert(spec_record_at(r, k) =~= spec_record_at(q, k));
    }

    // Record slots other than `o` are untouched, and the one at `o` is
    // now all zero.
    assert forall|k: int| 0 <= k < 22 && k != o implies spec_record_at(q, k) == spec_record_at(
        p,
        k,
    ) by {
        assert(spec_record_at(q, k) =~= spec_record_at(p, k));
    }
    assert(spec_record_at(q, o) =~= zero_record());

    // Counting: exactly the entry at `o` flipped from occupied to free.
    lemma_count_bounds(p, 22);
    assert(spec_num_records(p) >= 1);
    lemma_count_agree_except(p, r, 22, o);
    assert(spec_num_records(r) == spec_num_records(p) - 1);

    // The identifier was unique, so after freeing its entry it is gone.
    assert forall|k: int| 0 <= k < 22 implies entry_id(r, k) != rid by {
        if k != o {
            if k < o {
                assert(entry_occupied(p, k) && entry_occupied(p, o) ==> entry_id(p, k)
                    != entry_id(p, o));
            } else {
                assert(entry_occupied(p, o) && entry_occupied(p, k) ==> entry_id(p, o)
                    != entry_id(p, k));
            }
        }
    }
    assert(!spec_entry_exists(r, rid));

    // Identifiers of the remaining entries stay unique.
    assert forall|o1: int, o2: int|
        0 <= o1 < o2 < 22 && entry_occupied(r, o1) && entry_occupied(r, o2) implies entry_id(
        r,
        o1,
    ) != entry_id(r, o2) by {
        assert(entry_occupied(p, o1) && entry_occupied(p, o2));
    }

    // The rescan and the trailer: the freed entry guarantees space.
    lemma_find_order_spec(q, POS_NULL);
    assert(spec_entry_exists(q, POS_NULL));
    assert(f < 22);
    lemma_find_order_agree(q, r, POS_NULL, 0);
    assert(spec_first_free(r) == f);
    assert(entry_id(r, o) == POS_NULL);
    assert(spec_entry_exists(r, POS_NULL));
    assert(r[254] as int == f);
    assert(r[255] == 1u8);
    assert(r[253] as int == spec_num_records(r));
}

/// Inserts `input` under the fresh identifier `rid`: writes the payload
/// into the record slot at the lowest free order, occupies that directory
/// entry, raises the count and recomputes the hint and the `has_space`
/// flag by probing for another free order. A payload longer than a record
/// slot is rejected with `PayloadTooLarge`, a full page with `PageFull`;
/// either rejection leaves the page untouched.
pub fn insert(page: &mut Vec<u8>, input: &[u8], rid: u8) -> (r: Result<(), PageError>)
    requires
        page_inv(old(page)@),
        rid != POS_NULL,
        !spec_entry_exists(old(page)@, rid),
    ensures
        page_inv(final(page)@),
        input@.len() > RECORD_SIZE ==> r == Err::<(), PageError>(
            PageError::PayloadTooLarge(input@.len() as usize),
        ) && final(page)@ == old(page)@,
        input@.len() <= RECORD_SIZE && !spec_has_space(old(page)@) ==> r == Err::<(), PageError>(
            PageError::PageFull,
        ) && final(page)@ == old(page)@,
        input@.len() <= RECORD_SIZE && spec_has_space(old(page)@) ==> r == Ok::<(), PageError>(())
            && final(page)@ == spec_insert_result(old(page)@, input@, rid),
{
    if input.len() > RECORD_SIZE {
        return Err(PageError::PayloadTooLarge(input.len()));
    }
    if page[POS_IS_THERE_SPACE] == 0 {
        return Err(PageError::PageFull);
    }
    let ghost p0 = old(page)@;
    proof {
        lemma_insert_result(p0, input@, rid);
    }
    let order = match get_next_empty_order(page) {
        Some(o) => o,
        None => {
            return Err(PageError::PageFull);
        },
    };
    let record_offset = get_record_offset(order);
    write_record(page, order, input);
    occupy(page, order, rid, record_offset as u8);
    let ghost q = spec_occupy(spec_write_record(p0, order as int, input@), order as int, rid);
    proof {
        assert(page@ == q);
        lemma_find_order_spec(q, POS_NULL);
    }
    match get_next_empty_order(page) {
        Some(next_order) => {
            page[POS_NEXT_ORDER] = next_order as u8;
            page[POS_IS_THERE_SPACE] = 1;
        },
        None => {
            page[POS_NEXT_ORDER] = POS_NULL;
            page[POS_IS_THERE_SPACE] = 0;
        },
    }
    let count = page[POS_NUM_RECORDS];
    proof {
        lemma_space_iff_below_capacity(p0);
        assert(page[POS_NUM_RECORDS as int] == p0[253]);
        assert(p0[253] as int == spec_num_records(p0) < 22);
    }
    page[POS_NUM_RECORDS] = count + 1;
    proof {
        assert(page@ =~= spec_insert_result(p0, input@, rid));
    }
    Ok(())
}

/// Deletes the record named by `request_rid`: zeroes its record slot,
/// vacates its directory entry, lowers the count, recomputes the hint and
/// sets `has_space` (freeing a slot always leaves space). An absent
/// identifier is rejected with `NoSuchRecord` and leaves the page
/// untouched.
pub fn delete(page: &mut Vec<u8>, request_rid: u8) -> (r: Result<(), PageError>)
    requires
        page_inv(old(page)@),
    ensures
        page_inv(final(page)@),
        spec_has_record(old(page)@, request_rid) ==> r == Ok::<(), PageError>(()) && final(page)@
            == spec_delete_result(old(page)@, request_rid),
        !spec_has_record(old(page)@, request_rid) ==> r == Err::<(), PageError>(
            PageError::NoSuchRecord(request_rid),
        ) && final(page)@ == old(page)@,
{
    let ghost p0 = old(page)@;
    let order = match get_order(request_rid, page) {
        Ok(o) => o,
        Err(e) => {
            return Err(e);
        },
    };
    proof {
        lemma_delete_result(p0, request_rid);
    }
    clear_record(page, order);
    vacate(page, order);
    let ghost q = spec_vacate(spec_clear_record(p0, order as int), order as int);
    proof {
        assert(page@ == q);
        assert(entry_id(q, order as int) == POS_NULL);
        assert(spec_entry_exists(q, POS_NULL));
        lemma_find_order_spec(q, POS_NULL);
    }
    let next_order = match get_next_empty_order(page) {
        Some(n) => n,
        None => {
            // Unreachable: the entry just vacated is free.
            0
        },
    };
    page[POS_NEXT_ORDER] = next_order as u8;
    let count = page[POS_NUM_RECORDS];
    proof {
        assert(page@[253] == p0[253]);
        assert(p0[253] as int == spec_num_records(p0) >= 1);
    }
    page[POS_NUM_RECORDS] = count - 1;
    page[POS_IS_THERE_SPACE] = 1;
    proof {
        assert(page@ =~= spec_delete_result(p0, request_rid));
    }
    Ok(())
}

} // verus!
