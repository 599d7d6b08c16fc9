//! The record area: 22 fixed slots of 8 bytes each, addressed by order.
//!
//! `write_record` stores a payload of at most `RECORD_SIZE` bytes and
//! leaves the rest of the slot untouched; it relies on the page-wide
//! invariant that a free slot is all zero, so that the stored record reads
//! back as the payload right-padded with zero bytes. `clear_record`
//! restores the all-zero state on delete.

use vstd::prelude::*;

use crate::layout::MAX_NUM_RECORDS;
use crate::layout::PAGE_SIZE;
use crate::layout::POS_START_RECORDS;
use crate::layout::RECORD_SIZE;
use crate::layout::spec_record_offset;

verus! {

/// The 8 bytes of the record slot at `order`.
pub open spec fn spec_record_at(p: Seq<u8>, order: int) -> Seq<u8> {
    p.subrange(spec_record_offset(order), spec_record_offset(order) + 8)
}

/// A payload right-padded with zero bytes to one full record slot.
pub open spec fn spec_zero_pad(input: Seq<u8>) -> Seq<u8> {
    Seq::new(8, |i: int| if i < input.len() { input[i] } else { 0u8 })
}

/// An all-zero record slot.
pub open spec fn zero_record() -> Seq<u8> {
    Seq::new(8, |i: int| 0u8)
}

/// The page after writing `input` into the slot at `order`: the first
/// `input.len()` bytes of the slot are replaced, everything else is as it
/// was.
pub open spec fn spec_write_record(p: Seq<u8>, order: int, input: Seq<u8>) -> Seq<u8> {
    Seq::new(
        p.len(),
        |i: int|
            if spec_record_offset(order) <= i < spec_record_offset(order) + input.len() {
                input[i - spec_record_offset(order)]
            } else {
                p[i]
            },
    )
}

/// The page after zeroing the whole slot at `order`.
pub open spec fn spec_clear_record(p: Seq<u8>, order: int) -> Seq<u8> {
    Seq::new(
        p.len(),
        |i: int|
            if spec_record_offset(order) <= i < spec_record_offset(order) + 8 {
                0u8
            } else {
                p[i]
            },
    )
}

/// Copies the payload into the record slot at `order`, leaving the slot's
/// remaining bytes untouched.
pub fn write_record(page: &mut Vec<u8>, order: usize, input: &[u8])
    requires
        old(page)@.len() == PAGE_SIZE,
        order < MAX_NUM_RECORDS,
        input@.len() <= RECORD_SIZE,
    ensures
        final(page)@ == spec_write_record(old(page)@, order as int, input@),
{
    let record_offset = POS_START_RECORDS + RECORD_SIZE * order;
    let mut i: usize = 0;
    while i < input.len()
        invariant
            page@.len() == PAGE_SIZE,
            order < MAX_NUM_RECORDS,
            input@.len() <= RECORD_SIZE,
            record_offset == spec_record_offset(order as int),
            i <= input@.len(),
            forall|k: int| 0 <= k < i ==> page@[record_offset + k] == input@[k],
            forall|j: int|
                0 <= j < PAGE_SIZE && !(record_offset <= j < record_offset + i) ==> page@[j]
                    == old(page)@[j],
        decreases input@.len() - i,
    {
        page[record_offset + i] = input[i];
        i = i + 1;
    }
    proof {
        assert(final(page)@ =~= spec_write_record(old(page)@, order as int, input@));
    }
}

/// Returns a copy of the raw 8-byte slot starting at `offset`, zero
/// padding included; interpreting the padding is the caller's concern.
pub fn get_record(offset: usize, page: &Vec<u8>) -> (r: Option<Vec<u8>>)
    requires
        page@.len() == PAGE_SIZE,
        offset + RECORD_SIZE <= PAGE_SIZE,
    ensures
        r matches Some(v) && v@ == page@.subrange(offset as int, offset + RECORD_SIZE),
{
    let mut v: Vec<u8> = Vec::new();
    let mut i: usize = 0;
    while i < RECORD_SIZE
        invariant
            page@.len() == PAGE_SIZE,
            offset + RECORD_SIZE <= PAGE_SIZE,
            i <= RECORD_SIZE,
            v@.len() == i,
            forall|k: int| 0 <= k < i ==> v@[k] == page@[offset + k],
        decreases RECORD_SIZE - i,
    {
        let b = page[offset + i];
        v.push(b);
        i = i + 1;
    }
    proof {
        assert(v@ =~= page@.subrange(offset as int, offset + RECORD_SIZE));
    }
    Some(v)
}

/// Overwrites the record slot at `order` with zero bytes.
pub fn clear_record(page: &mut Vec<u8>, order: usize)
    requires
        old(page)@.len() == PAGE_SIZE,
        order < MAX_NUM_RECORDS,
    ensures
        final(page)@ == spec_clear_record(old(page)@, order as int),
{
    let record_offset = POS_START_RECORDS + RECORD_SIZE * order;
    let mut i: usize = 0;
    while i < RECORD_SIZE
        invariant
            page@.len() == PAGE_SIZE,
            order < MAX_NUM_RECORDS,
            record_offset == spec_record_offset(order as int),
            i <= RECORD_SIZE,
            forall|j: int| record_offset <= j < record_offset + i ==> page@[j] == 0u8,
            forall|j: int|
                0 <= j < PAGE_SIZE && !(record_offset <= j < record_offset + i) ==> page@[j]
                    == old(page)@[j],
        decreases RECORD_SIZE - i,
    {
        page[record_offset + i] = 0u8;
        i = i + 1;
    }
    proof {
        assert(final(page)@ =~= spec_clear_record(old(page)@, order as int));
    }
}

} // verus!
