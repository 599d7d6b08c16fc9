use slotted_page::layout::BOUNDARY;
use slotted_page::layout::MAX_NUM_RECORDS;
use slotted_page::layout::PAGE_SIZE;
use slotted_page::layout::POS_IS_THERE_SPACE;
use slotted_page::layout::POS_NEXT_ORDER;
use slotted_page::layout::POS_NUM_RECORDS;
use slotted_page::layout::POS_START_OF_SLOTS;
use slotted_page::layout::POS_START_RECORDS;
use slotted_page::layout::RECORD_SIZE;
use slotted_page::layout::get_record_offset;
use slotted_page::layout::get_slot_offset;
use slotted_page::directory::get_next_empty_order;
use slotted_page::directory::get_order;
use slotted_page::page::PageError;
use slotted_page::page::delete;
use slotted_page::page::do_read;
use slotted_page::page::do_restart;
use slotted_page::page::insert;
use slotted_page::page::is_well_formed;

#[test]
fn new_page() {
    let page = do_restart();
    assert_eq!(page.len(), PAGE_SIZE);
    assert_eq!(page[PAGE_SIZE - 1], 1);
}

#[test]
fn insert_record() {
    let mut page = do_restart();

    let input = "hello";
    insert(&mut page, input.as_bytes(), 0x1f).unwrap();

    assert_eq!(page[POS_START_OF_SLOTS - 1], 0x1f);
    assert_eq!(
        &page[POS_START_RECORDS..POS_START_RECORDS + input.len()],
        input.as_bytes()
    );
}

#[test]
fn delete_existing_record() {
    let mut page = do_restart();
    insert(&mut page, "aaaa".as_bytes(), 0x01).unwrap();
    insert(&mut page, "bbbb".as_bytes(), 0x02).unwrap();
    insert(&mut page, "cccc".as_bytes(), 0x03).unwrap();
    assert_eq!(page[POS_START_OF_SLOTS - 3], 0x02);
    assert_eq!(
        &page[POS_START_RECORDS + RECORD_SIZE..POS_START_RECORDS + RECORD_SIZE * 2],
        "bbbb\0\0\0\0".as_bytes()
    );

    delete(&mut page, 0x02).unwrap();

    assert_eq!(page[POS_START_OF_SLOTS - 3], 0x00);
    assert_eq!(
        &page[POS_START_RECORDS + RECORD_SIZE..POS_START_RECORDS + RECORD_SIZE * 2],
        "\0\0\0\0\0\0\0\0".as_bytes()
    );
}

#[test]
fn initialization_yields_empty_page() {
    let page = do_restart();
    assert_eq!(page.len(), PAGE_SIZE);
    assert_eq!(page[POS_NUM_RECORDS], 0);
    assert_eq!(page[POS_NEXT_ORDER], 0);
    assert_eq!(page[POS_IS_THERE_SPACE], 1);
    for i in POS_START_RECORDS..BOUNDARY {
        assert_eq!(page[i], 0);
    }
}

#[test]
fn offset_formulas() {
    assert_eq!(get_record_offset(0), 16);
    assert_eq!(get_record_offset(3), 40);
    assert_eq!(get_record_offset(21), 184);
    assert_eq!(get_slot_offset(0), 239);
    assert_eq!(get_slot_offset(3), 233);
    assert_eq!(get_slot_offset(21), 197);
    assert_eq!(BOUNDARY, 192);
}

#[test]
fn insert_read_round_trip() {
    let mut page = do_restart();
    insert(&mut page, "abc".as_bytes(), 5).unwrap();
    let record = do_read(&page, 5).unwrap();
    assert_eq!(record, b"abc\0\0\0\0\0".to_vec());
}

#[test]
fn insert_full_record_round_trip() {
    let mut page = do_restart();
    insert(&mut page, "12345678".as_bytes(), 7).unwrap();
    let record = do_read(&page, 7).unwrap();
    assert_eq!(record, b"12345678".to_vec());
}

#[test]
fn insert_empty_payload_round_trip() {
    let mut page = do_restart();
    insert(&mut page, "".as_bytes(), 9).unwrap();
    let record = do_read(&page, 9).unwrap();
    assert_eq!(record, vec![0u8; RECORD_SIZE]);
}

#[test]
fn capacity_allows_22_inserts_then_page_full() {
    let mut page = do_restart();
    for i in 0..MAX_NUM_RECORDS {
        let rid = (i + 1) as u8;
        let payload = [rid; 4];
        assert_eq!(insert(&mut page, &payload, rid), Ok(()));
        assert_eq!(page[POS_NUM_RECORDS] as usize, i + 1);
    }
    assert_eq!(page[POS_IS_THERE_SPACE], 0);
    assert_eq!(insert(&mut page, "x".as_bytes(), 23), Err(PageError::PageFull));
    assert_eq!(page[POS_NUM_RECORDS] as usize, MAX_NUM_RECORDS);

    delete(&mut page, 11).unwrap();
    assert_eq!(page[POS_IS_THERE_SPACE], 1);
    assert_eq!(insert(&mut page, "y".as_bytes(), 23), Ok(()));
    assert_eq!(page[POS_NUM_RECORDS] as usize, MAX_NUM_RECORDS);
}

#[test]
fn delete_makes_identifier_absent() {
    let mut page = do_restart();
    insert(&mut page, "data".as_bytes(), 4).unwrap();
    delete(&mut page, 4).unwrap();
    assert_eq!(do_read(&page, 4), Err(PageError::NoSuchRecord(4)));
    assert_eq!(delete(&mut page, 4), Err(PageError::NoSuchRecord(4)));
}

#[test]
fn read_absent_identifier_fails() {
    let page = do_restart();
    assert_eq!(do_read(&page, 42), Err(PageError::NoSuchRecord(42)));
}

#[test]
fn sentinel_identifier_never_resolves() {
    let mut page = do_restart();
    insert(&mut page, "one".as_bytes(), 1).unwrap();
    assert_eq!(do_read(&page, 0), Err(PageError::NoSuchRecord(0)));
    assert_eq!(delete(&mut page, 0), Err(PageError::NoSuchRecord(0)));
}

#[test]
fn directory_reuse_lowest_freed_order_first() {
    let mut page = do_restart();
    for rid in 1..=5u8 {
        insert(&mut page, &[rid; 2], rid).unwrap();
    }
    // Free the entries at orders 1 and 3 (identifiers 2 and 4).
    delete(&mut page, 2).unwrap();
    delete(&mut page, 4).unwrap();
    assert_eq!(page[POS_NEXT_ORDER], 1);

    // The first insert reuses order 1, the second order 3, shown by the
    // record offsets their directory entries receive.
    insert(&mut page, "new1".as_bytes(), 6).unwrap();
    assert_eq!(page[POS_START_OF_SLOTS - 2 - 1], 6);
    assert_eq!(
        page[POS_START_OF_SLOTS - 2] as usize,
        POS_START_RECORDS + RECORD_SIZE
    );
    assert_eq!(page[POS_NEXT_ORDER], 3);

    insert(&mut page, "new2".as_bytes(), 7).unwrap();
    assert_eq!(page[POS_START_OF_SLOTS - 6 - 1], 7);
    assert_eq!(
        page[POS_START_OF_SLOTS - 6] as usize,
        POS_START_RECORDS + 3 * RECORD_SIZE
    );
    assert_eq!(page[POS_NEXT_ORDER], 5);
}

#[test]
fn payload_too_large_is_rejected() {
    let mut page = do_restart();
    insert(&mut page, "ok".as_bytes(), 1).unwrap();
    let before = page.clone();
    assert_eq!(
        insert(&mut page, "123456789".as_bytes(), 2),
        Err(PageError::PayloadTooLarge(9))
    );
    assert_eq!(page, before);
    assert_eq!(page[POS_NUM_RECORDS], 1);
}

#[test]
fn concrete_scenario_three_records() {
    let mut page = do_restart();
    insert(&mut page, "aaaa".as_bytes(), 1).unwrap();
    insert(&mut page, "bbbb".as_bytes(), 2).unwrap();
    insert(&mut page, "cccc".as_bytes(), 3).unwrap();
    assert_eq!(page[POS_NUM_RECORDS], 3);

    assert_eq!(do_read(&page, 2).unwrap(), b"bbbb\0\0\0\0".to_vec());

    delete(&mut page, 2).unwrap();
    assert_eq!(do_read(&page, 2), Err(PageError::NoSuchRecord(2)));
    // Identifier 2 sat at order 1; its slot is all zero again.
    let offset = POS_START_RECORDS + RECORD_SIZE;
    assert_eq!(&page[offset..offset + RECORD_SIZE], &[0u8; 8]);
}

#[test]
fn well_formedness_checker_accepts_live_pages() {
    let mut page = do_restart();
    assert!(is_well_formed(&page));
    insert(&mut page, "abc".as_bytes(), 1).unwrap();
    assert!(is_well_formed(&page));
    delete(&mut page, 1).unwrap();
    assert!(is_well_formed(&page));
}

#[test]
fn well_formedness_checker_rejects_damage() {
    let mut page = do_restart();
    insert(&mut page, "abc".as_bytes(), 1).unwrap();

    let mut wrong_count = page.clone();
    wrong_count[POS_NUM_RECORDS] = 9;
    assert!(!is_well_formed(&wrong_count));

    let mut wrong_flag = page.clone();
    wrong_flag[POS_IS_THERE_SPACE] = 0;
    assert!(!is_well_formed(&wrong_flag));

    let mut dirty_free_slot = page.clone();
    dirty_free_slot[POS_START_RECORDS + RECORD_SIZE] = 1;
    assert!(!is_well_formed(&dirty_free_slot));

    let mut truncated = page.clone();
    truncated.pop();
    assert!(!is_well_formed(&truncated));
}

#[test]
fn get_order_resolves_identifiers() {
    let mut page = do_restart();
    insert(&mut page, "a".as_bytes(), 10).unwrap();
    insert(&mut page, "b".as_bytes(), 20).unwrap();
    assert_eq!(get_order(10, &page), Ok(0));
    assert_eq!(get_order(20, &page), Ok(1));
    assert_eq!(get_order(30, &page), Err(PageError::NoSuchRecord(30)));
}

#[test]
fn next_empty_order_scans_from_zero() {
    let mut page = do_restart();
    assert_eq!(get_next_empty_order(&page), Some(0));
    insert(&mut page, "a".as_bytes(), 1).unwrap();
    assert_eq!(get_next_empty_order(&page), Some(1));
    insert(&mut page, "b".as_bytes(), 2).unwrap();
    delete(&mut page, 1).unwrap();
    assert_eq!(get_next_empty_order(&page), Some(0));
}
