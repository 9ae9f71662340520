use bot_mc::paging::page;

#[test]
fn first_page_without_navigation() {
    let info = page(0, 4, 10);
    assert_eq!(info.page_number, 1);
    assert_eq!(info.offset, 0);
    assert_eq!(info.limit, 4);
    assert_eq!(info.page_count, 3);
}

#[test]
fn out_of_range_page_is_clamped() {
    let info = page(5, 4, 10);
    assert_eq!(info.page_number, 3);
    assert_eq!(info.offset, 8);
    assert_eq!(info.limit, 4);
    assert_eq!(info.page_count, 3);
}

#[test]
fn no_items_fill_one_empty_page() {
    let info = page(0, 4, 0);
    assert_eq!(info.page_number, 1);
    assert_eq!(info.offset, 0);
    assert_eq!(info.page_count, 1);
}

#[test]
fn exact_division_has_no_extra_page() {
    let info = page(2, 5, 10);
    assert_eq!(info.page_number, 2);
    assert_eq!(info.offset, 5);
    assert_eq!(info.page_count, 2);
}

#[test]
fn middle_page_keeps_its_number() {
    let info = page(2, 4, 10);
    assert_eq!(info.page_number, 2);
    assert_eq!(info.offset, 4);
    assert_eq!(info.page_count, 3);
}
