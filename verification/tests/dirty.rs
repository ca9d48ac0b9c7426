use vmm_devices::dirty::{SoftwareDirtyBitmap, DIRTY_PAGE_SIZE};

#[test]
fn every_page_of_a_marked_range_is_dirty() {
    let mut d = SoftwareDirtyBitmap::new();
    d.mark_range(2 * DIRTY_PAGE_SIZE - 1, 2);
    let pages = d.drain();
    assert!(!pages.contains(DIRTY_PAGE_SIZE - 1));
    assert!(pages.contains(DIRTY_PAGE_SIZE));
    assert!(pages.contains(3 * DIRTY_PAGE_SIZE - 1));
    assert!(!pages.contains(3 * DIRTY_PAGE_SIZE));
}

#[test]
fn draining_starts_over() {
    let mut d = SoftwareDirtyBitmap::new();
    d.mark_range(0, 1);
    assert!(d.drain().contains(0));
    assert!(!d.drain().contains(0));
}

#[test]
fn an_empty_range_marks_nothing() {
    let mut d = SoftwareDirtyBitmap::new();
    d.mark_range(0x5000, 0);
    assert!(!d.drain().contains(0x5000));
}
