use kernel_core::density::{StackClass, bytes_per_task, has_guard_page, is_short_worker, max_tasks_for_heap, mini_advantage, thin_advantage, usable_bytes};

#[test]
fn full_is_16k_plus_guard() {
    assert_eq!(usable_bytes(StackClass::Full), 16 * 1024);
    assert_eq!(bytes_per_task(StackClass::Full), 16 * 1024 + 4096);
}

#[test]
fn thin_is_4k_plus_guard() {
    assert_eq!(usable_bytes(StackClass::Thin), 4 * 1024);
    assert_eq!(bytes_per_task(StackClass::Thin), 4 * 1024 + 4096);
}

#[test]
fn mini_is_one_page_no_guard() {
    assert_eq!(usable_bytes(StackClass::Mini), 4 * 1024);
    assert_eq!(bytes_per_task(StackClass::Mini), 4 * 1024);
    assert!(!has_guard_page(StackClass::Mini));
    assert!(has_guard_page(StackClass::Thin));
}

#[test]
fn mini_fits_more_than_thin_fits_more_than_full() {
    let heap = 256 * 1024;
    let full = max_tasks_for_heap(heap, StackClass::Full);
    let thin = max_tasks_for_heap(heap, StackClass::Thin);
    let mini = max_tasks_for_heap(heap, StackClass::Mini);
    assert!(thin > full);
    assert!(mini > thin);
    assert_eq!(thin_advantage(heap), thin - full);
    assert_eq!(mini_advantage(heap), mini - thin);
    // Mini is half Thin's heap per task (4 KiB vs 8 KiB).
    assert_eq!(
        bytes_per_task(StackClass::Thin),
        2 * bytes_per_task(StackClass::Mini)
    );
}

#[test]
fn short_worker_band() {
    assert!(!is_short_worker(StackClass::Full));
    assert!(is_short_worker(StackClass::Thin));
    assert!(is_short_worker(StackClass::Mini));
}

#[test]
fn empty_heap_fits_none() {
    assert_eq!(max_tasks_for_heap(0, StackClass::Thin), 0);
    assert_eq!(max_tasks_for_heap(0, StackClass::Mini), 0);
}
