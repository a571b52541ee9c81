use core::ops::Range;

use osbase::common::addresses::PhysicalAddress;
use osbase::kernel::memory::PhysicalMemoryManager;
use osbase::kernel::vmm::VirtualMemoryManager;

fn range(start: u64, end: u64) -> Range<PhysicalAddress> {
    PhysicalAddress(start)..PhysicalAddress(end)
}

#[test]
fn pmm_hands_out_each_page_once() {
    // One header page, one bitmap page and three managed pages.
    let memory = vec![range(0x10000, 0x15000)];
    let mut pmm = PhysicalMemoryManager::init(&memory).unwrap();
    assert_eq!(pmm.alloc_page(), Some(PhysicalAddress(0x12000)));
    assert_eq!(pmm.alloc_page(), Some(PhysicalAddress(0x13000)));
    assert_eq!(pmm.alloc_page(), Some(PhysicalAddress(0x14000)));
    assert_eq!(pmm.alloc_page(), None);
}

#[test]
fn pmm_free_keeps_free_count() {
    let memory = vec![range(0x10000, 0x15000)];
    let mut pmm = PhysicalMemoryManager::init(&memory).unwrap();
    let page = pmm.alloc_page().unwrap();
    pmm.free_page(page);
    // Freeing clears the page's bit but does not count it as free again.
    assert_eq!(pmm.alloc_page(), Some(PhysicalAddress(0x13000)));
    assert_eq!(pmm.alloc_page(), Some(PhysicalAddress(0x14000)));
    assert_eq!(pmm.alloc_page(), None);
}

#[test]
fn pmm_last_range_first() {
    let memory = vec![range(0x10000, 0x13000), range(0x20000, 0x23000)];
    let mut pmm = PhysicalMemoryManager::init(&memory).unwrap();
    assert_eq!(pmm.alloc_page(), Some(PhysicalAddress(0x22000)));
    assert_eq!(pmm.alloc_page(), Some(PhysicalAddress(0x12000)));
    assert_eq!(pmm.alloc_page(), None);
}

#[test]
fn pmm_skips_unusable_ranges() {
    let memory = vec![range(0, 0x5000), range(0x10000, 0x12800), range(0x20000, 0x22000)];
    let err = PhysicalMemoryManager::init(&memory).unwrap_err();
    assert_eq!(err, "no valid region in the provided list");
}

#[test]
fn pmm_empty_list() {
    let memory: Vec<Range<PhysicalAddress>> = Vec::new();
    assert!(PhysicalMemoryManager::init(&memory).is_err());
}

#[test]
fn vmm_takes_pmm() {
    let memory = vec![range(0x10000, 0x15000)];
    let pmm = PhysicalMemoryManager::init(&memory).unwrap();
    let _vmm = VirtualMemoryManager::init(pmm);
}

#[test]
fn pmm_accepts_regions_beyond_one_bitmap_page() {
    // 40000 pages after the header and bitmap pages: more than one bitmap page tracks.
    let start = 0x100_0000u64;
    let memory = vec![range(start, start + (40_002 * 4096))];
    let mut pmm = PhysicalMemoryManager::init(&memory).unwrap();
    let first = start + 2 * 4096;
    for k in 0..32768u64 {
        assert_eq!(pmm.alloc_page(), Some(PhysicalAddress(first + k * 4096)));
    }
    // The search then runs past the bitmap's reach: nothing more is handed out.
    assert_eq!(pmm.alloc_page(), None);
    assert_eq!(pmm.alloc_page(), None);
}

#[test]
fn pmm_round_robin_after_free() {
    let memory = vec![range(0x10000, 0x16000)];
    let mut pmm = PhysicalMemoryManager::init(&memory).unwrap();
    let a = pmm.alloc_page().unwrap();
    let b = pmm.alloc_page().unwrap();
    pmm.free_page(a);
    // The search goes on after the last page handed out, not back to the freed one.
    assert_eq!(pmm.alloc_page(), Some(PhysicalAddress(b.0 + 4096)));
    assert_eq!(pmm.alloc_page(), Some(PhysicalAddress(b.0 + 2 * 4096)));
    // The freed page was never counted free again.
    assert_eq!(pmm.alloc_page(), None);
    assert_eq!(a.0, 0x12000);
}

#[test]
fn pmm_can_free_only_managed_pages() {
    let memory = vec![range(0x10000, 0x15000)];
    let mut pmm = PhysicalMemoryManager::init(&memory).unwrap();
    let page = pmm.alloc_page().unwrap();
    assert!(pmm.can_free(page));
    assert!(pmm.can_free(PhysicalAddress(0x12800)));
    assert!(!pmm.can_free(PhysicalAddress(0x11000)));
    assert!(!pmm.can_free(PhysicalAddress(0x15000)));
    pmm.free_page(PhysicalAddress(0x12800));
    assert_eq!(pmm.alloc_page(), Some(PhysicalAddress(0x13000)));
}
