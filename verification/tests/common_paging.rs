use osbase::common::addresses::{PhysicalAddress, VirtualAddress};
use osbase::common::allocation::{bump_allocate, FixedBufferAllocator, LinearAllocator, PageAllocator};
use osbase::common::byte_size::{BitSize, ByteSize};
use osbase::common::paging::{Cr3Value, Page4K, PageEntry, PageMap, PageMapLevel, PageOptions, Pd, Pdpt, Pml4, Pt};

/// Hands out consecutive pages from a start address.
struct TestPages {
    next: u64,
    freed: Vec<u64>,
}

impl PageAllocator for TestPages {
    fn alloc_pages(&mut self, pages: usize) -> u64 {
        let address = self.next;
        self.next += pages as u64 * 4096;
        address
    }

    fn dealloc_pages(&mut self, address: u64, _pages: usize) {
        self.freed.push(address);
    }
}

/// Has no pages at all.
struct NoPages;

impl PageAllocator for NoPages {
    fn alloc_pages(&mut self, _pages: usize) -> u64 {
        0
    }

    fn dealloc_pages(&mut self, _address: u64, _pages: usize) {}
}

#[test]
fn addresses_null_and_alignment() {
    assert!(PhysicalAddress::null().is_null());
    assert!(!PhysicalAddress(0x1000).is_null());
    assert!(PhysicalAddress(0x3000).is_aligned_to(0x1000));
    assert!(!PhysicalAddress(0x3008).is_aligned_to(0x1000));
    assert!(VirtualAddress::null().is_null());
    assert!(VirtualAddress(0x20_0000).is_aligned_to(0x20_0000));
}

#[test]
fn page_entry_present_and_address() {
    let e: PageEntry<Pt> = PageEntry::new_present(PhysicalAddress(0x1234_5678), PageOptions::default());
    assert!(e.is_present());
    assert_eq!(e.address().0, 0x1234_5000);
    assert!(!e.writable());
    assert!(!e.is_page());
    let page = e.get().unwrap();
    assert_eq!(page.0 .0, 0x1234_5000);
}

#[test]
fn page_entry_empty_has_no_page() {
    let e: PageEntry<Pt> = PageEntry::empty();
    assert!(!e.is_present());
    assert!(e.get().is_none());
    assert_eq!(e.address().0, 0);
}

#[test]
fn page_entry_flags() {
    let mut e: PageEntry<Pd> = PageEntry::empty();
    e.set_present(true);
    e.set_writable(true);
    e.set_cacheable(true);
    e.set_final_page(true);
    assert!(e.is_present());
    assert!(e.writable());
    assert!(e.is_page());
    assert!(!e.user_access());
    assert!(!e.accessed());
    assert!(!e.dirty());
    assert!(!e.execute_disabled());
    e.set_address(PhysicalAddress(0x20_0000));
    assert_eq!(e.address().0, 0x20_0000);
    assert!(e.is_present());
    assert!(e.writable());
}

#[test]
fn page_entry_false_flags_change_nothing() {
    let mut e: PageEntry<Pt> = PageEntry::empty();
    e.set_present(true);
    e.set_present(false);
    assert!(e.is_present());
    e.set_final_page(false);
    assert!(!e.is_page());
}

#[test]
fn page_entry_options_round_trip() {
    let mut e: PageEntry<Pt> = PageEntry::new_present(PhysicalAddress(0x5000), PageOptions::default());
    let previous = e.set_options(PageOptions::default());
    // The present bit counts among the options, so it is handed back and cleared.
    assert_ne!(previous, PageOptions::default());
    assert_eq!(e.options(), PageOptions::default());
    assert_eq!(e.address().0, 0x5000);
    assert!(!e.is_present());
}

#[test]
fn page_map_level_basics() {
    let mut level: PageMapLevel<Pt> = PageMapLevel::empty();
    assert_eq!(level.count_present(), 0);
    assert!(!level.is_entry_present(3));
    assert!(!level.is_entry_present(600));
    assert!(level.get(512).is_none());
    {
        let entry = level.get_mut(3).unwrap();
        entry.set_present(true);
    }
    assert!(level.is_entry_present(3));
    assert_eq!(level.count_present(), 1);
    assert!(level.get_mut(512).is_none());
    assert_eq!(level.iter().filter(|e| e.is_present()).count(), 1);
    assert_eq!(level.iter().count(), 512);
}

#[test]
fn page_map_level_index() {
    let v = VirtualAddress(0x0000_7FFF_FFFF_F000);
    assert_eq!(PageMapLevel::<Pt>::get_index(v), ((v.0 >> 9) & 0x1FF) as usize);
    assert_eq!(PageMapLevel::<Pd>::get_index(v), ((v.0 >> 18) & 0x1FF) as usize);
    assert_eq!(PageMapLevel::<Pdpt>::get_index(v), ((v.0 >> 27) & 0x1FF) as usize);
    assert_eq!(PageMapLevel::<Pml4>::get_index(v), ((v.0 >> 36) & 0x1FF) as usize);
}

#[test]
fn cr3_value_keeps_flags() {
    let mut cr3 = Cr3Value::new(PhysicalAddress(0x1234_5FFF));
    assert_eq!(cr3.0, 0x1234_5000);
    assert_eq!(cr3.pml4_address().0, 0x1234_5000);
    cr3.0 |= 0x18;
    cr3.set_pml4_address(PhysicalAddress(0x9000));
    assert_eq!(cr3.0, 0x9018);
    assert_eq!(cr3.pml4_address().0, 0x9000);
}

#[test]
fn page_map_map_then_unmap() {
    let allocator = TestPages { next: 0x10_0000, freed: Vec::new() };
    let mut map = PageMap::new(allocator).unwrap();
    let v = VirtualAddress(0x4020_3000);
    let previous = map.map(v, PhysicalAddress(0xABC_D123), PageOptions::default()).unwrap();
    assert_eq!(previous.0, 0);
    assert_eq!(map.unmap(v).map(|p| p.0), Some(0xABC_D000));
    assert_eq!(map.unmap(v), None);
}

#[test]
fn page_map_remap_returns_previous() {
    let allocator = TestPages { next: 0x10_0000, freed: Vec::new() };
    let mut map = PageMap::new(allocator).unwrap();
    let v = VirtualAddress(0x1000);
    map.map(v, PhysicalAddress(0x7000), PageOptions::default()).unwrap();
    let previous = map.map(v, PhysicalAddress(0x8000), PageOptions::default()).unwrap();
    assert_eq!(previous.0, 0x7000);
    assert_eq!(map.unmap(v).map(|p| p.0), Some(0x8000));
}

#[test]
fn page_map_other_pages_unaffected() {
    let allocator = TestPages { next: 0x10_0000, freed: Vec::new() };
    let mut map = PageMap::new(allocator).unwrap();
    let a = VirtualAddress(0x1000);
    let b = VirtualAddress(0x2000 << 9);
    map.map(a, PhysicalAddress(0x7000), PageOptions::default()).unwrap();
    map.map(b, PhysicalAddress(0x9000), PageOptions::default()).unwrap();
    assert_eq!(map.unmap(a).map(|p| p.0), Some(0x7000));
    assert_eq!(map.unmap(b).map(|p| p.0), Some(0x9000));
}

#[test]
fn page_map_unmap_unmapped() {
    let allocator = TestPages { next: 0x10_0000, freed: Vec::new() };
    let mut map = PageMap::new(allocator).unwrap();
    assert_eq!(map.unmap(VirtualAddress(0x5000)), None);
}

#[test]
fn page_map_without_pages() {
    assert!(PageMap::new(NoPages).is_none());
}

#[test]
fn page_map_free_returns_every_table() {
    let allocator = TestPages { next: 0x10_0000, freed: Vec::new() };
    let mut map = PageMap::new(allocator).unwrap();
    map.map(VirtualAddress(0x1000), PhysicalAddress(0x7000), PageOptions::default()).unwrap();
    let allocator = map.free();
    // The PML4 and the three tables below it, children before their parents.
    assert_eq!(allocator.freed, vec![0x10_3000, 0x10_2000, 0x10_1000, 0x10_0000]);
}

#[test]
fn bump_allocation_rounds_down() {
    assert_eq!(bump_allocate(4096, 100, 16), Some(3984));
    assert_eq!(bump_allocate(4096, 100, 4096), Some(0));
    assert_eq!(bump_allocate(50, 100, 8), None);
    assert_eq!(bump_allocate(8192, 1, 8192), None);
}

#[test]
fn fixed_buffer_allocations_descend() {
    let mut a: FixedBufferAllocator<4096> = FixedBufferAllocator::new();
    assert_eq!(a.remaining(), 4096);
    let first = a.allocate(100, 8).unwrap();
    assert_eq!(first, 3992);
    let second = a.allocate(10, 16).unwrap();
    assert_eq!(second, 3968);
    assert!(second + 10 <= first);
    assert!(a.allocate(5000, 1).is_err());
    assert_eq!(a.remaining(), 3968);
    a.deallocate(first, 100);
    assert_eq!(a.remaining(), 3968);
}

#[test]
fn linear_allocator_addresses() {
    let mut a = LinearAllocator::new(0x10_0000, 8192);
    assert_eq!(a.remaining(), 8192);
    assert_eq!(a.allocate(4096, 4096), Ok(0x10_1000));
    assert_eq!(a.allocate(100, 64), Ok(0x10_0000 + 3968));
    assert!(a.allocate(4096, 8192).is_err());
    assert_eq!(a.remaining(), 3968);
}

#[test]
fn byte_size_round_trip() {
    let s = ByteSize::from_bytes(4096u64);
    assert_eq!(s.raw_bytes(), 4096);
    assert_eq!(BitSize(8), BitSize(8));
}

#[test]
fn page_entry_take_and_set() {
    let mut e: PageEntry<Pt> = PageEntry::empty();
    assert!(e.take().is_none());
    assert!(e.set(Page4K(PhysicalAddress(0x7000))).is_none());
    assert!(e.is_present());
    assert_eq!(e.address().0, 0x7000);
    let previous = e.set(Page4K(PhysicalAddress(0x9000))).unwrap();
    assert_eq!(previous.0 .0, 0x7000);
    assert_eq!(e.address().0, 0x9000);
    let taken = e.take().unwrap();
    assert_eq!(taken.0 .0, 0x9000);
    assert_eq!(e.address().0, 0);
    // Taking leaves the present bit as it was.
    assert!(e.is_present());
}
