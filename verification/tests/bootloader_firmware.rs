use osbase::acpi::raw::SdtHeader;
use osbase::acpi::tables::Mcfg;
use osbase::acpi::{AcpiError, AcpiTables, Rsdp, RsdpError, Rsdt, Table};
use osbase::bootloader::allocator::LinearAllocator;
use osbase::bootloader::allocators::{ActivePageAllocator, Area, BootloaderPageAllocator, RuntimePageAllocator};
use osbase::bootloader::elf::{SectionAttributes, SectionHeader, SectionType};
use osbase::bootloader::loader::{
    allocated_sections, boot_info, free_memory, merge_ranges, reclaimable_memory, section_pages, table_indices,
    total_memory,
};
use osbase::bootloader::uefi::{ConfigurationTable, SystemTable};
use osbase::bootloader::uefi2::boot::{allocation_step, descriptor_buffer, memory_map_from, memory_map_size, AllocationStep};
use osbase::bootloader::uefi2::memory_map::MemoryMap;
use osbase::bootloader::uefi2::raw::{
    AllocateType, Guid, MemoryAttribute, MemoryDescriptor, MemoryType, Status, BOOT_SERVICES_DATA, BUFFER_TOO_SMALL,
    CONVENTIONAL_MEMORY, HIGHEST_BIT, LOADER_CODE, SUCCESS,
};
use osbase::common::allocation::PageAllocator;

fn descriptor(ty: u32, start: u64, pages: u64) -> MemoryDescriptor {
    let mut d = MemoryDescriptor::zero();
    d.ty = MemoryType(ty);
    d.physical_start = start;
    d.page_count = pages;
    d
}

#[test]
fn status_classes() {
    let success = Status(SUCCESS);
    assert!(success.is_success());
    assert!(!success.is_error());
    assert!(!success.is_warning());
    let err = Status::new_efi_error(5);
    assert_eq!(err, Status(BUFFER_TOO_SMALL));
    assert!(err.is_error());
    assert!(err.is_efi_error());
    assert!(!err.is_oem_error());
    let oem = Status(HIGHEST_BIT | (1 << 62) | 7);
    assert!(oem.is_oem_error());
    let warning = Status(4);
    assert!(warning.is_warning());
    assert!(warning.is_efi_warning());
    assert!(!warning.is_oem_warning());
    assert!(warning.is_success());
    assert!(Status(1 << 62).is_oem_warning());
}

#[test]
fn memory_attributes() {
    let a = MemoryAttribute(0x8).bitor(MemoryAttribute(0x1));
    assert_eq!(a.0, 0x9);
    assert!(a.contains(MemoryAttribute(0x1)));
    assert!(!a.contains(MemoryAttribute(0x4000)));
}

#[test]
fn guid_equality() {
    let acpi = Guid::efi_acpi_table_guid();
    let same = Guid::new(0x8868e871, 0xe4f1, 0x11d3, 0xbc, 0x22, [0x0, 0x80, 0xc7, 0x3c, 0x88, 0x81]);
    let other = Guid::new(0x8868e871, 0xe4f1, 0x11d3, 0xbc, 0x22, [0x0, 0x80, 0xc7, 0x3c, 0x88, 0x82]);
    assert!(acpi.equals(&same));
    assert!(!acpi.equals(&other));
    assert_eq!(AllocateType::AllocateAddress.value(), 2);
}

#[test]
fn allocation_steps() {
    assert_eq!(allocation_step(&Status(SUCCESS), 0x5000), AllocationStep::Allocated(0x5000));
    assert_eq!(allocation_step(&Status(SUCCESS), 0), AllocationStep::Retry);
    assert_eq!(allocation_step(&Status::new_efi_error(9), 0x5000), AllocationStep::Failed);
}

#[test]
fn memory_map_sizing() {
    assert_eq!(memory_map_size(&Status(BUFFER_TOO_SMALL), 480), Some(480));
    assert_eq!(memory_map_size(&Status(SUCCESS), 480), None);
    let buffer = descriptor_buffer(480);
    assert_eq!(buffer.len(), 10);
    let map = memory_map_from(77, buffer, 144);
    assert_eq!(map.get_key(), 77);
    assert_eq!(map.len(), 3);
    assert_eq!(map.iter().count(), 3);
    assert_eq!(map.index(2).page_count, 0);
}

#[test]
fn memory_map_accessors() {
    let map = MemoryMap::new(3, vec![descriptor(7, 0x1000, 2), descriptor(4, 0x9000, 1)]);
    assert_eq!(map.len(), 2);
    assert_eq!(map.as_slice()[1].physical_start, 0x9000);
    let starts: Vec<u64> = map.iter().map(|d| d.physical_start).collect();
    assert_eq!(starts, vec![0x1000, 0x9000]);
}

#[test]
fn system_table_config_and_lock() {
    let mut st = SystemTable::from(3, 0x7000);
    let table = st.config_table().unwrap();
    assert_eq!(table.len(), 3);
    let mut it = table.iter();
    assert_eq!(it.next(), Some(0x7000));
    assert_eq!(it.next(), Some(0x7018));
    assert_eq!(it.next(), Some(0x7030));
    assert_eq!(it.next(), None);
    assert!(st.boot_services());
    assert!(!st.boot_services());
    st.release_boot_services();
    assert!(st.boot_services());
    assert!(SystemTable::from(3, 0).config_table().is_none());
    assert_eq!(ConfigurationTable::new(0, 0x10).iter().next(), None);
}

#[test]
fn linear_heap_allocator() {
    let mut heap: LinearAllocator<1024> = LinearAllocator::new();
    assert_eq!(heap.allocate(24, 8), Ok(1000));
    assert_eq!(heap.allocate(1000, 4), Ok(0));
    assert!(heap.allocate(1, 1).is_err());
    assert!(heap.allocate(0, 8192).is_err());
}

#[test]
fn area_takes_pages_in_order() {
    let mut area = Area::new(0x10_0000, 3);
    assert_eq!(area.take(2), Some(0x10_0000));
    assert_eq!(area.take(2), None);
    assert_eq!(area.alloc_pages(1), 0x10_2000);
    assert_eq!(area.alloc_pages(1), 0);
}

#[test]
fn runtime_allocator_falls_through_areas() {
    let mut rt = RuntimePageAllocator::new();
    rt.setup(&vec![(0, 0x4000), (0x10_0000, 0x10_4000)]);
    // Page zero is skipped and the first page of each range holds its bookkeeping.
    assert_eq!(rt.alloc_pages(2), 0x2000);
    assert_eq!(rt.alloc_pages(2), 0x10_1000);
    assert_eq!(rt.alloc_pages(1), 0x10_3000);
    assert_eq!(rt.alloc_pages(1), 0);
    rt.setup(&Vec::new());
    assert_eq!(rt.alloc_pages(1), 0);
}

#[test]
fn bootloader_page_allocator_switch() {
    let mut a = BootloaderPageAllocator::new();
    assert_eq!(a.active(), ActivePageAllocator::Uefi);
    a.set_runtime();
    assert_eq!(a.active(), ActivePageAllocator::Runtime);
    a.set_inner(ActivePageAllocator::Uefi);
    assert_eq!(a.active(), ActivePageAllocator::Uefi);
}

#[test]
fn section_page_counts() {
    assert_eq!(section_pages(0), 0);
    assert_eq!(section_pages(1), 1);
    assert_eq!(section_pages(4096), 1);
    assert_eq!(section_pages(4097), 2);
}

#[test]
fn allocated_sections_in_order() {
    let section = |name: &str, flags: u64| SectionHeader {
        name: name.to_string(),
        ty: SectionType::ProgramBits,
        flags: SectionAttributes(flags),
        vaddr: 0,
        offset: 0,
        size: 0,
        link: 0,
        info: 0,
        addralign: 4096,
        entry_size: 0,
    };
    let sections = vec![section(".text", 0x6), section(".comment", 0x0), section(".data", 0x3)];
    assert_eq!(allocated_sections(&sections), vec![0, 2]);
    let none: Vec<SectionHeader> = Vec::new();
    assert!(allocated_sections(&none).is_empty());
}

#[test]
fn free_and_reclaimable_memory() {
    let map = vec![
        descriptor(CONVENTIONAL_MEMORY, 0x1000, 2),
        descriptor(LOADER_CODE, 0x3000, 1),
        descriptor(BOOT_SERVICES_DATA, 0x4000, 4),
        descriptor(CONVENTIONAL_MEMORY, 0x10_0000, 16),
        descriptor(LOADER_CODE, 0x20_0000, 1),
    ];
    let free = free_memory(&map);
    assert_eq!(free, vec![(0x1000, 0x3000), (0x10_0000, 0x11_0000)]);
    assert_eq!(total_memory(&free), 0x2000 + 0x1_0000);
    let reclaimable = reclaimable_memory(&map);
    assert_eq!(reclaimable, vec![(0x3000, 0x8000), (0x20_0000, 0x20_1000)]);
    assert_eq!(merge_ranges(&[(1, 2), (2, 5), (6, 7), (7, 7)]), vec![(1, 5), (6, 7)]);
    let info = boot_info(&free);
    assert_eq!(info.available_mem.len(), 2);
    assert_eq!(info.available_mem[1].start.0, 0x10_0000);
    assert_eq!(info.available_mem[1].end.0, 0x11_0000);
}

fn sdt_bytes(signature: &[u8; 4], length: u32) -> Vec<u8> {
    let mut b = vec![0u8; length as usize];
    b[0..4].copy_from_slice(signature);
    b[4..8].copy_from_slice(&length.to_le_bytes());
    b[8] = 1;
    b[10..16].copy_from_slice(b"OEMID ");
    let sum: u32 = b.iter().map(|x| *x as u32).sum();
    b[9] = ((256 - (sum % 256)) % 256) as u8;
    b
}

#[test]
fn sdt_header_and_checksum() {
    let bytes = sdt_bytes(b"MCFG", 60);
    let header = SdtHeader::from_bytes(&bytes);
    assert_eq!(&header.signature, b"MCFG");
    assert_eq!(header.length, 60);
    assert_eq!(&header.oem_id, b"OEMID ");
    assert!(header.validate(&bytes));
    let mut broken = bytes.clone();
    broken[40] ^= 1;
    assert!(!header.validate(&broken));
}

#[test]
fn table_kinds() {
    let mcfg = SdtHeader::from_bytes(&sdt_bytes(b"MCFG", 76));
    assert_eq!(Table::from(&mcfg, 0x9000), Table::Mcfg(Mcfg { address: 0x9000, count: 2 }));
    assert_eq!(Mcfg { address: 0x9000, count: 2 }.len(), 2);
    let apic = SdtHeader::from_bytes(&sdt_bytes(b"APIC", 44));
    assert_eq!(Table::from(&apic, 0xA000), Table::Other(0xA000));
}

fn fix_sum(b: &mut [u8], at: usize, len: usize) {
    b[at] = 0;
    let sum: u32 = b[..len].iter().map(|x| *x as u32).sum();
    b[at] = ((256 - (sum % 256)) % 256) as u8;
}

fn rsdp_bytes(revision: u8) -> Vec<u8> {
    let mut b = vec![0u8; 36];
    b[0..8].copy_from_slice(b"RSD PTR ");
    b[9..15].copy_from_slice(b"OEMID ");
    b[15] = revision;
    b[16..20].copy_from_slice(&0x7000u32.to_le_bytes());
    b[20..24].copy_from_slice(&36u32.to_le_bytes());
    b[24..32].copy_from_slice(&0x1_2345_0000u64.to_le_bytes());
    fix_sum(&mut b, 8, 20);
    fix_sum(&mut b, 32, 36);
    b
}

#[test]
fn rsdp_checks() {
    assert!(matches!(Rsdp::from_bytes(0, &rsdp_bytes(0)), Err(RsdpError::NullPointer)));
    let mut bad = rsdp_bytes(0);
    bad[0] = b'X';
    match Rsdp::from_bytes(0x1000, &bad) {
        Err(RsdpError::InvalidSignature(s)) => assert_eq!(&s, b"XSD PTR "),
        other => panic!("unexpected {:?}", other),
    }
    assert_eq!(Rsdp::from_bytes(0x1000, &rsdp_bytes(0)).unwrap(), Rsdp::Rsdp(0x1000));
    assert_eq!(Rsdp::from_bytes(0x1000, &rsdp_bytes(0)[..20]).unwrap(), Rsdp::Rsdp(0x1000));
    assert_eq!(Rsdp::Rsdp(0x1000).table_address(&rsdp_bytes(0)[..20]), 0x7000);
    assert_eq!(Rsdp::from_bytes(0x1000, &rsdp_bytes(2)).unwrap(), Rsdp::Xsdp(0x1000));
    assert!(matches!(Rsdp::from_bytes(0x1000, &rsdp_bytes(1)), Err(RsdpError::InvalidRevision(1))));
    let mut sum_off = rsdp_bytes(0);
    sum_off[12] ^= 1;
    assert!(matches!(Rsdp::from_bytes(0x1000, &sum_off), Err(RsdpError::InvalidChecksum)));
    let mut ext_off = rsdp_bytes(2);
    ext_off[33] ^= 1;
    assert!(matches!(Rsdp::from_bytes(0x1000, &ext_off), Err(RsdpError::InvalidChecksum)));
}

#[test]
fn rsdp_root_tables() {
    let rsdp = rsdp_bytes(0);
    let pointer = Rsdp::from_bytes(0x1000, &rsdp).unwrap();
    assert_eq!(pointer.table_address(&rsdp), 0x7000);
    let mut rsdt = sdt_bytes(b"RSDT", 44);
    rsdt[36..40].copy_from_slice(&0x8000u32.to_le_bytes());
    rsdt[40..44].copy_from_slice(&0x9000u32.to_le_bytes());
    match pointer.get_rsdt(&rsdp, &rsdt) {
        Ok(Rsdt::Rsdt(v)) => assert_eq!(v, vec![0x8000, 0x9000]),
        other => panic!("unexpected {:?}", other),
    }
    let xsdp = rsdp_bytes(2);
    let wide = Rsdp::from_bytes(0x1000, &xsdp).unwrap();
    assert_eq!(wide.table_address(&xsdp), 0x1_2345_0000);
    let mut xsdt = sdt_bytes(b"XSDT", 52);
    xsdt[36..44].copy_from_slice(&0x1_0000_0000u64.to_le_bytes());
    xsdt[44..52].copy_from_slice(&0x2000u64.to_le_bytes());
    fix_sum(&mut xsdt, 9, 52);
    match wide.get_rsdt(&xsdp, &xsdt) {
        Ok(Rsdt::Xsdt(v)) => assert_eq!(v, vec![0x1_0000_0000, 0x2000]),
        other => panic!("unexpected {:?}", other),
    }
    let mut broken = xsdt.clone();
    broken[40] ^= 1;
    assert!(matches!(wide.get_rsdt(&xsdp, &broken), Err(AcpiError::InvalidChecksum)));
}

#[test]
fn root_table_iteration() {
    let rsdt = Rsdt::Rsdt(vec![0x1000, 0x2000]);
    assert_eq!(rsdt.get(1), Some(0x2000));
    assert_eq!(rsdt.get(2), None);
    let mut it = AcpiTables::from_rsdp(Ok(Rsdt::Xsdt(vec![0x1_0000_0000]))).unwrap();
    assert_eq!(it.next(), Some(0x1_0000_0000));
    assert_eq!(it.next(), None);
    let failed = AcpiTables::from_rsdp(Err(AcpiError::InvalidChecksum));
    assert!(matches!(failed, Err(AcpiError::InvalidChecksum)));
    let e: AcpiError = AcpiError::from(RsdpError::InvalidRevision(3));
    assert!(matches!(e, AcpiError::RsdpError(RsdpError::InvalidRevision(3))));
}

#[test]
fn merging_keeps_total_size() {
    let ranges = [(0x1000u64, 0x3000u64), (0x3000, 0x4000), (0x8000, 0x9000), (0x9000, 0x9000), (0x9000, 0xA000)];
    let merged = merge_ranges(&ranges);
    assert_eq!(merged, vec![(0x1000, 0x4000), (0x8000, 0xA000)]);
    assert_eq!(total_memory(&merged), total_memory(&ranges));
}

#[test]
fn table_indices_of_addresses() {
    assert_eq!(table_indices(0xFFFF_8000_0020_3000), (256, 0, 1, 3));
    assert_eq!(table_indices(0x181_40E0_9123), (3, 5, 7, 9));
    assert_eq!(table_indices(0), (0, 0, 0, 0));
}
