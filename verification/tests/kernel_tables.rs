use osbase::kernel::gdt::{
    self, Access, DescriptorType, Flags, GlobalDescriptorTable, Gdtr, Granularity, PrivilegeLevel,
    SegmentDescriptor, Size, TaskStateSegment,
};
use osbase::kernel::idt::{IdtEntry, Idtr, InterruptDescriptorTable};
use osbase::kernel::interrupts;

#[test]
fn access_byte_round_trip() {
    let a = Access::new(true, PrivilegeLevel::Ring3, DescriptorType::CodeOrData, true, false, true, false);
    assert_eq!(a.0, 0xFA);
    assert!(a.present());
    assert_eq!(a.privilege_level(), PrivilegeLevel::Ring3);
    assert_eq!(a.ty(), DescriptorType::CodeOrData);
    assert!(a.executable());
    assert!(!a.dc());
    assert!(a.rw());
    assert!(!a.accessed());
}

#[test]
fn access_byte_all_levels() {
    for (level, bits) in [
        (PrivilegeLevel::Ring0, 0u8),
        (PrivilegeLevel::Ring1, 1),
        (PrivilegeLevel::Ring2, 2),
        (PrivilegeLevel::Ring3, 3),
    ] {
        let a = Access::new(false, level, DescriptorType::SystemSegment, false, true, false, true);
        assert_eq!(a.0, (bits << 5) | 0b101);
        assert_eq!(a.privilege_level(), level);
        assert_eq!(a.ty(), DescriptorType::SystemSegment);
        assert!(a.dc());
        assert!(a.accessed());
        assert!(!a.present());
    }
}

#[test]
fn flags_round_trip() {
    let f = Flags::new(Granularity::Page4KiB, Size::ProtectedMode16, true);
    assert_eq!(f.0, 0b1010);
    assert_eq!(f.granularity(), Granularity::Page4KiB);
    assert_eq!(f.size(), Size::ProtectedMode16);
    assert!(f.code_segment_64());
    let g = Flags::new(Granularity::Byte, Size::ProtectedMode32, false);
    assert_eq!(g.0, 0b0100);
    assert_eq!(g.granularity(), Granularity::Byte);
    assert_eq!(g.size(), Size::ProtectedMode32);
    assert!(!g.code_segment_64());
}

#[test]
fn segment_descriptor_layout() {
    let flags = Flags::new(Granularity::Page4KiB, Size::ProtectedMode16, true);
    let access = Access::new(true, PrivilegeLevel::Ring0, DescriptorType::CodeOrData, true, false, true, false);
    let d = SegmentDescriptor::new(0, 0xFFFFF, flags, access);
    assert_eq!(d.0, 0x00A0_9A00_000F_FFFF);
    assert_eq!(d.access().0, 0x9A);
    assert_eq!(d.flags().0, 0b1010);
}

#[test]
fn segment_descriptor_base_split() {
    let flags = Flags::new(Granularity::Byte, Size::ProtectedMode32, false);
    let access = Access::new(true, PrivilegeLevel::Ring0, DescriptorType::CodeOrData, false, false, true, false);
    let d = SegmentDescriptor::new(0x1234_5678, 0xFFFF_FFFF, flags, access);
    // The limit keeps its low 20 bits, the top four of them at bits 16..=19; the base is
    // split over bits 16..=39 and 56..=63.
    assert_eq!(d.0, 0x1240_9234_567F_FFFF);
}

#[test]
fn null_and_zero_descriptors() {
    assert_eq!(SegmentDescriptor::null().0, 0);
    assert_eq!(SegmentDescriptor::zero().0, 0);
}

#[test]
fn tss_descriptors() {
    let (low, high) = SegmentDescriptor::for_tss(0x1122_3344_5566_7788);
    assert_eq!(low.access().0, 0x89);
    assert_eq!(low.0 & 0xFFFF, 0x67);
    assert_eq!((low.0 >> 16) & 0xFF_FFFF, 0x66_7788);
    assert_eq!(low.0 >> 56, 0x55);
    assert_eq!(high.0, 0x1122_3344);
}

#[test]
fn gdt_init_layout() {
    let table = gdt::init(0x1000);
    assert_eq!(table.len(), 7);
    assert_eq!(table.get(0).0, 0);
    assert_eq!(table.get(1).0, 0x00A0_9A00_000F_FFFF);
    assert_eq!(table.get(2).0, 0x00C0_9200_000F_FFFF);
    assert_eq!(table.get(3).0, 0x00A0_FA00_000F_FFFF);
    assert_eq!(table.get(4).0, 0x00C0_F200_000F_FFFF);
    assert_eq!(table.get(5).access().0, 0x89);
    assert_eq!(table.get(6).0, 0);
}

#[test]
fn gdt_set_keeps_others() {
    let mut table = GlobalDescriptorTable::new(3);
    table.set(1, SegmentDescriptor(42));
    assert_eq!(table.get(0).0, 0);
    assert_eq!(table.get(1).0, 42);
    assert_eq!(table.get(2).0, 0);
}

#[test]
fn gdtr_size() {
    let table = GlobalDescriptorTable::new(7);
    let r = Gdtr::new_for(&table, 0xABC0);
    let size = r.size;
    let address = r.address;
    assert_eq!(size, 55);
    assert_eq!(address, 0xABC0);
}

#[test]
fn tss_zero() {
    let _tss = TaskStateSegment::zero();
}

#[test]
fn idt_entry_isr_round_trip() {
    let e = IdtEntry::new(0xFFFF_8000_1234_5678, 0x08, 1, 0x8E);
    assert_eq!(e.isr(), 0xFFFF_8000_1234_5678);
    assert_eq!(e.kernel_cs, 0x08);
    assert_eq!(e.ist, 1);
    assert_eq!(e.attributes, 0x8E);
    assert_eq!(e.reserved, 0);
    assert_eq!((e.isr_low, e.isr_mid, e.isr_high), (0x5678, 0x1234, 0xFFFF_8000));
    assert_eq!(IdtEntry::zero().isr(), 0);
}

#[test]
fn idt_zero_and_set() {
    let mut idt = InterruptDescriptorTable::zero();
    assert_eq!(idt.index(255).isr(), 0);
    idt.set(3, IdtEntry::new(0x1000, 0x08, 0, 0x8E));
    assert_eq!(idt.index(3).isr(), 0x1000);
    assert_eq!(idt.index(4).isr(), 0);
    let r = Idtr::new_for(&idt, 0x5000);
    let limit = r.limit;
    assert_eq!(limit, 4095);
}

#[test]
fn interrupts_skip_reserved_vector() {
    let handlers: Vec<u64> = (0..21u64).map(|i| 0x10_0000 + i * 0x10).collect();
    let idt = interrupts::init(&handlers);
    for v in 0..15usize {
        assert_eq!(idt.index(v).isr(), 0x10_0000 + v as u64 * 0x10);
        assert_eq!(idt.index(v).kernel_cs, 0x08);
        assert_eq!(idt.index(v).attributes, 0x8E);
    }
    assert_eq!(idt.index(15).isr(), 0);
    assert_eq!(idt.index(15).attributes, 0);
    for v in 16..22usize {
        assert_eq!(idt.index(v).isr(), 0x10_0000 + (v as u64 - 1) * 0x10);
    }
    assert_eq!(idt.index(22).isr(), 0);
}
