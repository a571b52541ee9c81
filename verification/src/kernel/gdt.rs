//! The global descriptor table and the task state segment.
use vstd::prelude::*;

verus! {

/// A 64-bit segment descriptor.
#[derive(Debug, Clone, Copy)]
pub struct SegmentDescriptor(pub u64);

/// Bit offset of the flags nibble in a descriptor.
pub const OFFSET_FLAGS: u64 = 52;

/// Bit offset of the access byte in a descriptor.
pub const OFFSET_ACCESS: u64 = 40;

/// Size of the task state segment.
pub const TSS_SIZE: u64 = 0x68;

/// The descriptor word for `base`, `limit` (only its low 20 bits count), flags and access
/// byte. The limit's bits 16..=19 stay at bits 16..=19 of the word.
pub open spec fn descriptor_word(base: u64, limit: u64, flags: u8, access: u8) -> u64 {
    (limit & 0xFFFF)
        | ((base & 0xFFFF) << 16u64)
        | ((base & 0xFF0000) << 16u64)
        | ((access as u64) << 40u64)
        | (limit & 0xF0000)
        | ((flags as u64) << 52u64)
        | ((base & 0xFF000000) << 32u64)
}

proof fn lemma_tss_constants()
    by (bit_vector)
    ensures
        (1u8 << 7u8) | (0u8 << 5u8) | (0u8 << 4u8) | 0x9u8 == 0x89u8,
        0u64 << 52u64 == 0u64,
        0u64 << 32u64 == 0u64,
{
}

proof fn lemma_or_zero(x: u64, y: u32)
    by (bit_vector)
    ensures
        x & 0xFFFF_FFFF <= 0xFFFF_FFFF,
        y & 0xF_FFFF <= 0xF_FFFF,
        0u64 | x == x,
        x >> 0u64 == x,
{
}

proof fn lemma_u8_fields(x: u8)
    by (bit_vector)
    ensures
        (x >> 2u8) & 1 <= 1,
        (x >> 3u8) & 1 <= 1,
        (x >> 4u8) & 1 <= 1,
        x as u64 & 0xF == (x & 0xF) as u64,
        (x >> 5u8) & 3 <= 3,
        x >> 0u8 == x,
{
}

proof fn lemma_descriptor_fields(base: u64, limit: u64, flags: u64, access: u64)
    by (bit_vector)
    requires
        base <= 0xFFFF_FFFF,
        limit <= 0xF_FFFF,
        flags <= 0xFF,
        access <= 0xFF,
    ensures
        (((limit & 0xFFFF) | ((base & 0xFFFF) << 16u64) | ((base & 0xFF0000) << 16u64) | (access << 40u64)
            | (limit & 0xF0000) | (flags << 52u64) | ((base & 0xFF000000) << 32u64)) >> 40u64) & 0xFF == access,
        (((limit & 0xFFFF) | ((base & 0xFFFF) << 16u64) | ((base & 0xFF0000) << 16u64) | (access << 40u64)
            | (limit & 0xF0000) | (flags << 52u64) | ((base & 0xFF000000) << 32u64)) >> 52u64) & 0xF == flags & 0xF,
{
}

impl SegmentDescriptor {
    /// The descriptor for a segment at `base` with `limit`, `flags` and `access`.
    pub fn new(base: u32, limit: u32, flags: Flags, access: Access) -> (r: Self)
        ensures
            r.0 == descriptor_word(base as u64, (limit & 0xFFFFF) as u64, flags.0, access.0),
            r.access_spec() == access.0,
            r.flags_spec() == flags.0 & 0xF,
    {
        let limit32: u32 = limit;
        let base: u64 = base as u64;
        let limit: u64 = (limit & 0xFFFFF) as u64;
        let access_word: u64 = (access.0 as u64) << 40u64;
        let flags_word: u64 = (flags.0 as u64) << 52u64;
        let val: u64 = (limit & 0xFFFF)
            | ((base & 0xFFFF) << 16u64)
            | ((base & 0xFF0000) << 16u64)
            | access_word
            | (limit & 0xF0000)
            | flags_word
            | ((base & 0xFF000000) << 32u64);
        proof {
            lemma_or_zero(0, limit32);
            lemma_descriptor_fields(base, limit, flags.0 as u64, access.0 as u64);
            lemma_u8_fields(flags.0);
        }
        Self(val)
    }

    /// The access byte: bits 40..=47.
    pub open spec fn access_spec(&self) -> u8 {
        ((self.0 >> 40u64) & 0xFF) as u8
    }

    /// The flags nibble: bits 52..=55.
    pub open spec fn flags_spec(&self) -> u8 {
        ((self.0 >> 52u64) & 0xF) as u8
    }

    /// The two descriptors of a 64-bit task state segment at `address`: the first holds the
    /// low half of the address, a limit of the segment's size minus one, and a present,
    /// ring 0 system-segment access byte of type 0x9; the second holds the high half.
    pub fn for_tss(address: u64) -> (r: (Self, Self))
        ensures
            r.0.0 == descriptor_word(address & 0xFFFF_FFFF, (TSS_SIZE - 1) as u64, 0, 0x89),
            r.1.0 == (address >> 32u64) & 0xFFFF_FFFF,
            r.0.access_spec() == 0x89,
    {
        let ss_ty: u8 = 0x9;
        let access_byte: u8 = (1u8 << 7u8) | (PrivilegeLevel::Ring0.value() << 5u8)
            | (DescriptorType::SystemSegment.value() << 4u8) | ss_ty;
        proof {
            lemma_tss_constants();
        }
        let access: u64 = (access_byte as u64) << 40u64;
        let flags: u64 = 0u64 << 52u64;
        let entry0 = {
            let base: u64 = address & 0xFFFFFFFF;
            let limit: u64 = TSS_SIZE - 1;
            let val: u64 = (limit & 0xFFFF)
                | ((base & 0xFFFF) << 16u64)
                | ((base & 0xFF0000) << 16u64)
                | access
                | (limit & 0xF0000)
                | flags
                | ((base & 0xFF000000) << 32u64);
            proof {
                lemma_or_zero(address, 0);
                lemma_descriptor_fields(base, limit, 0, 0x89);
            }
            Self(val)
        };
        let entry1 = {
            let base: u64 = (address >> 32u64) & 0xFFFFFFFF;
            let reserved: u64 = 0;
            let val: u64 = (reserved << 32u64) | base;
            proof {
                lemma_or_zero(base, 0);
            }
            Self(val)
        };
        (entry0, entry1)
    }

    /// The all-zero descriptor.
    pub fn zero() -> (r: Self)
        ensures
            r.0 == 0,
    {
        Self(0)
    }

    /// The null descriptor (all zero).
    pub fn null() -> (r: Self)
        ensures
            r.0 == 0,
    {
        Self(0)
    }

    /// The flags nibble of the descriptor.
    pub fn flags(&self) -> (r: Flags)
        ensures
            r.0 == self.flags_spec(),
    {
        let val: u64 = (self.0 >> 52u64) & 0xF;
        Flags(val as u8)
    }

    /// The access byte of the descriptor.
    pub fn access(&self) -> (r: Access)
        ensures
            r.0 == self.access_spec(),
    {
        let val: u64 = (self.0 >> 40u64) & 0xFF;
        Access(val as u8)
    }
}

/// The flags nibble of a segment descriptor: granularity (bit 3), size (bit 2) and long
/// mode (bit 1).
#[derive(Debug, Clone, Copy)]
pub struct Flags(pub u8);

/// The access byte of a segment descriptor: present (bit 7), privilege level (bits 5..=6),
/// descriptor type (bit 4), executable (bit 3), direction/conforming (bit 2),
/// readable/writable (bit 1) and accessed (bit 0).
#[derive(Debug, Clone, Copy)]
pub struct Access(pub u8);

#[derive(Debug, Clone, Copy, PartialEq, Eq, Structural, PartialOrd, Ord)]
pub enum PrivilegeLevel {
    Ring0,
    Ring1,
    Ring2,
    Ring3,
}

#[derive(Debug, Clone, Copy, PartialEq, Eq, Structural)]
pub enum DescriptorType {
    SystemSegment,
    CodeOrData,
}

#[derive(Debug, Clone, Copy, PartialEq, Eq, Structural)]
pub enum Granularity {
    Byte,
    Page4KiB,
}

#[derive(Debug, Clone, Copy, PartialEq, Eq, Structural)]
pub enum Size {
    ProtectedMode16,
    ProtectedMode32,
}

impl PrivilegeLevel {
    pub open spec fn spec_value(self) -> u8 {
        match self {
            PrivilegeLevel::Ring0 => 0,
            PrivilegeLevel::Ring1 => 1,
            PrivilegeLevel::Ring2 => 2,
            PrivilegeLevel::Ring3 => 3,
        }
    }

    /// The ring number.
    pub fn value(self) -> (r: u8)
        ensures
            r == self.spec_value(),
    {
        match self {
            PrivilegeLevel::Ring0 => 0,
            PrivilegeLevel::Ring1 => 1,
            PrivilegeLevel::Ring2 => 2,
            PrivilegeLevel::Ring3 => 3,
        }
    }
}

impl DescriptorType {
    pub open spec fn spec_value(self) -> u8 {
        match self {
            DescriptorType::SystemSegment => 0,
            DescriptorType::CodeOrData => 1,
        }
    }

    /// The descriptor-type bit.
    pub fn value(self) -> (r: u8)
        ensures
            r == self.spec_value(),
    {
        match self {
            DescriptorType::SystemSegment => 0,
            DescriptorType::CodeOrData => 1,
        }
    }
}

impl Granularity {
    pub open spec fn spec_value(self) -> u8 {
        match self {
            Granularity::Byte => 0,
            Granularity::Page4KiB => 1,
        }
    }

    /// The granularity bit.
    pub fn value(self) -> (r: u8)
        ensures
            r == self.spec_value(),
    {
        match self {
            Granularity::Byte => 0,
            Granularity::Page4KiB => 1,
        }
    }
}

impl Size {
    pub open spec fn spec_value(self) -> u8 {
        match self {
            Size::ProtectedMode16 => 0,
            Size::ProtectedMode32 => 1,
        }
    }

    /// The size bit.
    pub fn value(self) -> (r: u8)
        ensures
            r == self.spec_value(),
    {
        match self {
            Size::ProtectedMode16 => 0,
            Size::ProtectedMode32 => 1,
        }
    }
}

/// The value of a bool as a bit.
pub open spec fn bool_bit(b: bool) -> u8 {
    if b { 1 } else { 0 }
}

fn bool_value(b: bool) -> (r: u8)
    ensures
        r == bool_bit(b),
{
    if b { 1 } else { 0 }
}

proof fn lemma_flags_fields(g: u8, s: u8, c: u8)
    by (bit_vector)
    requires
        g <= 1,
        s <= 1,
        c <= 1,
    ensures
        (((g << 3u8) | (s << 2u8) | (c << 1u8)) >> 3u8) & 1 == g,
        (((g << 3u8) | (s << 2u8) | (c << 1u8)) >> 2u8) & 1 == s,
        (((g << 3u8) | (s << 2u8) | (c << 1u8)) >> 1u8) & 1 == c,
        ((g << 3u8) | (s << 2u8) | (c << 1u8)) < 16,
{
}

impl Flags {
    /// The flags for `granularity`, `size` and long mode `code_segment_64`.
    pub fn new(granularity: Granularity, size: Size, code_segment_64: bool) -> (r: Self)
        ensures
            r.granularity_bit() == granularity.spec_value(),
            r.size_bit() == size.spec_value(),
            r.long_mode_bit() == bool_bit(code_segment_64),
            r.0 == (granularity.spec_value() << 3u8) | (size.spec_value() << 2u8) | (bool_bit(code_segment_64) << 1u8),
            r.0 < 16,
    {
        let g: u8 = granularity.value();
        let s: u8 = size.value();
        let c: u8 = bool_value(code_segment_64);
        proof {
            lemma_flags_fields(g, s, c);
        }
        Self((g << 3u8) | (s << 2u8) | (c << 1u8))
    }

    pub open spec fn granularity_bit(&self) -> u8 {
        (self.0 >> 3u8) & 1
    }

    pub open spec fn size_bit(&self) -> u8 {
        (self.0 >> 2u8) & 1
    }

    pub open spec fn long_mode_bit(&self) -> u8 {
        (self.0 >> 1u8) & 1
    }

    /// The granularity: 4 KiB pages when bit 3 is set, bytes otherwise.
    pub fn granularity(&self) -> (r: Granularity)
        ensures
            r.spec_value() == self.granularity_bit(),
    {
        if (self.0 >> 3u8) & 1 != 0 {
            proof {
                lemma_u8_fields(self.0);
            }
            Granularity::Page4KiB
        } else {
            Granularity::Byte
        }
    }

    /// The size: 32-bit protected mode when bit 2 is set, 16-bit otherwise.
    pub fn size(&self) -> (r: Size)
        ensures
            r.spec_value() == self.size_bit(),
    {
        if (self.0 >> 2u8) & 1 != 0 {
            proof {
                lemma_u8_fields(self.0);
            }
            Size::ProtectedMode32
        } else {
            Size::ProtectedMode16
        }
    }

    /// The long-mode code segment bit (bit 1).
    pub fn code_segment_64(&self) -> (r: bool)
        ensures
            r == (self.long_mode_bit() != 0),
    {
        (self.0 >> 1u8) & 1 != 0
    }
}

proof fn lemma_access_fields(p: u8, pl: u8, ty: u8, e: u8, dc: u8, rw: u8, a: u8)
    by (bit_vector)
    requires
        p <= 1,
        pl <= 3,
        ty <= 1,
        e <= 1,
        dc <= 1,
        rw <= 1,
        a <= 1,
    ensures
        (((p << 7u8) | (pl << 5u8) | (ty << 4u8) | (e << 3u8) | (dc << 2u8) | (rw << 1u8) | a) >> 7u8) & 1 == p,
        (((p << 7u8) | (pl << 5u8) | (ty << 4u8) | (e << 3u8) | (dc << 2u8) | (rw << 1u8) | a) >> 5u8) & 3 == pl,
        (((p << 7u8) | (pl << 5u8) | (ty << 4u8) | (e << 3u8) | (dc << 2u8) | (rw << 1u8) | a) >> 4u8) & 1 == ty,
        (((p << 7u8) | (pl << 5u8) | (ty << 4u8) | (e << 3u8) | (dc << 2u8) | (rw << 1u8) | a) >> 3u8) & 1 == e,
        (((p << 7u8) | (pl << 5u8) | (ty << 4u8) | (e << 3u8) | (dc << 2u8) | (rw << 1u8) | a) >> 2u8) & 1 == dc,
        (((p << 7u8) | (pl << 5u8) | (ty << 4u8) | (e << 3u8) | (dc << 2u8) | (rw << 1u8) | a) >> 1u8) & 1 == rw,
        ((p << 7u8) | (pl << 5u8) | (ty << 4u8) | (e << 3u8) | (dc << 2u8) | (rw << 1u8) | a) & 1 == a,
{
}

impl Access {
    /// The access byte with the given fields.
    pub fn new(
        present: bool,
        privilege_level: PrivilegeLevel,
        ty: DescriptorType,
        executable: bool,
        dc: bool,
        rw: bool,
        accessed: bool,
    ) -> (r: Self)
        ensures
            r.field(7, 1) == bool_bit(present),
            r.field(5, 3) == privilege_level.spec_value(),
            r.field(4, 1) == ty.spec_value(),
            r.field(3, 1) == bool_bit(executable),
            r.field(2, 1) == bool_bit(dc),
            r.field(1, 1) == bool_bit(rw),
            r.field(0, 1) == bool_bit(accessed),
            r.0 == (bool_bit(present) << 7u8) | (privilege_level.spec_value() << 5u8) | (ty.spec_value() << 4u8)
                | (bool_bit(executable) << 3u8) | (bool_bit(dc) << 2u8) | (bool_bit(rw) << 1u8) | bool_bit(accessed),
    {
        let p: u8 = bool_value(present);
        let pl: u8 = privilege_level.value();
        let t: u8 = ty.value();
        let e: u8 = bool_value(executable);
        let d: u8 = bool_value(dc);
        let w: u8 = bool_value(rw);
        let a: u8 = bool_value(accessed);
        proof {
            lemma_access_fields(p, pl, t, e, d, w, a);
            lemma_u8_fields((p << 7u8) | (pl << 5u8) | (t << 4u8) | (e << 3u8) | (d << 2u8) | (w << 1u8) | a);
        }
        Self((p << 7u8) | (pl << 5u8) | (t << 4u8) | (e << 3u8) | (d << 2u8) | (w << 1u8) | a)
    }

    /// The field of the access byte at bit `shift` under `mask`.
    pub open spec fn field(&self, shift: u8, mask: u8) -> u8 {
        (self.0 >> shift) & mask
    }

    /// The present bit.
    pub fn present(&self) -> (r: bool)
        ensures
            r == (self.field(7, 1) != 0),
    {
        (self.0 >> 7u8) & 1 != 0
    }

    /// The privilege level (bits 5..=6).
    pub fn privilege_level(&self) -> (r: PrivilegeLevel)
        ensures
            r.spec_value() == self.field(5, 3),
    {
        let v: u8 = (self.0 >> 5u8) & 0b11;
        proof {
            lemma_u8_fields(self.0);
        }
        if v == 0 {
            PrivilegeLevel::Ring0
        } else if v == 1 {
            PrivilegeLevel::Ring1
        } else if v == 2 {
            PrivilegeLevel::Ring2
        } else {
            PrivilegeLevel::Ring3
        }
    }

    /// The descriptor type (bit 4).
    pub fn ty(&self) -> (r: DescriptorType)
        ensures
            r.spec_value() == self.field(4, 1),
    {
        if (self.0 >> 4u8) & 1 != 0 {
            proof {
                lemma_u8_fields(self.0);
            }
            DescriptorType::CodeOrData
        } else {
            DescriptorType::SystemSegment
        }
    }

    /// The executable bit.
    pub fn executable(&self) -> (r: bool)
        ensures
            r == (self.field(3, 1) != 0),
    {
        (self.0 >> 3u8) & 1 != 0
    }

    /// The direction/conforming bit.
    pub fn dc(&self) -> (r: bool)
        ensures
            r == (self.field(2, 1) != 0),
    {
        (self.0 >> 2u8) & 1 != 0
    }

    /// The readable/writable bit.
    pub fn rw(&self) -> (r: bool)
        ensures
            r == (self.field(1, 1) != 0),
    {
        (self.0 >> 1u8) & 1 != 0
    }

    /// The accessed bit.
    pub fn accessed(&self) -> (r: bool)
        ensures
            r == (self.field(0, 1) != 0),
    {
        (self.0 >> 0u8) & 1 != 0
    }
}

/// The 64-bit task state segment: stack pointers for privilege changes and the interrupt
/// stack table.
#[derive(Debug, Clone, Copy)]
pub struct TaskStateSegment {
    reserved0: u32,
    rsp0: u64,
    rsp1: u64,
    rsp2: u64,
    reserved1: [u32; 2],
    ist1: u64,
    ist2: u64,
    ist3: u64,
    ist4: u64,
    ist5: u64,
    ist6: u64,
    ist7: u64,
    reserved2: [u32; 2],
    reserved3: u16,
    iopb: u16,
}

impl TaskStateSegment {
    /// Whether every field of the segment is zero.
    pub closed spec fn is_zero(&self) -> bool {
        &&& self.reserved0 == 0
        &&& self.rsp0 == 0
        &&& self.rsp1 == 0
        &&& self.rsp2 == 0
        &&& self.reserved1@ == seq![0u32, 0u32]
        &&& self.ist1 == 0
        &&& self.ist2 == 0
        &&& self.ist3 == 0
        &&& self.ist4 == 0
        &&& self.ist5 == 0
        &&& self.ist6 == 0
        &&& self.ist7 == 0
        &&& self.reserved2@ == seq![0u32, 0u32]
        &&& self.reserved3 == 0
        &&& self.iopb == 0
    }

    /// The segment with every field zero.
    pub fn zero() -> (r: Self)
        ensures
            r.is_zero(),
    {
        let r = Self {
            reserved0: 0,
            rsp0: 0,
            rsp1: 0,
            rsp2: 0,
            reserved1: [0u32; 2],
            ist1: 0,
            ist2: 0,
            ist3: 0,
            ist4: 0,
            ist5: 0,
            ist6: 0,
            ist7: 0,
            reserved2: [0u32; 2],
            reserved3: 0,
            iopb: 0,
        };
        assert(r.reserved1@ =~= seq![0u32, 0u32]);
        assert(r.reserved2@ =~= seq![0u32, 0u32]);
        r
    }
}

/// The global descriptor table: a run of segment descriptors.
#[derive(Debug)]
pub struct GlobalDescriptorTable {
    descriptors: Vec<SegmentDescriptor>,
}

impl GlobalDescriptorTable {
    /// The descriptor words of the table, in order.
    pub closed spec fn words(&self) -> Seq<u64> {
        self.descriptors@.map_values(|d: SegmentDescriptor| d.0)
    }

    /// A table of `len` null descriptors.
    pub fn new(len: usize) -> (r: Self)
        ensures
            r.words() == Seq::new(len as nat, |i: int| 0u64),
    {
        let mut descriptors: Vec<SegmentDescriptor> = Vec::new();
        while descriptors.len() < len
            invariant
                descriptors.len() <= len,
                forall|i: int| 0 <= i < descriptors.len() ==> #[trigger] descriptors@[i].0 == 0,
            decreases len - descriptors.len(),
        {
            descriptors.push(SegmentDescriptor::zero());
        }
        let r = Self { descriptors };
        assert(r.words() =~= Seq::new(len as nat, |i: int| 0u64));
        r
    }

    /// The number of descriptors in the table.
    pub fn len(&self) -> (r: usize)
        ensures
            r == self.words().len(),
    {
        self.descriptors.len()
    }

    /// The descriptor at `index`.
    pub fn get(&self, index: usize) -> (r: SegmentDescriptor)
        requires
            index < self.words().len(),
        ensures
            r.0 == self.words()[index as int],
    {
        self.descriptors[index]
    }

    /// Puts `descriptor` at `index`, leaving the other entries as they were.
    pub fn set(&mut self, index: usize, descriptor: SegmentDescriptor)
        requires
            index < old(self).words().len(),
        ensures
            final(self).words() == old(self).words().update(index as int, descriptor.0),
    {
        self.descriptors.set(index, descriptor);
        assert(self.words() =~= old(self).words().update(index as int, descriptor.0));
    }
}

/// The operand of `lgdt`: the table's size in bytes minus one, and its address.
#[derive(Debug, Clone, Copy)]
pub struct Gdtr {
    pub size: u16,
    pub address: u64,
}

impl Gdtr {
    /// The register value for `gdt` placed at `address`: the size of its descriptors in bytes
    /// minus one, cut to 16 bits.
    pub fn new_for(gdt: &GlobalDescriptorTable, address: u64) -> (r: Self)
        requires
            1 <= gdt.words().len(),
            gdt.words().len() * 8 <= usize::MAX,
        ensures
            r.size == (gdt.words().len() * 8 - 1) as u16,
            r.address == address,
    {
        let bytes: usize = gdt.len() * 8;
        let size: u16 = (bytes - 1) as u16;
        Self { size, address }
    }
}

/// The descriptor of the kernel code segment: flat, 4 KiB granular, long mode, ring 0,
/// executable and readable.
pub open spec fn kernel_code_word() -> u64 {
    descriptor_word(0, 0xFFFFF, 0b1010, 0x9A)
}

/// The descriptor of the kernel data segment: flat, 4 KiB granular, 32-bit, ring 0,
/// writable.
pub open spec fn kernel_data_word() -> u64 {
    descriptor_word(0, 0xFFFFF, 0b1100, 0x92)
}

/// The descriptor of the user code segment: as the kernel's, at ring 3.
pub open spec fn user_code_word() -> u64 {
    descriptor_word(0, 0xFFFFF, 0b1010, 0xFA)
}

/// The descriptor of the user data segment: as the kernel's, at ring 3.
pub open spec fn user_data_word() -> u64 {
    descriptor_word(0, 0xFFFFF, 0b1100, 0xF2)
}

proof fn lemma_segment_constants()
    by (bit_vector)
    ensures
        (1u8 << 3u8) | (0u8 << 2u8) | (1u8 << 1u8) == 0b1010u8,
        (1u8 << 3u8) | (1u8 << 2u8) | (0u8 << 1u8) == 0b1100u8,
        (1u8 << 7u8) | (0u8 << 5u8) | (1u8 << 4u8) | (1u8 << 3u8) | (0u8 << 2u8) | (1u8 << 1u8) | 0u8 == 0x9Au8,
        (1u8 << 7u8) | (0u8 << 5u8) | (1u8 << 4u8) | (0u8 << 3u8) | (0u8 << 2u8) | (1u8 << 1u8) | 0u8 == 0x92u8,
        (1u8 << 7u8) | (3u8 << 5u8) | (1u8 << 4u8) | (1u8 << 3u8) | (0u8 << 2u8) | (1u8 << 1u8) | 0u8 == 0xFAu8,
        (1u8 << 7u8) | (3u8 << 5u8) | (1u8 << 4u8) | (0u8 << 3u8) | (0u8 << 2u8) | (1u8 << 1u8) | 0u8 == 0xF2u8,
        0xFFFFFu32 & 0xFFFFF == 0xFFFFFu32,
{
}

/// The global descriptor table of the kernel, with its task state segment at `tss_address`:
/// the null descriptor, kernel code and data, user code and data, and the two descriptors
/// of the task state segment.
pub fn init(tss_address: u64) -> (r: GlobalDescriptorTable)
    ensures
        r.words() == seq![
            0u64,
            kernel_code_word(),
            kernel_data_word(),
            user_code_word(),
            user_data_word(),
            descriptor_word(tss_address & 0xFFFF_FFFF, (TSS_SIZE - 1) as u64, 0, 0x89),
            (tss_address >> 32u64) & 0xFFFF_FFFF,
        ],
{
    proof {
        lemma_segment_constants();
    }
    let sd_null = SegmentDescriptor::null();
    let sd_kernel_code = SegmentDescriptor::new(
        0,
        0xFFFFF,
        Flags::new(Granularity::Page4KiB, Size::ProtectedMode16, true),
        Access::new(true, PrivilegeLevel::Ring0, DescriptorType::CodeOrData, true, false, true, false),
    );
    let sd_kernel_data = SegmentDescriptor::new(
        0,
        0xFFFFF,
        Flags::new(Granularity::Page4KiB, Size::ProtectedMode32, false),
        Access::new(true, PrivilegeLevel::Ring0, DescriptorType::CodeOrData, false, false, true, false),
    );
    let sd_user_code = SegmentDescriptor::new(
        0,
        0xFFFFF,
        Flags::new(Granularity::Page4KiB, Size::ProtectedMode16, true),
        Access::new(true, PrivilegeLevel::Ring3, DescriptorType::CodeOrData, true, false, true, false),
    );
    let sd_user_data = SegmentDescriptor::new(
        0,
        0xFFFFF,
        Flags::new(Granularity::Page4KiB, Size::ProtectedMode32, false),
        Access::new(true, PrivilegeLevel::Ring3, DescriptorType::CodeOrData, false, false, true, false),
    );
    let mut gdt = GlobalDescriptorTable::new(7);
    gdt.set(0, sd_null);
    gdt.set(1, sd_kernel_code);
    gdt.set(2, sd_kernel_data);
    gdt.set(3, sd_user_code);
    gdt.set(4, sd_user_data);
    let (tss_entry0, tss_entry1) = SegmentDescriptor::for_tss(tss_address);
    gdt.set(5, tss_entry0);
    gdt.set(6, tss_entry1);
    assert(gdt.words() =~= seq![
        0u64,
        kernel_code_word(),
        kernel_data_word(),
        user_code_word(),
        user_data_word(),
        descriptor_word(tss_address & 0xFFFF_FFFF, (TSS_SIZE - 1) as u64, 0, 0x89),
        (tss_address >> 32u64) & 0xFFFF_FFFF,
    ]);
    gdt
}

} // verus!
