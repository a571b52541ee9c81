//! The firmware's data structures.
use vstd::prelude::*;

verus! {

/// The bit that marks an error status.
pub const HIGHEST_BIT: u64 = 0x8000_0000_0000_0000;

/// The success status code.
pub const SUCCESS: u64 = 0;

/// The image could not be loaded.
pub const LOAD_ERROR: u64 = HIGHEST_BIT | 1;

/// A parameter was incorrect.
pub const INVALID_PARAMETER: u64 = HIGHEST_BIT | 2;

/// The operation is not supported.
pub const UNSUPPORTED: u64 = HIGHEST_BIT | 3;

/// The buffer was not the proper size for the request.
pub const BAD_BUFFER_SIZE: u64 = HIGHEST_BIT | 4;

/// The buffer is too small; the required size was returned.
pub const BUFFER_TOO_SMALL: u64 = HIGHEST_BIT | 5;

/// The code of the EFI error `code`: the code with the highest bit set.
pub open spec fn efi_error_code(code: u64) -> u64 {
    HIGHEST_BIT | code
}

/// A UEFI status code: zero for success, the highest bit for errors, the second highest
/// for vendor (OEM) codes.
#[derive(Debug, PartialEq, Eq, Structural)]
pub struct Status(pub u64);

impl Status {
    /// The EFI error with `code`.
    pub fn new_efi_error(code: u64) -> (r: Self)
        ensures
            r.0 == efi_error_code(code),
    {
        Self(HIGHEST_BIT | code)
    }

    /// The highest bit of the code.
    pub open spec fn highest_bit_spec(&self) -> u64 {
        self.0 >> 63u64
    }

    /// The two highest bits of the code.
    pub open spec fn two_highest_bits_spec(&self) -> u64 {
        self.0 >> 62u64
    }

    fn highest_bit(&self) -> (r: u64)
        ensures
            r == self.highest_bit_spec(),
    {
        self.0 >> 63u64
    }

    fn two_highest_bits(&self) -> (r: u64)
        ensures
            r == self.two_highest_bits_spec(),
    {
        self.0 >> 62u64
    }

    /// An error: the highest bit is set.
    pub fn is_error(&self) -> (r: bool)
        ensures
            r == (self.highest_bit_spec() == 1),
    {
        self.highest_bit() == 1
    }

    /// An EFI error: the two highest bits are `10`.
    pub fn is_efi_error(&self) -> (r: bool)
        ensures
            r == (self.two_highest_bits_spec() == 2),
    {
        self.two_highest_bits() == 2
    }

    /// A vendor error: the two highest bits are `11`.
    pub fn is_oem_error(&self) -> (r: bool)
        ensures
            r == (self.two_highest_bits_spec() == 3),
    {
        self.two_highest_bits() == 3
    }

    /// A warning: the highest bit is clear and the code is not success.
    pub fn is_warning(&self) -> (r: bool)
        ensures
            r == (self.highest_bit_spec() == 0 && self.0 != SUCCESS),
    {
        self.highest_bit() == 0 && *self != Status(SUCCESS)
    }

    /// An EFI warning: the two highest bits are `00` and the code is not success.
    pub fn is_efi_warning(&self) -> (r: bool)
        ensures
            r == (self.two_highest_bits_spec() == 0 && self.0 != SUCCESS),
    {
        self.two_highest_bits() == 0 && *self != Status(SUCCESS)
    }

    /// A vendor warning: the two highest bits are `01` and the code is not success.
    pub fn is_oem_warning(&self) -> (r: bool)
        ensures
            r == (self.two_highest_bits_spec() == 1 && self.0 != SUCCESS),
    {
        self.two_highest_bits() == 1 && *self != Status(SUCCESS)
    }

    /// Not an error: the highest bit is clear (warnings count as success).
    pub fn is_success(&self) -> (r: bool)
        ensures
            r == (self.highest_bit_spec() == 0),
    {
        self.highest_bit() == 0
    }
}

/// Every EFI error code below 2^62 makes a status that is an error, an EFI error, and
/// neither a warning nor a success.
pub proof fn lemma_efi_errors_are_errors(code: u64)
    requires
        code < 0x4000_0000_0000_0000,
    ensures
        Status(efi_error_code(code)).highest_bit_spec() == 1,
        Status(efi_error_code(code)).two_highest_bits_spec() == 2,
{
    assert(code < 0x4000_0000_0000_0000u64 ==> (0x8000_0000_0000_0000u64 | code) >> 63u64 == 1
        && (0x8000_0000_0000_0000u64 | code) >> 62u64 == 2) by (bit_vector);
}

/// The kinds of allocation that the firmware offers.
#[derive(Debug, Clone, Copy, PartialEq, Eq, Structural)]
pub enum AllocateType {
    AllocateAnyPages,
    AllocateMaxAddress,
    AllocateAddress,
}

impl AllocateType {
    /// The firmware's number for the kind.
    pub open spec fn spec_value(self) -> u32 {
        match self {
            AllocateType::AllocateAnyPages => 0,
            AllocateType::AllocateMaxAddress => 1,
            AllocateType::AllocateAddress => 2,
        }
    }

    /// The firmware's number for the kind.
    pub fn value(self) -> (r: u32)
        ensures
            r == self.spec_value(),
    {
        match self {
            AllocateType::AllocateAnyPages => 0,
            AllocateType::AllocateMaxAddress => 1,
            AllocateType::AllocateAddress => 2,
        }
    }
}

/// Memory type 0.
pub const RESERVED_MEMORY_TYPE: u32 = 0;

/// Memory type 1.
pub const LOADER_CODE: u32 = 1;

/// Memory type 2.
pub const LOADER_DATA: u32 = 2;

/// Memory type 3.
pub const BOOT_SERVICES_CODE: u32 = 3;

/// Memory type 4.
pub const BOOT_SERVICES_DATA: u32 = 4;

/// Memory type 5.
pub const RUNTIME_SERVICES_CODE: u32 = 5;

/// Memory type 6.
pub const RUNTIME_SERVICES_DATA: u32 = 6;

/// Memory type 7.
pub const CONVENTIONAL_MEMORY: u32 = 7;

/// Memory type 8.
pub const UNUSABLE_MEMORY: u32 = 8;

/// Memory type 9.
pub const ACPI_RECLAIM_MEMORY: u32 = 9;

/// Memory type 10.
pub const ACPI_MEMORY_NVS: u32 = 10;

/// Memory type 11.
pub const MEMORY_MAPPED_IO: u32 = 11;

/// Memory type 12.
pub const MEMORY_MAPPED_IO_PORT_SPACE: u32 = 12;

/// Memory type 13.
pub const PAL_CODE: u32 = 13;

/// Memory type 14.
pub const PERSISTENT_MEMORY: u32 = 14;

/// Memory type 15.
pub const UNACCEPTED_MEMORY_TYPE: u32 = 15;

/// Memory type 16.
pub const MAX_MEMORY_TYPE: u32 = 16;

/// The type of a region of memory in the memory map, by its firmware number.
#[derive(Debug, Clone, Copy, PartialEq, Eq, Structural, PartialOrd, Ord, Hash, Default)]
pub struct MemoryType(pub u32);

/// Memory attributes: a set of capability bits.
#[derive(Debug, Clone, Copy)]
pub struct MemoryAttribute(pub u64);

/// Can be configured as not cacheable.
pub const ATTRIBUTE_UC: u64 = 0x1;

/// Can be configured as write combining.
pub const ATTRIBUTE_WC: u64 = 0x2;

/// Can be configured as cacheable with a write-through policy.
pub const ATTRIBUTE_WT: u64 = 0x4;

/// Can be configured as cacheable with a write-back policy.
pub const ATTRIBUTE_WB: u64 = 0x8;

/// Can be configured as not cacheable, exported, with the fetch-and-add semaphore mechanism.
pub const ATTRIBUTE_UCE: u64 = 0x10;

/// Can be configured as write-protected by hardware.
pub const ATTRIBUTE_WP: u64 = 0x1000;

/// Can be configured as read-protected by hardware.
pub const ATTRIBUTE_RP: u64 = 0x2000;

/// Can be configured as exec-protected by hardware.
pub const ATTRIBUTE_XP: u64 = 0x4000;

/// Persistent memory.
pub const ATTRIBUTE_NV: u64 = 0x8000;

/// More reliable than other memory in the system.
pub const ATTRIBUTE_MORE_RELIABLE: u64 = 0x10000;

/// Can be configured as read-only by hardware.
pub const ATTRIBUTE_RO: u64 = 0x20000;

/// Specific-purpose memory.
pub const ATTRIBUTE_SP: u64 = 0x40000;

/// Can be protected by the CPU's memory cryptography.
pub const ATTRIBUTE_CPU_CRYPTO: u64 = 0x80000;

/// Can be removed at runtime.
pub const ATTRIBUTE_HOT_PLUGGABLE: u64 = 0x100000;

/// Needs a virtual mapping from the OS at runtime.
pub const ATTRIBUTE_RUNTIME: u64 = 0x8000_0000_0000_0000;

/// There are ISA-specific attributes.
pub const ATTRIBUTE_ISA_VALID: u64 = 0x4000_0000_0000_0000;

/// Mask of the ISA-specific attributes.
pub const ATTRIBUTE_ISA_MASK: u64 = 0x0FFF_F000_0000_0000;

impl MemoryAttribute {
    /// Whether the two sets share a bit.
    pub fn contains(self, other: MemoryAttribute) -> (r: bool)
        ensures
            r == (self.0 & other.0 != 0),
    {
        self.0 & other.0 != 0
    }

    /// The union of the two sets.
    pub fn bitor(self, other: Self) -> (r: Self)
        ensures
            r.0 == self.0 | other.0,
    {
        MemoryAttribute(self.0 | other.0)
    }
}

/// An entry of the memory map: a run of pages of one type.
#[derive(Debug, Clone, Copy)]
pub struct MemoryDescriptor {
    pub ty: MemoryType,
    pub pad0: u32,
    pub physical_start: u64,
    pub virtual_start: u64,
    pub page_count: u64,
    pub attribute: MemoryAttribute,
}

/// Every field of the descriptor is zero.
pub open spec fn is_zero_descriptor(d: MemoryDescriptor) -> bool {
    &&& d.ty.0 == 0
    &&& d.pad0 == 0
    &&& d.physical_start == 0
    &&& d.virtual_start == 0
    &&& d.page_count == 0
    &&& d.attribute.0 == 0
}

/// Size in bytes of a memory descriptor as the firmware lays it out.
pub const MEMORY_DESCRIPTOR_SIZE: usize = 48;

impl MemoryDescriptor {
    /// The descriptor with every field zero.
    pub fn zero() -> (r: Self)
        ensures
            is_zero_descriptor(r),
    {
        Self {
            ty: MemoryType(0),
            pad0: 0,
            physical_start: 0,
            virtual_start: 0,
            page_count: 0,
            attribute: MemoryAttribute(0),
        }
    }
}

/// The header of a firmware table.
#[derive(Debug, Clone, Copy)]
pub struct TableHeader {
    pub signature: u64,
    pub revision: u32,
    pub size: u32,
    pub crc32: u32,
    pub reserved: u32,
}

/// A globally unique identifier, in the firmware's field layout.
#[derive(Debug, Clone, Copy, PartialEq, Eq)]
pub struct Guid {
    time_low: u32,
    time_mid: u16,
    time_high_and_revision: u16,
    clock_seq_high_and_reserved: u8,
    clock_seq_low: u8,
    node: [u8; 6],
}

impl Guid {
    /// The fields of the identifier, in order.
    pub closed spec fn fields(&self) -> (u32, u16, u16, u8, u8, Seq<u8>) {
        (
            self.time_low,
            self.time_mid,
            self.time_high_and_revision,
            self.clock_seq_high_and_reserved,
            self.clock_seq_low,
            self.node@,
        )
    }

    /// The identifier with the given fields.
    pub fn new(
        time_low: u32,
        time_mid: u16,
        time_high_and_revision: u16,
        clock_seq_high_and_reserved: u8,
        clock_seq_low: u8,
        node: [u8; 6],
    ) -> (r: Self)
        ensures
            r.fields() == (time_low, time_mid, time_high_and_revision, clock_seq_high_and_reserved, clock_seq_low, node@),
    {
        Self { time_low, time_mid, time_high_and_revision, clock_seq_high_and_reserved, clock_seq_low, node }
    }

    /// Whether the two identifiers have the same fields.
    pub fn equals(&self, other: &Guid) -> (r: bool)
        ensures
            r == (self.fields() == other.fields()),
    {
        let mut same: bool = self.time_low == other.time_low && self.time_mid == other.time_mid
            && self.time_high_and_revision == other.time_high_and_revision
            && self.clock_seq_high_and_reserved == other.clock_seq_high_and_reserved
            && self.clock_seq_low == other.clock_seq_low;
        let mut i: usize = 0;
        while i < 6
            invariant
                0 <= i <= 6,
                same == (self.time_low == other.time_low && self.time_mid == other.time_mid
                    && self.time_high_and_revision == other.time_high_and_revision
                    && self.clock_seq_high_and_reserved == other.clock_seq_high_and_reserved
                    && self.clock_seq_low == other.clock_seq_low
                    && forall|j: int| 0 <= j < i ==> self.node@[j] == other.node@[j]),
            decreases 6 - i,
        {
            same = same && self.node[i] == other.node[i];
            i = i + 1;
        }
        proof {
            if same {
                assert(self.node@ =~= other.node@);
            }
        }
        same
    }

    /// The identifier of the ACPI 2.0 table in the configuration table.
    pub fn efi_acpi_table_guid() -> (r: Self)
        ensures
            r.fields() == (0x8868e871u32, 0xe4f1u16, 0x11d3u16, 0xbcu8, 0x22u8, seq![0x0u8, 0x80u8, 0xc7u8, 0x3cu8, 0x88u8, 0x81u8]),
    {
        let r = Guid::new(0x8868e871, 0xe4f1, 0x11d3, 0xbc, 0x22, [0x0, 0x80, 0xc7, 0x3c, 0x88, 0x81]);
        assert(r.fields().5 =~= seq![0x0u8, 0x80u8, 0xc7u8, 0x3cu8, 0x88u8, 0x81u8]);
        r
    }
}

/// An entry of the configuration table: a table's identifier and its address.
#[derive(Debug, Clone, Copy)]
pub struct ConfigurationTableEntry {
    pub guid: Guid,
    pub ptr: u64,
}

} // verus!
