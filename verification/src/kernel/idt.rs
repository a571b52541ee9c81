//! The interrupt descriptor table.
use vstd::prelude::*;

verus! {

/// Number of entries in the interrupt descriptor table.
pub const IDT_ENTRIES: usize = 256;

/// Size in bytes of one descriptor.
pub const IDT_ENTRY_SIZE: usize = 16;

/// A 64-bit interrupt descriptor: the handler's address split in three, the code segment
/// selector, the interrupt stack table index and the type and attributes byte.
#[derive(Debug, Clone, Copy)]
pub struct IdtEntry {
    pub isr_low: u16,
    pub kernel_cs: u16,
    pub ist: u8,
    pub attributes: u8,
    pub isr_mid: u16,
    pub isr_high: u32,
    pub reserved: u32,
}

/// The handler address that the three parts put together.
pub open spec fn join_isr(low: u16, mid: u16, high: u32) -> u64 {
    (low as u64) | ((mid as u64) << 16u64) | ((high as u64) << 32u64)
}

proof fn lemma_split_join(isr: u64)
    by (bit_vector)
    ensures
        (isr as u16 as u64) | (((isr >> 16u64) as u16 as u64) << 16u64) | (((isr >> 32u64) as u32 as u64)
            << 32u64) == isr,
        (0u16 as u64) | ((0u16 as u64) << 16u64) | ((0u32 as u64) << 32u64) == 0u64,
{
}

impl IdtEntry {
    /// The handler address held by the entry.
    pub open spec fn isr_spec(&self) -> u64 {
        join_isr(self.isr_low, self.isr_mid, self.isr_high)
    }

    /// The selector, the stack index and the attributes byte.
    pub open spec fn descriptor_fields(&self) -> (u16, u8, u8) {
        (self.kernel_cs, self.ist, self.attributes)
    }

    /// Whether the reserved field is zero.
    pub open spec fn reserved_clear(&self) -> bool {
        self.reserved == 0
    }

    /// The descriptor for the handler at `isr`, with the given selector, stack index and attributes.
    pub fn new(isr: u64, kernel_cs: u16, ist: u8, attributes: u8) -> (r: Self)
        ensures
            entry_is(r, isr, kernel_cs, ist, attributes),
    {
        let isr_low: u16 = isr as u16;
        let isr_mid: u16 = (isr >> 16u64) as u16;
        let isr_high: u32 = (isr >> 32u64) as u32;
        proof {
            lemma_split_join(isr);
        }
        Self { isr_low, kernel_cs, ist, attributes, isr_mid, isr_high, reserved: 0 }
    }

    /// The descriptor with every field zero.
    pub fn zero() -> (r: Self)
        ensures
            entry_is(r, 0, 0, 0, 0),
    {
        proof {
            lemma_split_join(0);
        }
        Self { isr_low: 0, kernel_cs: 0, ist: 0, attributes: 0, isr_mid: 0, isr_high: 0, reserved: 0 }
    }

    /// The handler address.
    pub fn isr(&self) -> (r: u64)
        ensures
            r == self.isr_spec(),
    {
        (self.isr_low as u64) | ((self.isr_mid as u64) << 16u64) | ((self.isr_high as u64) << 32u64)
    }
}

/// A descriptor with handler `isr`, selector `kernel_cs`, stack index `ist` and `attributes`.
pub open spec fn entry_is(e: IdtEntry, isr: u64, kernel_cs: u16, ist: u8, attributes: u8) -> bool {
    &&& e.isr_spec() == isr
    &&& e.descriptor_fields() == (kernel_cs, ist, attributes)
    &&& e.reserved_clear()
}

/// The table of the 256 interrupt descriptors.
#[derive(Debug)]
pub struct InterruptDescriptorTable {
    entries: Vec<IdtEntry>,
}

impl InterruptDescriptorTable {
    /// The descriptors, in vector order.
    pub closed spec fn entries_spec(&self) -> Seq<IdtEntry> {
        self.entries@
    }

    /// The table has exactly 256 descriptors.
    pub open spec fn wf(&self) -> bool {
        self.entries_spec().len() == IDT_ENTRIES
    }

    /// The table of 256 zero descriptors.
    pub fn zero() -> (r: Self)
        ensures
            r.wf(),
            forall|i: int| 0 <= i < IDT_ENTRIES ==> entry_is(#[trigger] r.entries_spec()[i], 0, 0, 0, 0),
    {
        let mut entries: Vec<IdtEntry> = Vec::new();
        while entries.len() < IDT_ENTRIES
            invariant
                entries.len() <= IDT_ENTRIES,
                forall|i: int| 0 <= i < entries.len() ==> entry_is(#[trigger] entries@[i], 0, 0, 0, 0),
            decreases IDT_ENTRIES - entries.len(),
        {
            entries.push(IdtEntry::zero());
        }
        Self { entries }
    }

    /// The descriptor of vector `index`.
    pub fn index(&self, index: usize) -> (r: IdtEntry)
        requires
            index < self.entries_spec().len(),
        ensures
            r == self.entries_spec()[index as int],
    {
        self.entries[index]
    }

    /// Replaces the descriptor of vector `index`, leaving the others as they were.
    pub fn set(&mut self, index: usize, entry: IdtEntry)
        requires
            index < old(self).entries_spec().len(),
        ensures
            final(self).entries_spec() == old(self).entries_spec().update(index as int, entry),
    {
        self.entries.set(index, entry);
    }
}

/// The operand of `lidt`: the table's size in bytes minus one, and its address.
#[derive(Debug, Clone, Copy)]
pub struct Idtr {
    pub limit: u16,
    pub base: u64,
}

impl Idtr {
    /// The register value for a table of 256 descriptors placed at `address`.
    pub fn new_for(idt: &InterruptDescriptorTable, address: u64) -> (r: Self)
        ensures
            r.limit == IDT_ENTRIES * IDT_ENTRY_SIZE - 1,
            r.base == address,
    {
        let limit: u16 = (IDT_ENTRIES * IDT_ENTRY_SIZE - 1) as u16;
        Self { limit, base: address }
    }
}

} // verus!
