//! Installation of the exception handlers in the interrupt descriptor table.
use vstd::prelude::*;
use super::idt::{entry_is, IdtEntry, InterruptDescriptorTable, IDT_ENTRIES};

verus! {

/// Number of exception vectors that get a handler: 0 to 21 without the reserved vector 15.
pub const HANDLED_VECTORS: usize = 21;

/// Selector of the kernel code segment.
pub const KERNEL_CODE_SELECTOR: u16 = 0x08;

/// Present, ring 0, 64-bit interrupt descriptor type.
pub const INTERRUPT_TYPE_ATTR: u8 = 0x8E;

/// Whether exception vector `v` gets a handler.
pub open spec fn is_handled(v: int) -> bool {
    0 <= v <= 21 && v != 15
}

/// The position, in the list of handlers, of the handler of vector `v`.
pub open spec fn handler_slot(v: int) -> int {
    if v < 15 { v } else { v - 1 }
}

/// The interrupt descriptor table with the exception handlers at `handlers` installed: the
/// handler at position `i` serves vector `i` for `i` below 15 and vector `i + 1` after that
/// (vector 15 is reserved), each as a present ring 0 interrupt descriptor in the kernel code
/// segment with no separate stack. Every other vector has a zero descriptor.
pub fn init(handlers: &[u64]) -> (r: InterruptDescriptorTable)
    requires
        handlers@.len() == HANDLED_VECTORS,
    ensures
        r.wf(),
        forall|v: int|
            0 <= v < IDT_ENTRIES ==> if is_handled(v) {
                entry_is(
                    #[trigger] r.entries_spec()[v],
                    handlers@[handler_slot(v)],
                    KERNEL_CODE_SELECTOR,
                    0,
                    INTERRUPT_TYPE_ATTR,
                )
            } else {
                entry_is(r.entries_spec()[v], 0, 0, 0, 0)
            },
{
    let mut idt = InterruptDescriptorTable::zero();
    let mut i: usize = 0;
    while i < HANDLED_VECTORS
        invariant
            0 <= i <= HANDLED_VECTORS,
            handlers@.len() == HANDLED_VECTORS,
            idt.wf(),
            forall|v: int|
                0 <= v < IDT_ENTRIES ==> if is_handled(v) && handler_slot(v) < i {
                    entry_is(
                        #[trigger] idt.entries_spec()[v],
                        handlers@[handler_slot(v)],
                        KERNEL_CODE_SELECTOR,
                        0,
                        INTERRUPT_TYPE_ATTR,
                    )
                } else {
                    entry_is(idt.entries_spec()[v], 0, 0, 0, 0)
                },
        decreases HANDLED_VECTORS - i,
    {
        let vector: usize = if i < 15 { i } else { i + 1 };
        let entry = IdtEntry::new(handlers[i], KERNEL_CODE_SELECTOR, 0, INTERRUPT_TYPE_ATTR);
        idt.set(vector, entry);
        i = i + 1;
    }
    idt
}

} // verus!
