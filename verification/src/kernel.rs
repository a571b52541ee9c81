//! The kernel: descriptor tables, interrupts and memory management.
pub mod memory;
pub mod gdt;
pub mod idt;
pub mod interrupts;
pub mod vmm;
