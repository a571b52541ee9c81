//! Definitions shared by the bootloader and the kernel.
pub mod addresses;
pub mod paging;
pub mod allocation;
pub mod byte_size;
pub mod bootinfo;

pub use addresses::{PAddr, PhysAddr, PhysicalAddress, VAddr, VirtAddr, VirtualAddress};
pub use byte_size::{BitSize, ByteSize};
pub use bootinfo::BootInfo;
