//! The UEFI bootloader: disk, filesystem and executable formats, devices, and paging.
pub mod paging;
pub mod pci;
pub mod cursor;
pub mod elf;
pub mod disk;
pub mod fat;
pub mod ahci;
pub mod uefi2;
pub mod allocator;
pub mod allocators;
pub mod uefi;
pub mod loader;
