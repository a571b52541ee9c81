//! Verified core of a small x86-64 bootloader and kernel: paging entries and page maps,
//! descriptor tables, page and heap allocators, the AHCI and UEFI encodings, ACPI tables,
//! and the parsers for the on-disk formats the bootloader reads (MBR, FAT, ELF).
pub mod bits;
pub mod common;
pub mod bootloader;
pub mod kernel;
pub mod acpi;
