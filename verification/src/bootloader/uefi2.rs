//! UEFI boot-time services: the raw firmware data structures, the memory map, and the
//! decisions around the firmware's allocation and memory-map calls.
pub mod raw;
pub mod memory_map;
pub mod boot;
