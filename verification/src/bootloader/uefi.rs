//! The firmware's system table as the bootloader reads it: where the configuration table
//! is, and who holds the boot services.
pub mod config_table;
pub mod system_table;

pub use super::uefi2::memory_map::MemoryMap;
pub use super::uefi2::raw::{Guid, MemoryAttribute, MemoryDescriptor, MemoryType, Status};
pub use config_table::{ConfigurationTable, ConfigurationTableIterator};
pub use system_table::SystemTable;
