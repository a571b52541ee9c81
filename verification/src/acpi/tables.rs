//! The ACPI tables that the library reads.
pub mod mcfg;

pub use mcfg::Mcfg;
