//! ACPI: the root system description table and the tables it lists.
use vstd::prelude::*;

pub mod error;
pub mod raw;
pub mod rsdp;
pub mod table;
pub mod tables;

pub use error::{AcpiError, RsdpError};
pub use rsdp::{Rsdp, Rsdt};
pub use table::Table;

verus! {

/// Entry point to the ACPI tables.
#[derive(Debug)]
pub struct AcpiTables;

impl AcpiTables {
    /// The iterator over the tables of the root table that was looked up from an RSDP;
    /// the lookup's error passes through.
    pub fn from_rsdp(rsdt: Result<Rsdt, AcpiError>) -> (r: Result<AcpiTableIterator, AcpiError>)
        ensures
            match rsdt {
                Ok(t) => r matches Ok(it) && it.rsdt_spec() == t && it.index_spec() == 0,
                Err(e) => r == Err::<AcpiTableIterator, AcpiError>(e),
            },
    {
        match rsdt {
            Ok(t) => Ok(AcpiTableIterator::new(t)),
            Err(e) => Err(e),
        }
    }
}

/// An iterator over the addresses of the tables that a root table lists.
#[derive(Debug)]
pub struct AcpiTableIterator {
    rsdt: Rsdt,
    index: usize,
}

impl AcpiTableIterator {
    /// The root table walked.
    pub closed spec fn rsdt_spec(&self) -> Rsdt {
        self.rsdt
    }

    /// The index of the next table.
    pub closed spec fn index_spec(&self) -> usize {
        self.index
    }

    /// The iterator from the first table of `rsdt`.
    pub fn new(rsdt: Rsdt) -> (r: Self)
        ensures
            r.rsdt_spec() == rsdt,
            r.index_spec() == 0,
    {
        Self { rsdt, index: 0 }
    }

    /// The address of the next table, moving past it; `None` at the end.
    pub fn next(&mut self) -> (r: Option<u64>)
        ensures
            final(self).rsdt_spec() == old(self).rsdt_spec(),
            old(self).index_spec() < old(self).rsdt_spec().addresses().len() ==> {
                &&& r == Some(old(self).rsdt_spec().addresses()[old(self).index_spec() as int])
                &&& final(self).index_spec() == old(self).index_spec() + 1
            },
            old(self).index_spec() >= old(self).rsdt_spec().addresses().len() ==> r is None
                && final(self).index_spec() == old(self).index_spec(),
    {
        let item = self.rsdt.get(self.index);
        match item {
            Some(address) => {
                self.index = self.index + 1;
                Some(address)
            },
            None => None,
        }
    }
}

} // verus!
