//! The configuration table: a run of entries, each a table's identifier and address.
use vstd::prelude::*;

verus! {

/// Size in bytes of a configuration table entry: a 16-byte identifier and an address.
pub const ENTRY_SIZE: u64 = 24;

/// The configuration table: `count` entries starting at address `data`.
#[derive(Debug, Clone, Copy)]
pub struct ConfigurationTable {
    count: usize,
    data: u64,
}

/// The address of entry `index` of a table at `data`.
pub open spec fn entry_address(data: u64, index: int) -> int {
    data + index * ENTRY_SIZE
}

impl ConfigurationTable {
    /// The number of entries.
    pub closed spec fn count_spec(&self) -> usize {
        self.count
    }

    /// The address of the first entry.
    pub closed spec fn data_spec(&self) -> u64 {
        self.data
    }

    /// The entries lie within the address space.
    pub open spec fn wf(&self) -> bool {
        self.data_spec() + self.count_spec() * ENTRY_SIZE <= u64::MAX
    }

    /// The table of `count` entries at `data`.
    pub fn new(count: usize, data: u64) -> (r: Self)
        ensures
            r.count_spec() == count,
            r.data_spec() == data,
    {
        Self { count, data }
    }

    /// The number of entries.
    pub fn len(&self) -> (r: usize)
        ensures
            r == self.count_spec(),
    {
        self.count
    }

    /// An iterator over the addresses of the entries, from the first.
    pub fn iter(&self) -> (r: ConfigurationTableIterator)
        ensures
            r.table_spec() == *self,
            r.index_spec() == 0,
    {
        ConfigurationTableIterator { table: *self, index: 0 }
    }
}

/// An iterator over the addresses of a configuration table's entries.
#[derive(Debug, Clone, Copy)]
pub struct ConfigurationTableIterator {
    table: ConfigurationTable,
    index: usize,
}

impl ConfigurationTableIterator {
    /// The table walked.
    pub closed spec fn table_spec(&self) -> ConfigurationTable {
        self.table
    }

    /// The index of the next entry.
    pub closed spec fn index_spec(&self) -> usize {
        self.index
    }

    /// The address of the next entry, moving past it; `None` at the end.
    pub fn next(&mut self) -> (r: Option<u64>)
        requires
            old(self).table_spec().wf(),
        ensures
            final(self).table_spec() == old(self).table_spec(),
            old(self).index_spec() >= old(self).table_spec().count_spec() ==> r is None
                && final(self).index_spec() == old(self).index_spec(),
            old(self).index_spec() < old(self).table_spec().count_spec() ==> {
                &&& r == Some(entry_address(old(self).table_spec().data_spec(), old(self).index_spec() as int) as u64)
                &&& final(self).index_spec() == old(self).index_spec() + 1
            },
    {
        if self.index >= self.table.len() {
            return None;
        }
        proof {
            vstd::arithmetic::mul::lemma_mul_inequality(self.index as int, self.table.count as int, ENTRY_SIZE as int);
        }
        let address: u64 = self.table.data + self.index as u64 * ENTRY_SIZE;
        self.index = self.index + 1;
        Some(address)
    }
}

} // verus!
