//! The firmware's system table: the configuration table's place and the boot services'
//! lock.
use vstd::prelude::*;

use super::config_table::ConfigurationTable;

verus! {

/// The parts of the firmware's system table that the bootloader reads, and whether the
/// boot services are held.
#[derive(Debug)]
pub struct SystemTable {
    number_of_table_entries: usize,
    configuration_table: u64,
    boot_services_held: bool,
}

impl SystemTable {
    /// The number of configuration table entries.
    pub closed spec fn entries_spec(&self) -> usize {
        self.number_of_table_entries
    }

    /// The address of the configuration table; zero for none.
    pub closed spec fn configuration_table_spec(&self) -> u64 {
        self.configuration_table
    }

    /// Whether the boot services are held.
    pub closed spec fn held_spec(&self) -> bool {
        self.boot_services_held
    }

    /// The system table with `number_of_table_entries` configuration entries at
    /// `configuration_table`, its boot services free.
    pub fn from(number_of_table_entries: usize, configuration_table: u64) -> (r: Self)
        ensures
            r.entries_spec() == number_of_table_entries,
            r.configuration_table_spec() == configuration_table,
            !r.held_spec(),
    {
        Self { number_of_table_entries, configuration_table, boot_services_held: false }
    }

    /// The configuration table, when its address is not null.
    pub fn config_table(&self) -> (r: Option<ConfigurationTable>)
        ensures
            self.configuration_table_spec() == 0 ==> r is None,
            self.configuration_table_spec() != 0 ==> (r matches Some(t) && t.count_spec()
                == self.entries_spec() && t.data_spec() == self.configuration_table_spec()),
    {
        if self.configuration_table == 0 {
            None
        } else {
            Some(ConfigurationTable::new(self.number_of_table_entries, self.configuration_table))
        }
    }

    /// Takes the boot services: `true` when they were free, and they are held afterwards;
    /// `false`, with nothing changed, when they are held already.
    pub fn boot_services(&mut self) -> (r: bool)
        ensures
            r == !old(self).held_spec(),
            final(self).held_spec(),
            final(self).entries_spec() == old(self).entries_spec(),
            final(self).configuration_table_spec() == old(self).configuration_table_spec(),
    {
        if !self.boot_services_held {
            self.boot_services_held = true;
            true
        } else {
            false
        }
    }

    /// Gives the boot services back.
    pub fn release_boot_services(&mut self)
        requires
            old(self).held_spec(),
        ensures
            !final(self).held_spec(),
            final(self).entries_spec() == old(self).entries_spec(),
            final(self).configuration_table_spec() == old(self).configuration_table_spec(),
    {
        self.boot_services_held = false;
    }
}

} // verus!
