//! The memory map that the firmware reports.
use vstd::prelude::*;

use super::raw::MemoryDescriptor;
use vstd::std_specs::iter::IteratorSpec;

verus! {

/// The firmware's memory map, with the key that leaving boot services asks for.
#[derive(Debug)]
pub struct MemoryMap {
    key: usize,
    data: Vec<MemoryDescriptor>,
}

impl MemoryMap {
    /// The key of the map.
    pub closed spec fn key_spec(&self) -> usize {
        self.key
    }

    /// The entries of the map.
    pub closed spec fn descriptors(&self) -> Seq<MemoryDescriptor> {
        self.data@
    }

    /// The map with `key` and entries `data`.
    pub fn new(key: usize, data: Vec<MemoryDescriptor>) -> (r: Self)
        ensures
            r.key_spec() == key,
            r.descriptors() == data@,
    {
        Self { key, data }
    }

    /// The key of the map.
    pub fn get_key(&self) -> (r: usize)
        ensures
            r == self.key_spec(),
    {
        self.key
    }

    /// The number of entries.
    pub fn len(&self) -> (r: usize)
        ensures
            r == self.descriptors().len(),
    {
        self.data.len()
    }

    /// The entries, in order.
    pub fn as_slice(&self) -> (r: &[MemoryDescriptor])
        ensures
            r@ == self.descriptors(),
    {
        self.data.as_slice()
    }

    /// An iterator over the entries, in order.
    pub fn iter(&self) -> (r: core::slice::Iter<'_, MemoryDescriptor>)
        ensures
            r.remaining().len() == self.descriptors().len(),
            forall|i: int| 0 <= i < self.descriptors().len() ==> *#[trigger] r.remaining()[i] == self.descriptors()[i],
    {
        self.data.as_slice().iter()
    }

    /// The entry at `index`.
    pub fn index(&self, index: usize) -> (r: &MemoryDescriptor)
        requires
            index < self.descriptors().len(),
        ensures
            *r == self.descriptors()[index as int],
    {
        &self.data[index]
    }
}

} // verus!
