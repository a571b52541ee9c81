//! The decisions around the firmware's boot services: what a page allocation and a
//! memory-map request returned, and how the map's buffer is sized and cut.
use vstd::prelude::*;

use super::memory_map::MemoryMap;
use super::raw::{is_zero_descriptor, MemoryDescriptor, Status, BUFFER_TOO_SMALL, MEMORY_DESCRIPTOR_SIZE, SUCCESS};

verus! {

/// What to do after the firmware answered a page allocation.
#[derive(Debug, Clone, Copy, PartialEq, Eq, Structural)]
pub enum AllocationStep {
    /// The firmware refused: there is no allocation.
    Failed,
    /// The pages are at the address.
    Allocated(u64),
    /// The firmware reported success with a null address: ask again.
    Retry,
}

/// What the firmware's answer `status`, with `address` written back, means for a page
/// allocation: a failure unless it succeeded, the address unless it is null, and another
/// request otherwise.
pub fn allocation_step(status: &Status, address: u64) -> (r: AllocationStep)
    ensures
        status.0 != SUCCESS ==> r == AllocationStep::Failed,
        status.0 == SUCCESS && address != 0 ==> r == AllocationStep::Allocated(address),
        status.0 == SUCCESS && address == 0 ==> r == AllocationStep::Retry,
{
    if *status != Status(SUCCESS) {
        return AllocationStep::Failed;
    }
    if address != 0 {
        return AllocationStep::Allocated(address);
    }
    AllocationStep::Retry
}

/// The size that the memory map needs, from the firmware's answer to a request with no
/// buffer: the size it wrote back when it answered that the buffer is too small, and
/// nothing otherwise.
pub fn memory_map_size(status: &Status, size: usize) -> (r: Option<usize>)
    ensures
        status.0 == BUFFER_TOO_SMALL ==> r == Some(size),
        status.0 != BUFFER_TOO_SMALL ==> r is None,
{
    if *status == Status(BUFFER_TOO_SMALL) {
        Some(size)
    } else {
        None
    }
}

/// A buffer of zero descriptors that holds `required_size` bytes of memory map.
pub fn descriptor_buffer(required_size: usize) -> (r: Vec<MemoryDescriptor>)
    requires
        required_size % MEMORY_DESCRIPTOR_SIZE == 0,
    ensures
        r@.len() * MEMORY_DESCRIPTOR_SIZE == required_size,
        forall|i: int| 0 <= i < r@.len() ==> is_zero_descriptor(#[trigger] r@[i]),
{
    let count: usize = required_size / MEMORY_DESCRIPTOR_SIZE;
    let mut buffer: Vec<MemoryDescriptor> = Vec::new();
    while buffer.len() < count
        invariant
            buffer@.len() <= count,
            forall|i: int| 0 <= i < buffer@.len() ==> is_zero_descriptor(#[trigger] buffer@[i]),
        decreases count - buffer@.len(),
    {
        buffer.push(MemoryDescriptor::zero());
    }
    buffer
}

/// The memory map with `key` from a buffer that the firmware filled with `resulting_size`
/// bytes of descriptors: the buffer cut to the descriptors that were written.
pub fn memory_map_from(key: usize, buffer: Vec<MemoryDescriptor>, resulting_size: usize) -> (r: MemoryMap)
    requires
        resulting_size % MEMORY_DESCRIPTOR_SIZE == 0,
        resulting_size / MEMORY_DESCRIPTOR_SIZE <= buffer@.len(),
    ensures
        r.key_spec() == key,
        r.descriptors() == buffer@.subrange(0, (resulting_size / MEMORY_DESCRIPTOR_SIZE) as int),
{
    let count: usize = resulting_size / MEMORY_DESCRIPTOR_SIZE;
    let mut buffer = buffer;
    buffer.truncate(count);
    MemoryMap::new(key, buffer)
}

} // verus!
