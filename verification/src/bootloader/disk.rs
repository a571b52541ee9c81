//! Storage devices and the MBR partition table.
use vstd::prelude::*;
use vstd::bytes::u32_from_le_bytes;

use super::cursor::u32_at;

verus! {

/// A block device that reads and writes whole sectors.
pub trait StorageDevice {
    /// What `read(buffer, lba, sectors)` called on `self` with a buffer holding `before`
    /// leaves in `after` and in the buffer (`data`) and returns: each device may state its
    /// own; by default nothing is stated.
    open spec fn read_outcome(
        &self,
        after: &Self,
        lba: u64,
        sectors: u16,
        before: Seq<u8>,
        data: Seq<u8>,
        r: Result<(), &'static str>,
    ) -> bool {
        true
    }

    /// What `write(buffer, lba)` called on `self` leaves in `after` and returns.
    open spec fn write_outcome(&self, after: &Self, lba: u64, data: Seq<u8>, r: Result<(), &'static str>) -> bool {
        true
    }

    /// What `sector_size()` called on `self` leaves in `after` and returns.
    open spec fn sector_size_outcome(&self, after: &Self, r: Result<usize, &'static str>) -> bool {
        true
    }

    /// Reads `sectors` sectors starting at `lba` into `buffer`. A slice keeps its length.
    fn read(&mut self, buffer: &mut [u8], lba: u64, sectors: u16) -> (r: Result<(), &'static str>)
        ensures
            final(buffer)@.len() == old(buffer)@.len(),
            old(self).read_outcome(&*final(self), lba, sectors, old(buffer)@, final(buffer)@, r),
    ;

    /// Writes `buffer` starting at sector `lba`.
    fn write(&mut self, buffer: &[u8], lba: u64) -> (r: Result<(), &'static str>)
        ensures
            old(self).write_outcome(&*final(self), lba, buffer@, r),
    ;

    /// The size of a sector in bytes.
    fn sector_size(&mut self) -> (r: Result<usize, &'static str>)
        ensures
            old(self).sector_size_outcome(&*final(self), r),
    ;
}

/// `n` zero bytes.
pub open spec fn zero_bytes(n: nat) -> Seq<u8> {
    Seq::new(n, |i: int| 0u8)
}

/// A partition of an MBR-partitioned disk.
#[derive(Debug, Clone, Copy)]
pub struct Partition {
    pub ty: u8,
    pub start: u64,
    pub sector_count: u64,
}

/// The partition that a 16-byte MBR partition table entry describes; `None` when its
/// drive-attributes byte is zero.
pub open spec fn mbr_entry_spec(e: Seq<u8>) -> Option<Partition> {
    if e[0] == 0 {
        None
    } else {
        Some(Partition { ty: e[4], start: u32_at(e, 8) as u64, sector_count: u32_at(e, 12) as u64 })
    }
}

/// Offset of the partition table in the boot sector.
pub const PARTITION_TABLE_OFFSET: usize = 0x1BE;

/// The partitions described by the first `k` entries of the partition table in `b`, in
/// table order, skipping unused entries.
pub open spec fn partitions_spec(b: Seq<u8>, k: nat) -> Seq<Partition>
    decreases k,
{
    if k == 0 {
        seq![]
    } else {
        let prev = partitions_spec(b, (k - 1) as nat);
        let start = 0x1BE + (k - 1) * 16;
        match mbr_entry_spec(b.subrange(start, start + 16)) {
            Some(p) => prev.push(p),
            None => prev,
        }
    }
}

/// The partition that primary entry `k` of the MBR in `b` lists, as a sequence of at most
/// one: the entry at 0x1BE + 16 * `k` is in use when its first byte is not zero, and then
/// holds the type at byte 4, the first sector at bytes 8..12 and the sector count at bytes
/// 12..16.
pub open spec fn primary_entry(b: Seq<u8>, k: int) -> Seq<Partition> {
    let at = 0x1BE + 16 * k;
    if b[at] == 0 {
        seq![]
    } else {
        seq![Partition { ty: b[at + 4], start: u32_at(b, at + 8) as u64, sector_count: u32_at(b, at + 12) as u64 }]
    }
}

proof fn lemma_entry_bytes(b: Seq<u8>, k: int)
    requires
        0 <= k < 4,
        b.len() >= 512,
    ensures
        ({
            let at = 0x1BE + 16 * k;
            match mbr_entry_spec(b.subrange(at, at + 16)) {
                Some(p) => primary_entry(b, k) == seq![p],
                None => primary_entry(b, k) == Seq::<Partition>::empty(),
            }
        }),
{
    let at = 0x1BE + 16 * k;
    let e = b.subrange(at, at + 16);
    assert(e.subrange(8, 12) =~= b.subrange(at + 8, at + 12));
    assert(e.subrange(12, 16) =~= b.subrange(at + 12, at + 16));
    assert(e[0] == b[at] && e[4] == b[at + 4]);
}

/// The MBR partition table lists one partition for each of its four primary entries that
/// is in use, in table order: the entries at 0x1BE, 0x1CE, 0x1DE and 0x1EE.
pub proof fn lemma_partition_table_entries(b: Seq<u8>)
    requires
        b.len() >= 512,
    ensures
        partitions_spec(b, 4) == primary_entry(b, 0) + primary_entry(b, 1) + primary_entry(b, 2) + primary_entry(b, 3),
        partitions_spec(b, 4).len() == (if b[0x1BE] != 0 { 1int } else { 0int }) + (if b[0x1CE] != 0 { 1int } else { 0int })
            + (if b[0x1DE] != 0 { 1int } else { 0int }) + (if b[0x1EE] != 0 { 1int } else { 0int }),
{
    lemma_entry_bytes(b, 0);
    lemma_entry_bytes(b, 1);
    lemma_entry_bytes(b, 2);
    lemma_entry_bytes(b, 3);
    reveal_with_fuel(partitions_spec, 5);
    assert(partitions_spec(b, 1) =~= primary_entry(b, 0));
    assert(partitions_spec(b, 2) =~= primary_entry(b, 0) + primary_entry(b, 1));
    assert(partitions_spec(b, 3) =~= primary_entry(b, 0) + primary_entry(b, 1) + primary_entry(b, 2));
    assert(partitions_spec(b, 4) =~= primary_entry(b, 0) + primary_entry(b, 1) + primary_entry(b, 2) + primary_entry(b, 3));
}

/// The boot sector in `b` ends with the MBR signature 0x55 0xAA.
pub open spec fn has_mbr_signature(b: Seq<u8>) -> bool {
    b[510] == 0x55 && b[511] == 0xAA
}

impl Partition {
    /// Decodes one 16-byte partition table entry.
    pub fn try_from_mbr_raw(bytes: [u8; 16]) -> (r: Option<Self>)
        ensures
            r == mbr_entry_spec(bytes@),
    {
        if bytes[0] == 0 {
            return None;
        }
        let s = bytes.as_slice();
        let lba_start = u32_from_le_bytes(&s[8..12]);
        let sector_count = u32_from_le_bytes(&s[12..16]);
        Some(Self { ty: bytes[4], start: lba_start as u64, sector_count: sector_count as u64 })
    }
}

/// Reads the partition table of a disk.
pub struct Disk;

impl Disk {
    /// The partitions that the boot sector in `buffer` describes, or an error when the
    /// sector lacks the MBR signature.
    pub fn parse_partition_table(buffer: &[u8]) -> (r: Result<Vec<Partition>, &'static str>)
        requires
            buffer@.len() >= 512,
        ensures
            has_mbr_signature(buffer@) ==> (r matches Ok(v) && v@ == partitions_spec(buffer@, 4)),
            !has_mbr_signature(buffer@) ==> r == Err::<Vec<Partition>, &'static str>("invalid partition table"),
    {
        if !(buffer[510] == 0x55 && buffer[511] == 0xAA) {
            return Err("invalid partition table");
        }
        let mut partitions: Vec<Partition> = Vec::new();
        let mut i: usize = 0;
        while i < 4
            invariant
                i <= 4,
                buffer@.len() >= 512,
                partitions@ == partitions_spec(buffer@, i as nat),
            decreases 4 - i,
        {
            let start = PARTITION_TABLE_OFFSET + i * 16;
            let mut bytes = [0u8; 16];
            let mut k: usize = 0;
            while k < 16
                invariant
                    k <= 16,
                    start <= 0x1EE,
                    start + 16 <= buffer@.len(),
                    forall|j: int| 0 <= j < k ==> bytes@[j] == buffer@[start + j],
                decreases 16 - k,
            {
                bytes[k] = buffer[start + k];
                k += 1;
            }
            proof {
                assert(bytes@ =~= buffer@.subrange(start as int, start + 16));
            }
            if let Some(partition) = Partition::try_from_mbr_raw(bytes) {
                partitions.push(partition);
            }
            i += 1;
        }
        Ok(partitions)
    }

    /// Reads the boot sector of `storage_device` (sector 0, one sector, into a zeroed 4 KiB
    /// buffer) and decodes its partition table. A read error is handed back unchanged; what
    /// a successful read yields is up to the device, so the partitions are those of the bytes
    /// it delivered.
    pub fn read_partitions<D: StorageDevice>(storage_device: &mut D) -> (r: Result<Vec<Partition>, &'static str>)
        ensures
            exists|data: Seq<u8>, rr: Result<(), &'static str>| {
                &&& #[trigger] old(storage_device).read_outcome(&*final(storage_device), 0, 1,
                    zero_bytes(4096), data, rr)
                &&& data.len() == 4096
                &&& match rr {
                    Err(e) => r == Err::<Vec<Partition>, &'static str>(e),
                    Ok(_) => if has_mbr_signature(data) {
                        r matches Ok(v) && v@ == partitions_spec(data, 4)
                    } else {
                        r == Err::<Vec<Partition>, &'static str>("invalid partition table")
                    },
                }
            },
            r matches Ok(v) ==> v@.len() <= 4,
    {
        let mut buffer: Vec<u8> = vec![0u8; 4096];
        proof {
            assert(buffer@ =~= zero_bytes(4096));
        }
        let ghost zeros = buffer@;
        let rr = storage_device.read(buffer.as_mut_slice(), 0, 1);
        proof {
            assert(old(storage_device).read_outcome(&*storage_device, 0, 1, zeros, buffer@, rr));
        }
        match rr {
            Ok(()) => {},
            Err(e) => return Err(e),
        }
        let r = Self::parse_partition_table(buffer.as_slice());
        proof {
            lemma_partitions_len(buffer@, 4);
        }
        r
    }
}

proof fn lemma_partitions_len(b: Seq<u8>, k: nat)
    ensures
        partitions_spec(b, k).len() <= k,
    decreases k,
{
    if k > 0 {
        lemma_partitions_len(b, (k - 1) as nat);
    }
}

/// One partition of an underlying storage device, seen as a device of its own.
pub struct PartitionDevice<'a, D: StorageDevice> {
    storage_device: &'a mut D,
    partition: Partition,
}

impl<'a, D: StorageDevice> PartitionDevice<'a, D> {
    /// The partition `partition` of `storage_device`.
    pub fn new(storage_device: &'a mut D, partition: Partition) -> (r: Self)
        ensures
            r.partition() == partition,
    {
        Self { storage_device, partition }
    }

    /// The partition this device covers.
    pub closed spec fn partition(&self) -> Partition {
        self.partition
    }

    /// The underlying device.
    pub closed spec fn device(&self) -> D {
        *self.storage_device
    }

    /// Whether `sectors` sectors from `lba` end within the partition.
    pub fn in_range(&self, lba: u64, sectors: u16) -> (r: bool)
        ensures
            r == (lba + sectors <= self.partition().sector_count),
    {
        match lba.checked_add(sectors as u64) {
            Some(end) => end <= self.partition.sector_count,
            None => false,
        }
    }
}

impl<'a, D: StorageDevice> StorageDevice for PartitionDevice<'a, D> {
    /// A range that ends past the partition's last sector is refused with the buffer
    /// untouched; any other read is the underlying device's read of `sectors` sectors at
    /// the partition's first sector.
    open spec fn read_outcome(
        &self,
        after: &Self,
        lba: u64,
        sectors: u16,
        before: Seq<u8>,
        data: Seq<u8>,
        r: Result<(), &'static str>,
    ) -> bool {
        &&& after.partition() == self.partition()
        &&& if lba + sectors > self.partition().sector_count {
            r == Err::<(), &'static str>("error: sector out of range for partition") && data == before
        } else {
            self.device().read_outcome(&after.device(), self.partition().start, sectors, before, data, r)
        }
    }

    /// Writing is always refused.
    open spec fn write_outcome(&self, after: &Self, lba: u64, data: Seq<u8>, r: Result<(), &'static str>) -> bool {
        r == Err::<(), &'static str>("error: writing to a partition is not supported")
    }

    /// The underlying device's sector size.
    open spec fn sector_size_outcome(&self, after: &Self, r: Result<usize, &'static str>) -> bool {
        &&& after.partition() == self.partition()
        &&& self.device().sector_size_outcome(&after.device(), r)
    }

    /// Refuses a range that ends past the partition's last sector; otherwise reads
    /// `sectors` sectors at the partition's first sector (the `lba` only bounds the range).
    fn read(&mut self, buffer: &mut [u8], lba: u64, sectors: u16) -> (r: Result<(), &'static str>) {
        if !self.in_range(lba, sectors) {
            return Err("error: sector out of range for partition");
        }
        self.storage_device.read(buffer, self.partition.start, sectors)
    }

    /// The sector size of the underlying device.
    fn sector_size(&mut self) -> (r: Result<usize, &'static str>) {
        self.storage_device.sector_size()
    }

    /// Writing to a partition is not supported.
    fn write(&mut self, _buffer: &[u8], _lba: u64) -> (r: Result<(), &'static str>) {
        Err("error: writing to a partition is not supported")
    }
}

} // verus!
