use osbase::bootloader::cursor::Cursor;
use osbase::bootloader::disk::{Disk, Partition, PartitionDevice, StorageDevice};
use osbase::bootloader::elf::{
    Class, DataEncoding, Elf, MachineArchitecture, ObjectFileType, ParseElfError, SectionAttributes, SectionType,
    SegmentAttributes, SegmentType,
};
use osbase::bootloader::fat::{first_equal_name, FatDirectoryEntry, FatFs, Header};

/// A disk held in memory, with 512-byte sectors.
#[derive(Debug)]
struct MemDisk {
    data: Vec<u8>,
    reads: Vec<(u64, u16)>,
}

impl StorageDevice for MemDisk {
    fn read(&mut self, buffer: &mut [u8], lba: u64, sectors: u16) -> Result<(), &'static str> {
        self.reads.push((lba, sectors));
        let start = lba as usize * 512;
        let len = buffer.len().min(sectors as usize * 512);
        if start + len > self.data.len() {
            return Err("read past the end of the disk");
        }
        buffer[..len].copy_from_slice(&self.data[start..start + len]);
        Ok(())
    }

    fn write(&mut self, _buffer: &[u8], _lba: u64) -> Result<(), &'static str> {
        Err("read-only")
    }

    fn sector_size(&mut self) -> Result<usize, &'static str> {
        Ok(512)
    }
}

fn put_u16(b: &mut [u8], at: usize, v: u16) {
    b[at..at + 2].copy_from_slice(&v.to_le_bytes());
}

fn put_u32(b: &mut [u8], at: usize, v: u32) {
    b[at..at + 4].copy_from_slice(&v.to_le_bytes());
}

fn put_u64(b: &mut [u8], at: usize, v: u64) {
    b[at..at + 8].copy_from_slice(&v.to_le_bytes());
}

fn dir_entry(b: &mut [u8], at: usize, name: &[u8; 11], attributes: u8, cluster: u16, size: u32) {
    b[at..at + 11].copy_from_slice(name);
    b[at + 11] = attributes;
    put_u16(b, at + 26, cluster);
    put_u32(b, at + 28, size);
}

/// A FAT16 volume: boot sector, one FAT sector, one root directory sector, then clusters of
/// one sector from sector 3 on. `/EFI/BOOT/KERNEL` is a 600-byte file in clusters 4 and 5.
fn fat_image() -> Vec<u8> {
    let mut img = vec![0u8; 64 * 512];
    put_u16(&mut img, 11, 512);
    img[13] = 1;
    put_u16(&mut img, 14, 1);
    img[16] = 1;
    put_u16(&mut img, 17, 16);
    put_u16(&mut img, 19, 64);
    put_u16(&mut img, 22, 1);
    let fat = 512;
    for (i, v) in [0xFFF8u16, 0xFFFF, 0xFFFF, 0xFFFF, 5, 0xFFFF].iter().enumerate() {
        put_u16(&mut img, fat + 2 * i, *v);
    }
    dir_entry(&mut img, 1024, b"EFI        ", 0x10, 2, 0);
    dir_entry(&mut img, 3 * 512, b"BOOT       ", 0x10, 3, 0);
    dir_entry(&mut img, 4 * 512, b"KERNEL     ", 0x20, 4, 600);
    dir_entry(&mut img, 4 * 512 + 32, b"README  TXT", 0x20, 6, 3);
    for i in 0..1024 {
        img[5 * 512 + i] = (i % 251) as u8;
    }
    img[7 * 512..7 * 512 + 3].copy_from_slice(b"hi!");
    put_u16(&mut img, fat + 12, 0xFFFF);
    img
}

#[test]
fn cursor_reads_in_order() {
    let data = [1u8, 2, 3, 4, 5, 6, 7, 8, 9, 10, 11, 12, 13, 14, 15];
    let mut cur = Cursor::new(&data);
    assert_eq!(cur.remaining(), 15);
    assert_eq!(cur.peek_u8(1), 2);
    assert_eq!(cur.read_u8(), 1);
    assert_eq!(cur.read_u16(), 0x0302);
    assert_eq!(cur.read_u32(), 0x0706_0504);
    assert_eq!(cur.position(), 7);
    assert_eq!(cur.read_u64(), 0x0F0E_0D0C_0B0A_0908);
    assert_eq!(cur.remaining(), 0);
}

#[test]
fn cursor_skip_and_bytes() {
    let data = [9u8, 8, 7, 6, 5, 4];
    let mut cur = Cursor::new(&data);
    cur.skip(2);
    assert_eq!(cur.read_bytes(2), &[7, 6]);
    let mut out = [0u8; 2];
    cur.read(&mut out);
    assert_eq!(out, [5, 4]);
    assert_eq!(cur.remaining(), 0);
}

#[test]
fn mbr_entry_decoding() {
    let mut raw = [0u8; 16];
    assert!(Partition::try_from_mbr_raw(raw).is_none());
    raw[0] = 0x80;
    raw[4] = 0x0C;
    put_u32(&mut raw, 8, 2048);
    put_u32(&mut raw, 12, 100_000);
    let p = Partition::try_from_mbr_raw(raw).unwrap();
    assert_eq!(p.ty, 0x0C);
    assert_eq!(p.start, 2048);
    assert_eq!(p.sector_count, 100_000);
}

fn mbr_sector() -> Vec<u8> {
    let mut b = vec![0u8; 512];
    b[510] = 0x55;
    b[511] = 0xAA;
    b[0x1BE] = 0x80;
    b[0x1BE + 4] = 0x0B;
    put_u32(&mut b, 0x1BE + 8, 63);
    put_u32(&mut b, 0x1BE + 12, 1000);
    b[0x1DE] = 0x01;
    b[0x1DE + 4] = 0x83;
    put_u32(&mut b, 0x1DE + 8, 2000);
    put_u32(&mut b, 0x1DE + 12, 500);
    b
}

#[test]
fn partition_table_skips_empty_entries() {
    let parts = Disk::parse_partition_table(&mbr_sector()).unwrap();
    assert_eq!(parts.len(), 2);
    assert_eq!(parts[0].start, 63);
    assert_eq!(parts[1].ty, 0x83);
    assert_eq!(parts[1].sector_count, 500);
}

#[test]
fn partition_table_needs_signature() {
    let mut b = mbr_sector();
    b[511] = 0;
    assert_eq!(Disk::parse_partition_table(&b).unwrap_err(), "invalid partition table");
}

#[test]
fn read_partitions_from_device() {
    let mut data = mbr_sector();
    data.resize(4096, 0);
    let mut disk = MemDisk { data, reads: Vec::new() };
    let parts = Disk::read_partitions(&mut disk).unwrap();
    assert_eq!(parts.len(), 2);
    assert_eq!(disk.reads, vec![(0, 1)]);
}

#[test]
fn partition_device_bounds_and_start() {
    let mut disk = MemDisk { data: vec![0u8; 16 * 512], reads: Vec::new() };
    let part = Partition { ty: 0x0B, start: 4, sector_count: 8 };
    let mut dev = PartitionDevice::new(&mut disk, part);
    let mut buf = [0u8; 512];
    assert_eq!(dev.read(&mut buf, 8, 1), Err("error: sector out of range for partition"));
    assert_eq!(dev.read(&mut buf, u64::MAX, 1), Err("error: sector out of range for partition"));
    assert_eq!(dev.read(&mut buf, 3, 1), Ok(()));
    assert_eq!(dev.sector_size(), Ok(512));
    assert!(dev.write(&buf, 0).is_err());
    // The read goes to the partition's first sector.
    assert_eq!(disk.reads, vec![(4, 1)]);
}

#[test]
fn fat_header_decoding() {
    let img = fat_image();
    let mut sector = img[..512].to_vec();
    sector[0..3].copy_from_slice(&[0xEB, 0x3C, 0x90]);
    sector[3..11].copy_from_slice(b"MSWIN4.1");
    sector[36] = 0x80;
    sector[39..43].copy_from_slice(&0x1234_5678u32.to_le_bytes());
    sector[43..54].copy_from_slice(b"NO NAME    ");
    sector[54..62].copy_from_slice(b"FAT16   ");
    sector[100] = 0xAA;
    sector[510] = 0x55;
    sector[511] = 0xAA;
    match Header::decode(&sector).unwrap() {
        Header::Legacy(h) => {
            assert_eq!(h.bpb.bytes_per_sector, 512);
            assert_eq!(h.bpb.root_directory_entry_count, 16);
            assert_eq!(h.bpb.jump, [0xEB, 0x3C, 0x90]);
            assert_eq!(&h.bpb.oem_identifier, b"MSWIN4.1");
            assert_eq!(h.drive_number, 0x80);
            assert_eq!(h.volume_id_serial_number, 0x1234_5678);
            assert_eq!(&h.volume_label, b"NO NAME    ");
            assert_eq!(&h.system_identifier, b"FAT16   ");
            assert_eq!(h.boot_code[100 - 62], 0xAA);
            assert_eq!(h.bootable_partition_signature, [0x55, 0xAA]);
        }
        Header::Fat32(_) => panic!("expected a FAT16 header"),
    }
    let mut zero = img[..512].to_vec();
    zero[13] = 0;
    assert_eq!(Header::decode(&zero).unwrap_err(), "invalid FAT header: zero sectors per cluster");
}

#[test]
fn fat32_header_decoding() {
    let mut sector = fat_image()[..512].to_vec();
    sector[19..21].copy_from_slice(&0u16.to_le_bytes());
    sector[32..36].copy_from_slice(&200_000u32.to_le_bytes());
    sector[36..40].copy_from_slice(&1500u32.to_le_bytes());
    sector[44..48].copy_from_slice(&2u32.to_le_bytes());
    sector[48..50].copy_from_slice(&1u16.to_le_bytes());
    sector[50..52].copy_from_slice(&6u16.to_le_bytes());
    sector[64] = 0x80;
    sector[71..82].copy_from_slice(b"BOOT       ");
    sector[82..90].copy_from_slice(b"FAT32   ");
    match Header::decode(&sector).unwrap() {
        Header::Fat32(h) => {
            assert_eq!(h.bpb.large_sector_count, 200_000);
            assert_eq!(h.sectors_per_fat, 1500);
            assert_eq!(h.root_cluster, 2);
            assert_eq!(h.fsinfo_cluster, 1);
            assert_eq!(h.backup_boot_sector_cluster, 6);
            assert_eq!(h.drive_number, 0x80);
            assert_eq!(&h.volume_label, b"BOOT       ");
            assert_eq!(&h.system_identifier, b"FAT32   ");
        }
        Header::Legacy(_) => panic!("expected a FAT32 header"),
    }
}

#[test]
fn fat_directory_parsing() {
    let img = fat_image();
    let entries = FatDirectoryEntry::parse_directory(&img[4 * 512..5 * 512]).unwrap();
    assert_eq!(entries.len(), 2);
    assert_eq!(entries[0].name, "KERNEL");
    assert!(entries[0].is_file());
    assert_eq!(entries[0].start_cluster, 4);
    assert_eq!(entries[0].size, 600);
    assert_eq!(entries[1].name, "README.TXT");
    let root = FatDirectoryEntry::parse_directory(&img[1024..1536]).unwrap();
    assert!(root[0].is_directory());
    assert!(!root[0].is_volume_id());
}

#[test]
fn fat_read_file_by_path() {
    let mut disk = MemDisk { data: fat_image(), reads: Vec::new() };
    let mut fs = FatFs::wrap(&mut disk).unwrap();
    let kernel = fs.read_file("/EFI/BOOT/KERNEL").unwrap();
    assert_eq!(kernel.len(), 600);
    assert_eq!(kernel[0], 0);
    assert_eq!(kernel[599], (599 % 251) as u8);
    let readme = fs.read_file("/efi/boot/readme.txt").unwrap();
    assert_eq!(readme, b"hi!".to_vec());
}

#[test]
fn fat_path_errors() {
    let mut disk = MemDisk { data: fat_image(), reads: Vec::new() };
    let mut fs = FatFs::wrap(&mut disk).unwrap();
    assert_eq!(fs.read_file("EFI/BOOT/KERNEL"), Err("invalid path: must start with /"));
    assert_eq!(fs.read_file("///"), Err("no such file or directory"));
    assert_eq!(fs.read_file("/EFI/NOPE/KERNEL"), Err("no such file or directory"));
    assert_eq!(fs.read_file("/EFI/BOOT"), Err("not a file"));
    assert_eq!(fs.list_directory("EFI").unwrap_err(), "invalid path: must start with /");
}

#[test]
fn fat_list_directory() {
    let mut disk = MemDisk { data: fat_image(), reads: Vec::new() };
    let mut fs = FatFs::wrap(&mut disk).unwrap();
    let root = fs.list_directory("/").unwrap();
    assert_eq!(root.len(), 1);
    assert_eq!(root[0].name, "EFI");
    let boot = fs.list_directory("/EFI/BOOT/").unwrap();
    let names: Vec<&str> = boot.iter().map(|e| e.name.as_str()).collect();
    assert_eq!(names, vec!["KERNEL", "README.TXT"]);
    let kernel = boot[0].copy();
    assert_eq!(fs.list_directory_raw(Some(kernel)).unwrap_err(), "list_directory_raw: not a directory");
    let readme = boot[1].copy();
    assert_eq!(fs.read_file_raw(readme).unwrap(), b"hi!".to_vec());
}

#[test]
fn fat_refuses_mismatched_sector_size() {
    let mut img = fat_image();
    put_u16(&mut img, 11, 1024);
    let mut disk = MemDisk { data: img, reads: Vec::new() };
    assert_eq!(FatFs::wrap(&mut disk).err(), Some("FAT sector size != disk sector size"));
}

#[test]
fn fat_refuses_exfat() {
    let mut img = fat_image();
    put_u16(&mut img, 11, 0);
    let mut disk = MemDisk { data: img, reads: Vec::new() };
    assert_eq!(FatFs::wrap(&mut disk).err(), Some("unsupported FAT type: exFAT"));
}

/// A little-endian executable for x86-64 with no program headers and two sections: a
/// loaded one and the section name table.
fn elf_image() -> Vec<u8> {
    let mut b = vec![0u8; 203];
    b[0..4].copy_from_slice(&[0x7F, b'E', b'L', b'F']);
    b[4] = 2;
    b[5] = 1;
    b[6] = 1;
    put_u16(&mut b, 16, 2);
    put_u16(&mut b, 18, 0x3E);
    put_u32(&mut b, 20, 1);
    put_u64(&mut b, 24, 0x1000);
    put_u64(&mut b, 32, 0);
    put_u64(&mut b, 40, 64);
    put_u16(&mut b, 52, 64);
    put_u16(&mut b, 54, 56);
    put_u16(&mut b, 56, 0);
    put_u16(&mut b, 58, 64);
    put_u16(&mut b, 60, 2);
    put_u16(&mut b, 62, 1);
    // Section 0: loaded program bits.
    put_u32(&mut b, 64, 1);
    put_u32(&mut b, 68, 1);
    put_u64(&mut b, 72, 0x2);
    put_u64(&mut b, 80, 0x2000);
    put_u64(&mut b, 96, 0x10);
    // Section 1: the name table at 192.
    put_u32(&mut b, 128, 7);
    put_u32(&mut b, 132, 3);
    put_u64(&mut b, 152, 192);
    put_u64(&mut b, 160, 11);
    b[192..203].copy_from_slice(b"\0.text\0.shs");
    b[202] = 0;
    b
}

#[test]
fn elf_parse_sections() {
    let elf = Elf::parse(&elf_image()).unwrap();
    assert_eq!(elf.class, Class::Elf64);
    assert_eq!(elf.data_encoding, DataEncoding::Lsb);
    assert_eq!(elf.ty, ObjectFileType::ExecutableFile);
    assert_eq!(elf.machine, MachineArchitecture::X86_64);
    assert_eq!(elf.entry, 0x1000);
    assert!(elf.program_headers.is_empty());
    assert_eq!(elf.section_headers.len(), 2);
    assert_eq!(elf.section_headers[0].name, ".text");
    assert!(elf.section_headers[0].flags.allocated());
    assert_eq!(elf.section_headers[0].ty, SectionType::ProgramBits);
    assert_eq!(elf.section_headers[1].name, ".sh");
    assert_eq!(elf.section_headers[1].ty, SectionType::StringTable);
}

#[test]
fn elf_errors() {
    let mut b = elf_image();
    b[0] = 0;
    assert_eq!(Elf::parse(&b).unwrap_err(), ParseElfError::MissingMagicNumber);
    let mut b = elf_image();
    b[4] = 3;
    assert_eq!(Elf::parse(&b).unwrap_err(), ParseElfError::InvalidElfClass(3));
    let mut b = elf_image();
    b[5] = 0;
    assert_eq!(Elf::parse(&b).unwrap_err(), ParseElfError::InvalidDataEncoding(0));
    let mut b = elf_image();
    put_u16(&mut b, 16, 9);
    assert_eq!(Elf::parse(&b).unwrap_err(), ParseElfError::InvalidObjectFileType(9));
    let mut b = elf_image();
    put_u16(&mut b, 18, 6);
    assert_eq!(Elf::parse(&b).unwrap_err(), ParseElfError::UnknownMachineArchitecture(6));
    let mut b = elf_image();
    put_u16(&mut b, 60, 3);
    assert_eq!(Elf::parse(&b).unwrap_err(), ParseElfError::BufferTooSmall { given: 203, required: 256 });
    let mut b = elf_image();
    put_u32(&mut b, 132, 1);
    assert_eq!(Elf::parse(&b).unwrap_err(), ParseElfError::InvalidData);
}

#[test]
fn elf_enum_decoding() {
    assert_eq!(MachineArchitecture::try_from(0xB7), Ok(MachineArchitecture::Aarch64));
    assert_eq!(MachineArchitecture::try_from(0x99), Err(0x99));
    assert_eq!(SegmentType::try_from(1), Ok(SegmentType::Loadable));
    assert_eq!(SegmentType::try_from(0x6000_0001), Ok(SegmentType::EnvironmentSpecific(0x6000_0001)));
    assert_eq!(SegmentType::try_from(0x10), Err(ParseElfError::InvalidSegmentType(0x10)));
    assert_eq!(SectionType::try_from(8), Ok(SectionType::UninitializedSpace));
    assert_eq!(SectionType::try_from(0x7000_0000), Ok(SectionType::ProcessorSpecific(0x7000_0000)));
    assert_eq!(SectionType::try_from(12), Err(ParseElfError::InvalidSectionType(12)));
}

#[test]
fn elf_attribute_bits() {
    let s = SegmentAttributes(0x0312_0005);
    assert!(s.x());
    assert!(!s.w());
    assert!(s.r());
    assert_eq!(s.environment_specific(), 0x12);
    assert_eq!(s.processor_specific(), 0x03);
    let f = SectionAttributes(0xA500_0006);
    assert!(!f.writable());
    assert!(f.allocated());
    assert!(f.executable());
    assert_eq!(f.environment_specific(), 0x5);
    assert_eq!(f.processor_specific(), 0xA);
}

#[test]
fn fat_directory_skips_long_names() {
    let mut dir = vec![0u8; 128];
    // A long-name entry (attributes 0x0F) before the short entry it belongs to.
    dir[0] = 0x41;
    dir[11] = 0x0F;
    dir_entry(&mut dir, 32, b"LONGNA~1TXT", 0x20, 9, 42);
    dir_entry(&mut dir, 64, b"SHORT      ", 0x20, 10, 7);
    let entries = FatDirectoryEntry::parse_directory(&dir).unwrap();
    assert_eq!(entries.len(), 2);
    assert_eq!(entries[0].name, "LONGNA~1.TXT");
    assert_eq!(entries[0].size, 42);
    assert_eq!(entries[1].name, "SHORT");
    assert_eq!(entries[1].start_cluster, 10);
}

fn readme_with_fat_entry(entry: u16) -> Result<Vec<u8>, &'static str> {
    let mut img = fat_image();
    put_u16(&mut img, 512 + 12, entry);
    let mut disk = MemDisk { data: img, reads: Vec::new() };
    let mut fs = FatFs::wrap(&mut disk).unwrap();
    fs.read_file("/EFI/BOOT/README.TXT")
}

#[test]
fn fat_chain_errors() {
    assert_eq!(readme_with_fat_entry(0), Err("free cluster in cluster chain"));
    assert_eq!(readme_with_fat_entry(0xFFF7), Err("defect cluster in cluster chain"));
    assert_eq!(readme_with_fat_entry(1), Err("1 in cluster chain (reserved)"));
    assert_eq!(readme_with_fat_entry(6), Err("cluster chain longer than the FAT"));
    assert_eq!(readme_with_fat_entry(300), Err("cluster outside of the FAT"));
    assert_eq!(readme_with_fat_entry(0xFFF8), Ok(b"hi!".to_vec()));
}

#[test]
fn fat_file_size_beyond_chain() {
    let mut img = fat_image();
    put_u32(&mut img, 4 * 512 + 32 + 28, 600);
    let mut disk = MemDisk { data: img, reads: Vec::new() };
    let mut fs = FatFs::wrap(&mut disk).unwrap();
    assert_eq!(fs.read_file("/EFI/BOOT/README.TXT"), Err("invalid file size"));
}

#[test]
fn fat_root_directory_not_whole_sectors() {
    let mut img = fat_image();
    put_u16(&mut img, 17, 20);
    let mut disk = MemDisk { data: img, reads: Vec::new() };
    let mut fs = FatFs::wrap(&mut disk).unwrap();
    assert_eq!(fs.list_directory("/").unwrap_err(), "root directory size is not a multiple of the sector size");
}

#[test]
fn fat_refuses_fat32() {
    let mut img = fat_image();
    put_u16(&mut img, 19, 0);
    put_u32(&mut img, 32, 70_000);
    let mut disk = MemDisk { data: img, reads: Vec::new() };
    assert_eq!(FatFs::wrap(&mut disk).err(), Some("unsupported FAT type: FAT32"));
}

#[test]
fn elf_invalid_utf8_name() {
    let mut b = elf_image();
    b[193] = 0xFF;
    assert_eq!(Elf::parse(&b).unwrap_err(), ParseElfError::InvalidUtf8);
}

#[test]
fn elf_try_parse_refuses_what_parse_cannot_take() {
    assert!(Elf::try_parse(&[0x7f, b'E', b'L']).is_none());
    let mut b = elf_image();
    b[4] = 1;
    assert!(Elf::try_parse(&b).is_none());
    let mut b = elf_image();
    put_u16(&mut b, 54, 57);
    assert!(Elf::try_parse(&b).is_none());
    let b = elf_image();
    assert!(Elf::try_parse(&b[..40]).is_none());
    let mut b = elf_image();
    b[0] = 0;
    assert_eq!(Elf::try_parse(&b).unwrap().unwrap_err(), ParseElfError::MissingMagicNumber);
    let elf = Elf::try_parse(&elf_image()).unwrap().unwrap();
    assert_eq!(elf.section_headers.len(), 2);
}

#[test]
fn first_equal_name_finds_first_match() {
    let names = vec![String::from("EFI"), String::from("BOOT"), String::from("BOOT")];
    assert_eq!(first_equal_name(&names, &String::from("BOOT")), Some(1));
    assert_eq!(first_equal_name(&names, &String::from("boot")), None);
    assert_eq!(first_equal_name(&[], &String::from("EFI")), None);
}
