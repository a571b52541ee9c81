//! Parser for 64-bit ELF executables.
use vstd::prelude::*;
use vstd::utf8::{valid_utf8, decode_utf8};

use crate::bits::{bit32, bit64, test_bit32, test_bit64};
use super::cursor::{Cursor, u16_at, u32_at, u64_at};

verus! {

/// Size of a 64-bit ELF file header.
pub const ELF64_HEADER_SIZE: usize = 64;

/// Size of a 64-bit ELF program header.
pub const ELF64_PROGRAM_HEADER_SIZE: u64 = 56;

/// Size of a 64-bit ELF section header.
pub const ELF64_SECTION_HEADER_SIZE: u64 = 64;

/// Index of the section name string table's type: `SHT_STRTAB`.
pub const STRING_TABLE_TYPE: u32 = 3;

#[derive(Debug, Clone, Copy, PartialEq, Eq, Structural)]
pub enum ParseElfError {
    MissingMagicNumber,
    InvalidElfClass(u8),
    InvalidDataEncoding(u8),
    InvalidObjectFileType(u16),
    InvalidSegmentType(u32),
    InvalidSectionType(u32),
    UnknownMachineArchitecture(u16),
    BufferTooSmall { given: u64, required: u64 },
    InvalidUtf8,
    InvalidData,
}

#[derive(Debug, Clone, Copy, PartialEq, Eq, Structural)]
pub enum Class {
    Elf32,
    Elf64,
}

#[derive(Debug, Clone, Copy, PartialEq, Eq, Structural)]
pub enum DataEncoding {
    Lsb,
    Msb,
}

#[derive(Debug, Clone, Copy, PartialEq, Eq, Structural)]
pub enum ObjectFileType {
    RelocatableFile,
    ExecutableFile,
    SharedObjectFile,
    CoreFile,
    EnvironmentSpecific(u16),
    ProcessorSpecific(u16),
}

#[derive(Debug, Clone, Copy, PartialEq, Eq, Structural)]
pub enum MachineArchitecture {
    NoMachine,
    M32,
    Sparc,
    Intel386,
    Motorola68K,
    Motorola88K,
    Intel860,
    Mips,
    PowerPc,
    Arm,
    SuperH,
    IA64,
    X86_64,
    Aarch64,
    RiscV,
}

/// The machine that an `e_machine` value names.
pub open spec fn machine_of(value: u16) -> Option<MachineArchitecture> {
    if value == 0 { Some(MachineArchitecture::NoMachine) }
    else if value == 1 { Some(MachineArchitecture::M32) }
    else if value == 2 { Some(MachineArchitecture::Sparc) }
    else if value == 3 { Some(MachineArchitecture::Intel386) }
    else if value == 4 { Some(MachineArchitecture::Motorola68K) }
    else if value == 5 { Some(MachineArchitecture::Motorola88K) }
    else if value == 7 { Some(MachineArchitecture::Intel860) }
    else if value == 8 { Some(MachineArchitecture::Mips) }
    else if value == 0x14 { Some(MachineArchitecture::PowerPc) }
    else if value == 0x28 { Some(MachineArchitecture::Arm) }
    else if value == 0x2A { Some(MachineArchitecture::SuperH) }
    else if value == 0x32 { Some(MachineArchitecture::IA64) }
    else if value == 0x3E { Some(MachineArchitecture::X86_64) }
    else if value == 0xB7 { Some(MachineArchitecture::Aarch64) }
    else if value == 0xF3 { Some(MachineArchitecture::RiscV) }
    else { None }
}

impl MachineArchitecture {
    /// The machine that `value` names; the value itself as the error when none does.
    pub fn try_from(value: u16) -> (r: Result<Self, u16>)
        ensures
            match machine_of(value) {
                Some(m) => r == Ok::<Self, u16>(m),
                None => r == Err::<Self, u16>(value),
            },
    {
        match value {
            0 => Ok(MachineArchitecture::NoMachine),
            1 => Ok(MachineArchitecture::M32),
            2 => Ok(MachineArchitecture::Sparc),
            3 => Ok(MachineArchitecture::Intel386),
            4 => Ok(MachineArchitecture::Motorola68K),
            5 => Ok(MachineArchitecture::Motorola88K),
            7 => Ok(MachineArchitecture::Intel860),
            8 => Ok(MachineArchitecture::Mips),
            0x14 => Ok(MachineArchitecture::PowerPc),
            0x28 => Ok(MachineArchitecture::Arm),
            0x2A => Ok(MachineArchitecture::SuperH),
            0x32 => Ok(MachineArchitecture::IA64),
            0x3E => Ok(MachineArchitecture::X86_64),
            0xB7 => Ok(MachineArchitecture::Aarch64),
            0xF3 => Ok(MachineArchitecture::RiscV),
            x => Err(x),
        }
    }
}

/// The object file type that an `e_type` value names.
pub open spec fn object_file_type_of(value: u16) -> Option<ObjectFileType> {
    if value == 1 { Some(ObjectFileType::RelocatableFile) }
    else if value == 2 { Some(ObjectFileType::ExecutableFile) }
    else if value == 3 { Some(ObjectFileType::SharedObjectFile) }
    else if value == 4 { Some(ObjectFileType::CoreFile) }
    else if 0xFE00 <= value <= 0xFEFF { Some(ObjectFileType::EnvironmentSpecific(value)) }
    else if 0xFF00 <= value { Some(ObjectFileType::ProcessorSpecific(value)) }
    else { None }
}

/// A 64-bit program header as it is laid out in the file.
#[derive(Debug, Clone, Copy)]
pub struct Elf64ProgramHeader {
    pub ty: u32,
    pub flags: u32,
    pub offset: u64,
    pub vaddr: u64,
    pub paddr: u64,
    pub file_size: u64,
    pub mem_size: u64,
    pub alignment: u64,
}

/// A decoded program header.
#[derive(Debug, Clone, Copy)]
pub struct ProgramHeader {
    pub ty: SegmentType,
    pub flags: SegmentAttributes,
    pub offset: u64,
    pub vaddr: u64,
    pub paddr: u64,
    pub file_size: u64,
    pub mem_size: u64,
    pub alignment: u64,
}

#[derive(Debug, Clone, Copy, PartialEq, Eq, Structural)]
pub enum SegmentType {
    Unused,
    Loadable,
    DynamicLinking,
    InterpreterPathName,
    Note,
    SHLIB,
    ProgramHeaderTable,
    EnvironmentSpecific(u32),
    ProcessorSpecific(u32),
}

/// The segment type that a `p_type` value names.
pub open spec fn segment_type_of(value: u32) -> Option<SegmentType> {
    if value == 0 { Some(SegmentType::Unused) }
    else if value == 1 { Some(SegmentType::Loadable) }
    else if value == 2 { Some(SegmentType::DynamicLinking) }
    else if value == 3 { Some(SegmentType::InterpreterPathName) }
    else if value == 4 { Some(SegmentType::Note) }
    else if value == 5 { Some(SegmentType::SHLIB) }
    else if value == 6 { Some(SegmentType::ProgramHeaderTable) }
    else if 0x6000_0000 <= value <= 0x6FFF_FFFF { Some(SegmentType::EnvironmentSpecific(value)) }
    else if 0x7000_0000 <= value <= 0x7FFF_FFFF { Some(SegmentType::ProcessorSpecific(value)) }
    else { None }
}

impl SegmentType {
    /// The segment type that `value` names.
    pub fn try_from(value: u32) -> (r: Result<Self, ParseElfError>)
        ensures
            match segment_type_of(value) {
                Some(t) => r == Ok::<Self, ParseElfError>(t),
                None => r == Err::<Self, ParseElfError>(ParseElfError::InvalidSegmentType(value)),
            },
    {
        match value {
            0 => Ok(SegmentType::Unused),
            1 => Ok(SegmentType::Loadable),
            2 => Ok(SegmentType::DynamicLinking),
            3 => Ok(SegmentType::InterpreterPathName),
            4 => Ok(SegmentType::Note),
            5 => Ok(SegmentType::SHLIB),
            6 => Ok(SegmentType::ProgramHeaderTable),
            x => if 0x6000_0000 <= x && x <= 0x6FFF_FFFF {
                Ok(SegmentType::EnvironmentSpecific(x))
            } else if 0x7000_0000 <= x && x <= 0x7FFF_FFFF {
                Ok(SegmentType::ProcessorSpecific(x))
            } else {
                Err(ParseElfError::InvalidSegmentType(x))
            },
        }
    }
}

/// The `p_flags` word of a program header.
#[derive(Debug, Clone, Copy)]
pub struct SegmentAttributes(pub u32);

impl SegmentAttributes {
    /// Executable (bit 0).
    pub fn x(&self) -> (r: bool)
        ensures
            r == bit32(self.0, 0),
    {
        test_bit32(self.0, 0)
    }

    /// Writable (bit 1).
    pub fn w(&self) -> (r: bool)
        ensures
            r == bit32(self.0, 1),
    {
        test_bit32(self.0, 1)
    }

    /// Readable (bit 2).
    pub fn r(&self) -> (r: bool)
        ensures
            r == bit32(self.0, 2),
    {
        test_bit32(self.0, 2)
    }

    /// The environment-specific byte: bits 16..=23.
    pub fn environment_specific(&self) -> (r: u8)
        ensures
            r == (self.0 >> 16u32) as u8,
    {
        (self.0 >> 16) as u8
    }

    /// The processor-specific byte: bits 24..=31.
    pub fn processor_specific(&self) -> (r: u8)
        ensures
            r == (self.0 >> 24u32) as u8,
    {
        (self.0 >> 24) as u8
    }
}

/// A 64-bit section header as it is laid out in the file.
#[derive(Debug, Clone, Copy)]
pub struct Elf64SectionHeader {
    pub name: u32,
    pub ty: u32,
    pub flags: u64,
    pub addr: u64,
    pub offset: u64,
    pub size: u64,
    pub link: u32,
    pub info: u32,
    pub addralign: u64,
    pub entry_size: u64,
}

/// A decoded section header.
#[derive(Debug, Clone)]
pub struct SectionHeader {
    pub name: String,
    pub ty: SectionType,
    pub flags: SectionAttributes,
    pub vaddr: u64,
    pub offset: u64,
    pub size: u64,
    pub link: u32,
    pub info: u32,
    pub addralign: u64,
    pub entry_size: u64,
}

/// What a section header holds: its name and every other field.
pub type SectionHeaderView = (Seq<char>, SectionType, u64, u64, u64, u64, u32, u32, u64, u64);

impl SectionHeader {
    pub open spec fn view(&self) -> SectionHeaderView {
        (self.name@, self.ty, self.flags.0, self.vaddr, self.offset, self.size, self.link, self.info, self.addralign, self.entry_size)
    }
}

#[derive(Debug, Clone, Copy, PartialEq, Eq, Structural)]
pub enum SectionType {
    Null,
    ProgramBits,
    LinkerSymbolTable,
    StringTable,
    RelaTypeRelocationEntries,
    SymbolHashTable,
    DynamicLinkingTables,
    Note,
    UninitializedSpace,
    RelTypeRelocationEntries,
    SHLIB,
    DynamicLoaderSymbolTable,
    EnvironmentSpecific(u32),
    ProcessorSpecific(u32),
}

/// The section type that an `sh_type` value names.
pub open spec fn section_type_of(value: u32) -> Option<SectionType> {
    if value == 0 { Some(SectionType::Null) }
    else if value == 1 { Some(SectionType::ProgramBits) }
    else if value == 2 { Some(SectionType::LinkerSymbolTable) }
    else if value == 3 { Some(SectionType::StringTable) }
    else if value == 4 { Some(SectionType::RelaTypeRelocationEntries) }
    else if value == 5 { Some(SectionType::SymbolHashTable) }
    else if value == 6 { Some(SectionType::DynamicLinkingTables) }
    else if value == 7 { Some(SectionType::Note) }
    else if value == 8 { Some(SectionType::UninitializedSpace) }
    else if value == 9 { Some(SectionType::RelTypeRelocationEntries) }
    else if value == 10 { Some(SectionType::SHLIB) }
    else if value == 11 { Some(SectionType::DynamicLoaderSymbolTable) }
    else if 0x6000_0000 <= value <= 0x6FFF_FFFF { Some(SectionType::EnvironmentSpecific(value)) }
    else if 0x7000_0000 <= value <= 0x7FFF_FFFF { Some(SectionType::ProcessorSpecific(value)) }
    else { None }
}

impl SectionType {
    /// The section type that `value` names.
    pub fn try_from(value: u32) -> (r: Result<Self, ParseElfError>)
        ensures
            match section_type_of(value) {
                Some(t) => r == Ok::<Self, ParseElfError>(t),
                None => r == Err::<Self, ParseElfError>(ParseElfError::InvalidSectionType(value)),
            },
    {
        match value {
            0 => Ok(SectionType::Null),
            1 => Ok(SectionType::ProgramBits),
            2 => Ok(SectionType::LinkerSymbolTable),
            3 => Ok(SectionType::StringTable),
            4 => Ok(SectionType::RelaTypeRelocationEntries),
            5 => Ok(SectionType::SymbolHashTable),
            6 => Ok(SectionType::DynamicLinkingTables),
            7 => Ok(SectionType::Note),
            8 => Ok(SectionType::UninitializedSpace),
            9 => Ok(SectionType::RelTypeRelocationEntries),
            10 => Ok(SectionType::SHLIB),
            11 => Ok(SectionType::DynamicLoaderSymbolTable),
            x => if 0x6000_0000 <= x && x <= 0x6FFF_FFFF {
                Ok(SectionType::EnvironmentSpecific(x))
            } else if 0x7000_0000 <= x && x <= 0x7FFF_FFFF {
                Ok(SectionType::ProcessorSpecific(x))
            } else {
                Err(ParseElfError::InvalidSectionType(x))
            },
        }
    }
}

/// The `sh_flags` word of a section header.
#[derive(Debug, Clone, Copy)]
pub struct SectionAttributes(pub u64);

impl SectionAttributes {
    /// Writable (bit 0).
    pub fn writable(&self) -> (r: bool)
        ensures
            r == bit64(self.0, 0),
    {
        test_bit64(self.0, 0)
    }

    /// Occupies memory at run time (bit 1).
    pub fn allocated(&self) -> (r: bool)
        ensures
            r == bit64(self.0, 1),
    {
        test_bit64(self.0, 1)
    }

    /// Executable (bit 2).
    pub fn executable(&self) -> (r: bool)
        ensures
            r == bit64(self.0, 2),
    {
        test_bit64(self.0, 2)
    }

    /// Bits 24..=27.
    pub fn environment_specific(&self) -> (r: u8)
        ensures
            r == ((self.0 >> 24u64) as u8) & 0xF,
    {
        (self.0 >> 24) as u8 & 0xF
    }

    /// Bits 28..=31.
    pub fn processor_specific(&self) -> (r: u8)
        ensures
            r == ((self.0 >> 28u64) as u8) & 0xF,
    {
        (self.0 >> 28) as u8 & 0xF
    }
}


fn read_u16(cur: &mut Cursor, data_encoding: DataEncoding) -> (r: u16)
    requires
        2 <= old(cur).remaining_spec(),
    ensures
        r == u16_at(old(cur).data(), old(cur).pos() as int),
        final(cur).data() == old(cur).data(),
        final(cur).pos() == old(cur).pos() + 2,
{
    match data_encoding {
        DataEncoding::Lsb => cur.read_u16_le(),
        DataEncoding::Msb => cur.read_u16_be(),
    }
}

fn read_u32(cur: &mut Cursor, data_encoding: DataEncoding) -> (r: u32)
    requires
        4 <= old(cur).remaining_spec(),
    ensures
        r == u32_at(old(cur).data(), old(cur).pos() as int),
        final(cur).data() == old(cur).data(),
        final(cur).pos() == old(cur).pos() + 4,
{
    match data_encoding {
        DataEncoding::Lsb => cur.read_u32_le(),
        DataEncoding::Msb => cur.read_u32_be(),
    }
}

fn read_u64(cur: &mut Cursor, data_encoding: DataEncoding) -> (r: u64)
    requires
        8 <= old(cur).remaining_spec(),
    ensures
        r == u64_at(old(cur).data(), old(cur).pos() as int),
        final(cur).data() == old(cur).data(),
        final(cur).pos() == old(cur).pos() + 8,
{
    match data_encoding {
        DataEncoding::Lsb => cur.read_u64_le(),
        DataEncoding::Msb => cur.read_u64_be(),
    }
}

/// The program header that the 56 bytes `h` describe.
pub open spec fn program_header_spec(h: Seq<u8>) -> Result<ProgramHeader, ParseElfError> {
    match segment_type_of(u32_at(h, 0)) {
        None => Err(ParseElfError::InvalidSegmentType(u32_at(h, 0))),
        Some(ty) => Ok(ProgramHeader {
            ty,
            flags: SegmentAttributes(u32_at(h, 4)),
            offset: u64_at(h, 8),
            vaddr: u64_at(h, 16),
            paddr: u64_at(h, 24),
            file_size: u64_at(h, 32),
            mem_size: u64_at(h, 40),
            alignment: u64_at(h, 48),
        }),
    }
}

impl ProgramHeader {
    /// Decodes a program header from its 56 bytes.
    pub fn try_from(buffer: &[u8], data_encoding: DataEncoding) -> (r: Result<Self, ParseElfError>)
        requires
            buffer@.len() == ELF64_PROGRAM_HEADER_SIZE,
        ensures
            r == program_header_spec(buffer@),
    {
        let mut cur = Cursor::new(buffer);
        let ty = match SegmentType::try_from(read_u32(&mut cur, data_encoding)) {
            Ok(ty) => ty,
            Err(e) => return Err(e),
        };
        let flags = SegmentAttributes(read_u32(&mut cur, data_encoding));
        let offset = read_u64(&mut cur, data_encoding);
        let vaddr = read_u64(&mut cur, data_encoding);
        let paddr = read_u64(&mut cur, data_encoding);
        let file_size = read_u64(&mut cur, data_encoding);
        let mem_size = read_u64(&mut cur, data_encoding);
        let alignment = read_u64(&mut cur, data_encoding);
        Ok(Self { ty, flags, offset, vaddr, paddr, file_size, mem_size, alignment })
    }
}

/// The decimal digit `d`.
pub open spec fn digit_char(d: nat) -> char {
    (48 + d) as char
}

/// The decimal representation of `n`.
pub open spec fn decimal_digits(n: nat) -> Seq<char>
    decreases n,
{
    if n < 10 {
        seq![digit_char(n)]
    } else {
        decimal_digits(n / 10).push(digit_char(n % 10))
    }
}

/// `k` is the index of the first zero byte of `s`.
pub open spec fn is_first_zero(s: Seq<u8>, k: int) -> bool {
    &&& 0 <= k < s.len()
    &&& s[k] == 0
    &&& forall|j: int| 0 <= j < k ==> s[j] != 0
}

/// The index of the first zero byte of `s`, if it holds one.
pub open spec fn first_zero(s: Seq<u8>) -> Option<int> {
    if exists|k: int| is_first_zero(s, k) {
        Some(choose|k: int| is_first_zero(s, k))
    } else {
        None
    }
}

/// The name of a section whose name field is `name_offset`. With a string table the name
/// is the zero-terminated UTF-8 string at that offset (`None`: the offset or the terminator
/// is missing); without one it is a label that holds the offset in decimal.
pub open spec fn section_name_spec(name_offset: u32, string_table: Option<Seq<u8>>) -> Option<Result<Seq<char>, ParseElfError>> {
    match string_table {
        None => Some(Ok("offset: "@ + decimal_digits(name_offset as nat))),
        Some(st) => if name_offset > st.len() {
            None
        } else {
            let rest = st.subrange(name_offset as int, st.len() as int);
            match first_zero(rest) {
                None => None,
                Some(k) => {
                    let bytes = rest.subrange(0, k);
                    if valid_utf8(bytes) {
                        Some(Ok(decode_utf8(bytes)))
                    } else {
                        Some(Err(ParseElfError::InvalidUtf8))
                    }
                },
            }
        },
    }
}

/// The section header that the 64 bytes `h` describe (`None`: decoding it panics).
pub open spec fn section_header_spec(h: Seq<u8>, string_table: Option<Seq<u8>>) -> Option<Result<SectionHeaderView, ParseElfError>> {
    match section_name_spec(u32_at(h, 0), string_table) {
        None => None,
        Some(Err(e)) => Some(Err(e)),
        Some(Ok(name)) => match section_type_of(u32_at(h, 4)) {
            None => Some(Err(ParseElfError::InvalidSectionType(u32_at(h, 4)))),
            Some(ty) => Some(Ok((name, ty, u64_at(h, 8), u64_at(h, 16), u64_at(h, 24), u64_at(h, 32), u32_at(h, 40), u32_at(h, 44), u64_at(h, 48), u64_at(h, 56)))),
        },
    }
}

pub open spec fn slice_opt_view(o: Option<&[u8]>) -> Option<Seq<u8>> {
    match o {
        Some(s) => Some(s@),
        None => None,
    }
}

/// `String::from_utf8` on a copy of `bytes`: the string they encode, or `None` when they
/// are not valid UTF-8. Claimed: the result is present exactly for valid UTF-8 and then
/// holds the decoded characters.
#[verifier::external_body]
fn string_from_utf8(bytes: &[u8]) -> (r: Option<String>)
    ensures
        r is Some <==> valid_utf8(bytes@),
        r matches Some(s) ==> s@ == decode_utf8(bytes@),
{
    String::from_utf8(bytes.to_vec()).ok()
}

/// `format!("offset: {}", n)`. Claimed: the text `offset: ` followed by the decimal digits of `n`.
#[verifier::external_body]
fn offset_label(n: usize) -> (r: String)
    ensures
        r@ == "offset: "@ + decimal_digits(n as nat),
{
    format!("offset: {}", n)
}

/// The index of the first zero byte of `s`.
fn position_of_zero(s: &[u8]) -> (r: Option<usize>)
    ensures
        match r {
            Some(k) => is_first_zero(s@, k as int) && first_zero(s@) == Some(k as int),
            None => first_zero(s@) is None,
        },
{
    let mut i: usize = 0;
    while i < s.len()
        invariant
            i <= s@.len(),
            forall|j: int| 0 <= j < i ==> s@[j] != 0,
        decreases s@.len() - i,
    {
        if s[i] == 0 {
            proof {
                assert(is_first_zero(s@, i as int));
                assert forall|k: int| is_first_zero(s@, k) implies k == i by {
                    if k < i {
                    } else if k > i {
                        assert(s@[i as int] == 0);
                    }
                }
            }
            return Some(i);
        }
        i += 1;
    }
    None
}

impl SectionHeader {
    /// Decodes a section header from its 64 bytes, taking its name from `string_table`
    /// when one is given.
    pub fn try_from(buffer: &[u8], data_encoding: DataEncoding, string_table: Option<&[u8]>) -> (r: Result<Self, ParseElfError>)
        requires
            buffer@.len() == ELF64_SECTION_HEADER_SIZE,
            section_header_spec(buffer@, slice_opt_view(string_table)) is Some,
        ensures
            match r {
                Ok(h) => section_header_spec(buffer@, slice_opt_view(string_table)) == Some(Ok::<SectionHeaderView, ParseElfError>(h.view())),
                Err(e) => section_header_spec(buffer@, slice_opt_view(string_table)) == Some(Err::<SectionHeaderView, ParseElfError>(e)),
            },
    {
        let mut cur = Cursor::new(buffer);
        let name_offset_u32 = read_u32(&mut cur, data_encoding);
        let name_offset = name_offset_u32 as usize;
        let name = match string_table {
            Some(string_table) => {
                let rest = &string_table[name_offset..string_table.len()];
                let size = match position_of_zero(rest) {
                    Some(size) => size,
                    None => {
                        return Err(ParseElfError::InvalidData);
                    },
                };
                match string_from_utf8(&rest[0..size]) {
                    Some(s) => s,
                    None => return Err(ParseElfError::InvalidUtf8),
                }
            },
            None => offset_label(name_offset),
        };
        let ty = match SectionType::try_from(read_u32(&mut cur, data_encoding)) {
            Ok(ty) => ty,
            Err(e) => return Err(e),
        };
        let flags = SectionAttributes(read_u64(&mut cur, data_encoding));
        let vaddr = read_u64(&mut cur, data_encoding);
        let offset = read_u64(&mut cur, data_encoding);
        let size = read_u64(&mut cur, data_encoding);
        let link = read_u32(&mut cur, data_encoding);
        let info = read_u32(&mut cur, data_encoding);
        let addralign = read_u64(&mut cur, data_encoding);
        let entry_size = read_u64(&mut cur, data_encoding);
        Ok(Self { name, ty, flags, vaddr, offset, size, link, info, addralign, entry_size })
    }
}


/// Whether the section header `entry` names a section whose name `string_table` holds:
/// the name's offset lies within the table and a zero byte ends the name.
fn section_name_found(entry: &[u8], string_table: &[u8]) -> (r: bool)
    requires
        entry@.len() == ELF64_SECTION_HEADER_SIZE,
    ensures
        r == section_header_spec(entry@, Some(string_table@)) is Some,
{
    let mut cur = Cursor::new(entry);
    let name_offset: u32 = cur.read_u32();
    if name_offset as usize > string_table.len() {
        return false;
    }
    let rest = &string_table[name_offset as usize..string_table.len()];
    proof {
        assert(rest@ == string_table@.subrange(name_offset as int, string_table@.len() as int));
    }
    position_of_zero(rest).is_some()
}

/// The program headers of a table at `offset` with `count` entries: the first error in
/// table order, or all headers.
pub open spec fn program_headers_spec(b: Seq<u8>, offset: int, count: nat) -> Result<Seq<ProgramHeader>, ParseElfError>
    decreases count,
{
    if count == 0 {
        Ok(seq![])
    } else {
        match program_headers_spec(b, offset, (count - 1) as nat) {
            Err(e) => Err(e),
            Ok(s) => {
                let start = offset + (count - 1) * 56;
                match program_header_spec(b.subrange(start, start + 56)) {
                    Err(e) => Err(e),
                    Ok(h) => Ok(s.push(h)),
                }
            },
        }
    }
}

/// The program header entry at `at` of `b`, read by the ELF64 program header layout:
/// type and flags (32 bits at 0 and 4), then offset, virtual address, physical address,
/// size in the file, size in memory and alignment (64 bits each at 8, 16, 24, 32, 40, 48).
pub open spec fn program_header_at(b: Seq<u8>, at: int, h: ProgramHeader) -> bool {
    &&& segment_type_of(u32_at(b, at)) == Some(h.ty)
    &&& h.flags.0 == u32_at(b, at + 4)
    &&& h.offset == u64_at(b, at + 8)
    &&& h.vaddr == u64_at(b, at + 16)
    &&& h.paddr == u64_at(b, at + 24)
    &&& h.file_size == u64_at(b, at + 32)
    &&& h.mem_size == u64_at(b, at + 40)
    &&& h.alignment == u64_at(b, at + 48)
}

proof fn lemma_sub_u64(b: Seq<u8>, start: int, k: int)
    requires
        0 <= start,
        0 <= k,
        k + 8 <= 56,
        start + 56 <= b.len(),
    ensures
        u64_at(b.subrange(start, start + 56), k) == u64_at(b, start + k),
        u32_at(b.subrange(start, start + 56), k) == u32_at(b, start + k),
{
    assert(b.subrange(start, start + 56).subrange(k, k + 8) =~= b.subrange(start + k, start + k + 8));
    assert(b.subrange(start, start + 56).subrange(k, k + 4) =~= b.subrange(start + k, start + k + 4));
}

/// A program header decoded from its 56 bytes holds the fields of the ELF64 layout:
/// size in the file at byte 32, size in memory at byte 40, and so on.
pub proof fn lemma_program_header_layout(h: Seq<u8>)
    requires
        h.len() == 56,
        program_header_spec(h) is Ok,
    ensures
        program_header_at(h, 0, program_header_spec(h)->Ok_0),
{
}

/// A section header decoded from its 64 bytes holds the fields of the ELF64 layout: type
/// (32 bits at 4), flags, address, offset and size (64 bits at 8, 16, 24, 32), link and
/// info (32 bits at 40, 44), alignment and entry size (64 bits at 48, 56).
pub proof fn lemma_section_header_layout(h: Seq<u8>, string_table: Option<Seq<u8>>)
    requires
        section_header_spec(h, string_table) matches Some(Ok(_)),
    ensures
        ({
            let v = section_header_spec(h, string_table)->Some_0->Ok_0;
            &&& section_type_of(u32_at(h, 4)) == Some(v.1)
            &&& v.2 == u64_at(h, 8)
            &&& v.3 == u64_at(h, 16)
            &&& v.4 == u64_at(h, 24)
            &&& v.5 == u64_at(h, 32)
            &&& v.6 == u32_at(h, 40)
            &&& v.7 == u32_at(h, 44)
            &&& v.8 == u64_at(h, 48)
            &&& v.9 == u64_at(h, 56)
        }),
{
}

proof fn lemma_program_headers_fields(b: Seq<u8>, offset: int, count: nat)
    requires
        0 <= offset,
        offset + count * 56 <= b.len(),
        program_headers_spec(b, offset, count) is Ok,
    ensures
        program_headers_spec(b, offset, count)->Ok_0.len() == count,
        forall|i: int| 0 <= i < count ==> program_header_at(b, offset + 56 * i,
            #[trigger] program_headers_spec(b, offset, count)->Ok_0[i]),
    decreases count,
{
    if count > 0 {
        let c1 = (count - 1) as nat;
        assert(offset + c1 * 56 <= b.len()) by (nonlinear_arith)
            requires offset + count * 56 <= b.len(), c1 + 1 == count;
        assert(program_headers_spec(b, offset, c1) is Ok);
        lemma_program_headers_fields(b, offset, c1);
        let prev = program_headers_spec(b, offset, c1)->Ok_0;
        let phs = program_headers_spec(b, offset, count)->Ok_0;
        let start = offset + c1 * 56;
        assert(start + 56 <= b.len()) by (nonlinear_arith)
            requires offset + count * 56 <= b.len(), c1 + 1 == count, start == offset + c1 * 56;
        let h = program_header_spec(b.subrange(start, start + 56))->Ok_0;
        assert(phs == prev.push(h));
        lemma_sub_u64(b, start, 0);
        lemma_sub_u64(b, start, 4);
        lemma_sub_u64(b, start, 8);
        lemma_sub_u64(b, start, 16);
        lemma_sub_u64(b, start, 24);
        lemma_sub_u64(b, start, 32);
        lemma_sub_u64(b, start, 40);
        lemma_sub_u64(b, start, 48);
        assert forall|i: int| 0 <= i < count implies program_header_at(b, offset + 56 * i, #[trigger] phs[i]) by {
            if i < c1 {
                assert(phs[i] == prev[i]);
            } else {
                assert(offset + 56 * i == start);
            }
        }
    }
}

/// A parsed file's entry point is the 64-bit value at byte 24 of the file header, and its
/// program headers are the table's entries, one per entry, each read by the ELF64 program
/// header layout: entry `i` lies 56 bytes times `i` after the
/// table offset (bytes 32..40 of the file header), and the entry count is bytes 56..58.
pub proof fn lemma_parsed_program_headers(b: Seq<u8>)
    requires
        parse_spec(b) matches Some(Ok(_)),
    ensures
        parse_spec(b)->Some_0->Ok_0.3 == u64_at(b, 24),
        parse_spec(b)->Some_0->Ok_0.4.len() == u16_at(b, 56),
        forall|i: int| 0 <= i < u16_at(b, 56) ==> program_header_at(b, u64_at(b, 32) + 56 * i,
            #[trigger] parse_spec(b)->Some_0->Ok_0.4[i]),
{
    let c = parse_spec(b)->Some_0->Ok_0;
    let encoding = if b[5] == 1 { DataEncoding::Lsb } else { DataEncoding::Msb };
    let ty = object_file_type_of(u16_at(b, 16))->Some_0;
    let machine = machine_of(u16_at(b, 18))->Some_0;
    assert(parse_spec(b) == after_file_header(b, encoding, ty, machine));
    let off = u64_at(b, 32) as int;
    let count = u16_at(b, 56) as nat;
    assert(off + count * 56 <= b.len());
    let phs = program_headers_spec(b, off, count)->Ok_0;
    assert(program_headers_spec(b, off, count) is Ok);
    assert(after_program_headers(b, encoding, ty, machine, phs) == parse_spec(b));
    assert(c.4 == phs);
    assert(c.3 == u64_at(b, 24));
    lemma_program_headers_fields(b, off, count);
}

/// The section headers held in `headers`, named from `string_table`: the first error in
/// table order, or all headers (`None`: decoding panics).
pub open spec fn section_headers_spec(headers: Seq<u8>, string_table: Seq<u8>, count: nat) -> Option<Result<Seq<SectionHeaderView>, ParseElfError>>
    decreases count,
{
    if count == 0 {
        Some(Ok(seq![]))
    } else {
        match section_headers_spec(headers, string_table, (count - 1) as nat) {
            None => None,
            Some(Err(e)) => Some(Err(e)),
            Some(Ok(s)) => {
                let start = (count - 1) * 64;
                if start + 64 > headers.len() {
                    None
                } else {
                    match section_header_spec(headers.subrange(start, start + 64), Some(string_table)) {
                        None => None,
                        Some(Err(e)) => Some(Err(e)),
                        Some(Ok(h)) => Some(Ok(s.push(h))),
                    }
                }
            },
        }
    }
}

proof fn lemma_program_headers_error_stays(b: Seq<u8>, offset: int, i: nat, n: nat)
    requires
        i <= n,
        program_headers_spec(b, offset, i) is Err,
    ensures
        program_headers_spec(b, offset, n) == program_headers_spec(b, offset, i),
    decreases n - i,
{
    if i < n {
        lemma_program_headers_error_stays(b, offset, i, (n - 1) as nat);
    }
}

proof fn lemma_section_headers_failure_stays(h: Seq<u8>, st: Seq<u8>, i: nat, n: nat)
    requires
        i <= n,
        !(section_headers_spec(h, st, i) matches Some(Ok(_))),
    ensures
        section_headers_spec(h, st, n) == section_headers_spec(h, st, i),
    decreases n - i,
{
    if i < n {
        lemma_section_headers_failure_stays(h, st, i, (n - 1) as nat);
    }
}

/// What a successful parse yields besides the class: data encoding, object type, machine,
/// entry point, program headers and section headers.
pub type ElfContents = (DataEncoding, ObjectFileType, MachineArchitecture, u64, Seq<ProgramHeader>, Seq<SectionHeaderView>);

/// The ELF magic number opens `b`.
pub open spec fn has_elf_magic(b: Seq<u8>) -> bool {
    b[0] == 0x7f && b[1] == 0x45 && b[2] == 0x4c && b[3] == 0x46
}

/// The string table and the section header bytes for a string-table section at `offset`
/// of `size` bytes, with the section headers at `sh_offset` (`None`: slicing panics).
/// The section header bytes run to the end of the buffer, or up to the string table
/// when it lies after them.
pub open spec fn string_table_split(b: Seq<u8>, sh_offset: int, offset: int, size: int) -> Option<(Seq<u8>, Seq<u8>)> {
    if offset < sh_offset {
        if offset + size > sh_offset {
            None
        } else {
            Some((b.subrange(offset, offset + size), b.subrange(sh_offset, b.len() as int)))
        }
    } else {
        if offset > b.len() || size > b.len() - offset {
            None
        } else {
            Some((b.subrange(offset, offset + size), b.subrange(sh_offset, offset)))
        }
    }
}

/// The outcome once the section headers are decoded.
pub open spec fn elf_outcome(
    encoding: DataEncoding,
    ty: ObjectFileType,
    machine: MachineArchitecture,
    entry: u64,
    phs: Seq<ProgramHeader>,
    sections: Option<Result<Seq<SectionHeaderView>, ParseElfError>>,
) -> Option<Result<ElfContents, ParseElfError>> {
    match sections {
        None => None,
        Some(Err(e)) => Some(Err(e)),
        Some(Ok(shs)) => Some(Ok((encoding, ty, machine, entry, phs, shs))),
    }
}

/// The outcome once the file header and the program headers `phs` are decoded: the
/// section header table is checked, the section name string table located, and the
/// section headers decoded.
pub open spec fn after_program_headers(
    b: Seq<u8>,
    encoding: DataEncoding,
    ty: ObjectFileType,
    machine: MachineArchitecture,
    phs: Seq<ProgramHeader>,
) -> Option<Result<ElfContents, ParseElfError>> {
    let n = b.len();
    let sh_offset = u64_at(b, 40) as int;
    let sh_count = u16_at(b, 60) as nat;
    let sh_end = sh_offset + sh_count * 64;
    let st_start = sh_offset + u16_at(b, 62) * 64;
    if sh_end > u64::MAX {
        None
    } else if sh_end > n {
        Some(Err(ParseElfError::BufferTooSmall { given: n as u64, required: sh_end as u64 }))
    } else if st_start + 64 > n {
        None
    } else {
        match section_header_spec(b.subrange(st_start, st_start + 64), None) {
            None => None,
            Some(Err(e)) => Some(Err(e)),
            Some(Ok(st)) => if st.1 != SectionType::StringTable {
                Some(Err(ParseElfError::InvalidData))
            } else if st.4 == sh_offset {
                Some(Err(ParseElfError::InvalidData))
            } else {
                match string_table_split(b, sh_offset, st.4 as int, st.5 as int) {
                    None => None,
                    Some((string_table, headers)) => elf_outcome(
                        encoding, ty, machine, u64_at(b, 24), phs,
                        section_headers_spec(headers, string_table, sh_count),
                    ),
                }
            },
        }
    }
}

/// The outcome once the file header is decoded: the program header table is checked
/// and its headers decoded.
pub open spec fn after_file_header(
    b: Seq<u8>,
    encoding: DataEncoding,
    ty: ObjectFileType,
    machine: MachineArchitecture,
) -> Option<Result<ElfContents, ParseElfError>> {
    let n = b.len();
    let ph_offset = u64_at(b, 32) as int;
    let ph_end = ph_offset + u16_at(b, 56) * 56;
    if ph_end > u64::MAX {
        None
    } else if ph_end > n {
        Some(Err(ParseElfError::BufferTooSmall { given: n as u64, required: ph_end as u64 }))
    } else {
        match program_headers_spec(b, ph_offset, u16_at(b, 56) as nat) {
            Err(e) => Some(Err(e)),
            Ok(phs) => after_program_headers(b, encoding, ty, machine, phs),
        }
    }
}

/// The outcome of parsing `b` as a 64-bit ELF file (`None`: parsing panics). Multi-byte
/// fields are read in native (little-endian) order whatever the data encoding byte says.
pub open spec fn parse_spec(b: Seq<u8>) -> Option<Result<ElfContents, ParseElfError>> {
    let n = b.len();
    if n < 4 {
        None
    } else if !has_elf_magic(b) {
        Some(Err(ParseElfError::MissingMagicNumber))
    } else if n < 5 {
        None
    } else if b[4] != 1 && b[4] != 2 {
        Some(Err(ParseElfError::InvalidElfClass(b[4])))
    } else if b[4] == 1 {
        None
    } else if n < 6 {
        None
    } else if b[5] != 1 && b[5] != 2 {
        Some(Err(ParseElfError::InvalidDataEncoding(b[5])))
    } else if n < 18 {
        None
    } else {
        let encoding = if b[5] == 1 { DataEncoding::Lsb } else { DataEncoding::Msb };
        match object_file_type_of(u16_at(b, 16)) {
            None => Some(Err(ParseElfError::InvalidObjectFileType(u16_at(b, 16)))),
            Some(ty) => if n < 20 {
                None
            } else {
                match machine_of(u16_at(b, 18)) {
                    None => Some(Err(ParseElfError::UnknownMachineArchitecture(u16_at(b, 18)))),
                    Some(machine) => if n < 64 || u16_at(b, 54) != 56 || u16_at(b, 58) != 64 {
                        None
                    } else {
                        after_file_header(b, encoding, ty, machine)
                    },
                }
            },
        }
    }
}

/// A parsed 64-bit ELF file.
#[derive(Debug)]
pub struct Elf {
    pub class: Class,
    pub data_encoding: DataEncoding,
    pub ty: ObjectFileType,
    pub machine: MachineArchitecture,
    pub entry: u64,
    pub program_headers: Vec<ProgramHeader>,
    pub section_headers: Vec<SectionHeader>,
}

impl Elf {
    /// The contents of the parsed file.
    pub open spec fn contents(&self) -> ElfContents {
        (self.data_encoding, self.ty, self.machine, self.entry, self.program_headers@,
            self.section_headers@.map_values(|h: SectionHeader| h.view()))
    }

    /// Parses `buffer` as `parse` does, or gives `None` for a buffer on which parsing
    /// cannot go on: one that ends inside the file header or a table, a 32-bit file, a file
    /// header with other table entry sizes, a table that runs past the address space, or a
    /// section name table that does not hold a section's name.
    pub fn try_parse(buffer: &[u8]) -> (r: Option<Result<Self, ParseElfError>>)
        ensures
            match parse_spec(buffer@) {
                Some(Ok(c)) => r matches Some(Ok(elf)) && elf.class == Class::Elf64 && elf.contents() == c,
                Some(Err(e)) => r == Some(Err::<Self, ParseElfError>(e)),
                None => r is None,
            },
    {
        let ghost b = buffer@;
        if buffer.len() < 4 {
            return None;
        }
        let mut cur = Cursor::new(buffer);
        let magic = cur.read_bytes(4);
        if !(magic[0] == 0x7f && magic[1] == 0x45 && magic[2] == 0x4c && magic[3] == 0x46) {
            return Some(Err(ParseElfError::MissingMagicNumber));
        }
        if buffer.len() < 5 {
            return None;
        }

        let class = match cur.read_u8() {
            1 => Class::Elf32,
            2 => Class::Elf64,
            x => return Some(Err(ParseElfError::InvalidElfClass(x))),
        };
        if class != Class::Elf64 {
            return None;
        }
        if buffer.len() < 6 {
            return None;
        }

        let data_encoding = match cur.read_u8() {
            1 => DataEncoding::Lsb,
            2 => DataEncoding::Msb,
            x => return Some(Err(ParseElfError::InvalidDataEncoding(x))),
        };
        if buffer.len() < 18 {
            return None;
        }

        let _header_version = cur.read_u8();
        let _os_abi = cur.read_u8();
        let _abi_version = cur.read_u8();
        cur.skip(7);

        let ty_raw = read_u16(&mut cur, data_encoding);
        let ty = match ty_raw {
            1 => ObjectFileType::RelocatableFile,
            2 => ObjectFileType::ExecutableFile,
            3 => ObjectFileType::SharedObjectFile,
            4 => ObjectFileType::CoreFile,
            x => if 0xFE00 <= x && x <= 0xFEFF {
                ObjectFileType::EnvironmentSpecific(x)
            } else if 0xFF00 <= x {
                ObjectFileType::ProcessorSpecific(x)
            } else {
                return Some(Err(ParseElfError::InvalidObjectFileType(x)));
            },
        };
        if buffer.len() < 20 {
            return None;
        }

        let machine = match MachineArchitecture::try_from(read_u16(&mut cur, data_encoding)) {
            Ok(m) => m,
            Err(e) => return Some(Err(ParseElfError::UnknownMachineArchitecture(e))),
        };
        if buffer.len() < 64 {
            return None;
        }

        let _elf_version = read_u32(&mut cur, data_encoding);
        let entry = read_u64(&mut cur, data_encoding);
        let ph_offset = read_u64(&mut cur, data_encoding);
        let sh_offset = read_u64(&mut cur, data_encoding);
        let _flags = read_u32(&mut cur, data_encoding);
        let _header_size = read_u16(&mut cur, data_encoding);
        let ph_entry_size = read_u16(&mut cur, data_encoding) as u64;
        let ph_entry_count = read_u16(&mut cur, data_encoding) as u64;
        let sh_entry_size = read_u16(&mut cur, data_encoding) as u64;
        let sh_entry_count = read_u16(&mut cur, data_encoding) as u64;
        let sh_str_index = read_u16(&mut cur, data_encoding) as u64;

        if ph_entry_size != 56 || sh_entry_size != 64 {
            return None;
        }

        let blen = buffer.len();
        let len = blen as u64;
        proof {
            assert(parse_spec(b) == after_file_header(b, data_encoding, ty, machine));
        }
        if ph_offset > u64::MAX - ph_entry_count * ph_entry_size {
            return None;
        }
        let ph_end = ph_offset + ph_entry_count * ph_entry_size;
        if ph_end > len {
            return Some(Err(ParseElfError::BufferTooSmall { given: len, required: ph_end }));
        }
        let mut program_headers: Vec<ProgramHeader> = Vec::new();
        let mut i: u64 = 0;
        while i < ph_entry_count
            invariant
                b == buffer@,
                len == b.len(),
                blen == b.len(),
                ph_entry_size == 56,
                parse_spec(b) == match program_headers_spec(b, ph_offset as int, ph_entry_count as nat) {
                    Err(e) => Some(Err(e)),
                    Ok(phs) => after_program_headers(b, data_encoding, ty, machine, phs),
                },
                ph_offset + ph_entry_count * 56 <= len,
                ph_offset == u64_at(b, 32),
                ph_entry_count == u16_at(b, 56),
                i <= ph_entry_count,
                program_headers_spec(b, ph_offset as int, i as nat) == Ok::<Seq<ProgramHeader>, ParseElfError>(program_headers@),
            decreases ph_entry_count - i,
        {
            let start = ph_offset + i * ph_entry_size;
            let header = ProgramHeader::try_from(
                &buffer[start as usize..(start + ph_entry_size) as usize],
                data_encoding,
            );
            match header {
                Ok(h) => program_headers.push(h),
                Err(e) => {
                    proof {
                        lemma_program_headers_error_stays(b, ph_offset as int, (i + 1) as nat, ph_entry_count as nat);
                    }
                    return Some(Err(e));
                },
            }
            i += 1;
        }

        if sh_offset > u64::MAX - sh_entry_count * sh_entry_size {
            return None;
        }
        let sh_end = sh_offset + sh_entry_count * sh_entry_size;
        if sh_end > len {
            return Some(Err(ParseElfError::BufferTooSmall { given: len, required: sh_end }));
        }
        if sh_str_index * sh_entry_size + sh_entry_size > len - sh_offset {
            return None;
        }
        let start = sh_offset + sh_str_index * sh_entry_size;
        let header = match SectionHeader::try_from(
            &buffer[start as usize..(start + sh_entry_size) as usize],
            data_encoding,
            None,
        ) {
            Ok(h) => h,
            Err(e) => return Some(Err(e)),
        };
        if header.ty != SectionType::StringTable {
            return Some(Err(ParseElfError::InvalidData));
        }
        let offset = header.offset;
        let size = header.size;
        if offset == sh_offset {
            return Some(Err(ParseElfError::InvalidData));
        }
        if offset < sh_offset {
            if size > sh_offset - offset {
                return None;
            }
        } else if offset > len || size > len - offset {
            return None;
        }
        let (string_table, sh_buffer) = if offset < sh_offset {
            let (before, after) = buffer.split_at(sh_offset as usize);
            (&before[offset as usize..(offset as usize + size as usize)], after)
        } else {
            let (before, after) = buffer.split_at(offset as usize);
            (&after[0..size as usize], &before[sh_offset as usize..before.len()])
        };
        proof {
            assert(string_table_split(b, sh_offset as int, offset as int, size as int) == Some((string_table@, sh_buffer@)));
        }

        let mut section_headers: Vec<SectionHeader> = Vec::new();
        proof {
            assert(section_headers@.map_values(|h: SectionHeader| h.view()) =~= Seq::<SectionHeaderView>::empty());
        }
        let mut i: u64 = 0;
        while i < sh_entry_count
            invariant
                i <= sh_entry_count,
                sh_entry_size == 64,
                sh_entry_count <= 0xFFFF,
                b == buffer@,
                parse_spec(b) == elf_outcome(data_encoding, ty, machine, entry, program_headers@,
                    section_headers_spec(sh_buffer@, string_table@, sh_entry_count as nat)),
                section_headers_spec(sh_buffer@, string_table@, i as nat) == Some(Ok::<Seq<SectionHeaderView>, ParseElfError>(
                    section_headers@.map_values(|h: SectionHeader| h.view()))),
            decreases sh_entry_count - i,
        {
            let start = i * sh_entry_size;
            if start + sh_entry_size > sh_buffer.len() as u64 {
                proof {
                    lemma_section_headers_failure_stays(sh_buffer@, string_table@, (i + 1) as nat, sh_entry_count as nat);
                }
                return None;
            }
            let entry = &sh_buffer[start as usize..(start + sh_entry_size) as usize];
            if !section_name_found(entry, string_table) {
                proof {
                    lemma_section_headers_failure_stays(sh_buffer@, string_table@, (i + 1) as nat, sh_entry_count as nat);
                }
                return None;
            }
            let h = SectionHeader::try_from(entry, data_encoding, Some(string_table));
            match h {
                Ok(h) => {
                    let ghost prev = section_headers@;
                    let ghost hv = h.view();
                    section_headers.push(h);
                    proof {
                        assert(section_headers@.map_values(|h: SectionHeader| h.view())
                            =~= prev.map_values(|h: SectionHeader| h.view()).push(hv));
                    }
                },
                Err(e) => {
                    proof {
                        assert(section_headers_spec(sh_buffer@, string_table@, (i + 1) as nat)
                            == Some(Err::<Seq<SectionHeaderView>, ParseElfError>(e)));
                        lemma_section_headers_failure_stays(sh_buffer@, string_table@, (i + 1) as nat, sh_entry_count as nat);
                    }
                    return Some(Err(e));
                },
            }
            i += 1;
        }

        Some(Ok(Self {
            class,
            data_encoding,
            ty,
            machine,
            entry,
            program_headers,
            section_headers,
        }))
    }

    /// Parses a 64-bit ELF file: the file header, the program headers, and the section
    /// headers named from the section name string table.
    pub fn parse(buffer: &[u8]) -> (r: Result<Self, ParseElfError>)
        requires
            parse_spec(buffer@) is Some,
        ensures
            match parse_spec(buffer@) {
                Some(Ok(c)) => r matches Ok(elf) && elf.class == Class::Elf64 && elf.contents() == c,
                Some(Err(e)) => r == Err::<Self, ParseElfError>(e),
                None => false,
            },
    {
        match Self::try_parse(buffer) {
            Some(r) => r,
            None => {
                proof {
                    assert(false);
                }
                Err(ParseElfError::InvalidData)
            },
        }
    }
}

} // verus!
