//! The file header and the entries of the program and section header tables.

use vstd::prelude::*;
use vstd::std_specs::convert::FromSpec;

use crate::endian::{lemma_value_at_window, read_failure};
use crate::header::ident::{ElfClass, ElfIdent};
use crate::Error;

pub mod ident;

verus! {

/// What kind of object file this is.
#[derive(Clone, Copy, Ord, PartialOrd, Eq, PartialEq, Debug, Hash, Structural)]
pub enum FileType {
    /// No file type
    NoType,
    /// Relocatable file
    Relocatable,
    /// Executable file
    Executable,
    /// Shared object file
    SharedObject,
    /// Core file
    Core,
    /// Any other code, kept as it was read.
    Unknown(u16),
}

impl From<u16> for FileType {
    fn from(value: u16) -> (ty: FileType) {
        match value {
            0 => FileType::NoType,
            1 => FileType::Relocatable,
            2 => FileType::Executable,
            3 => FileType::SharedObject,
            4 => FileType::Core,
            value => FileType::Unknown(value),
        }
    }
}

impl vstd::std_specs::convert::FromSpecImpl<u16> for FileType {
    open spec fn obeys_from_spec() -> bool {
        true
    }

    /// The file type that a code stands for; a code that names none is
    /// kept in `Unknown`.
    open spec fn from_spec(value: u16) -> FileType {
        if value == 0 {
            FileType::NoType
        } else if value == 1 {
            FileType::Relocatable
        } else if value == 2 {
            FileType::Executable
        } else if value == 3 {
            FileType::SharedObject
        } else if value == 4 {
            FileType::Core
        } else {
            FileType::Unknown(value)
        }
    }
}

impl Default for FileType {
    fn default() -> (ty: FileType)
        ensures
            ty == FileType::NoType,
    {
        FileType::NoType
    }
}

/// The machine that the file was made for.
#[allow(non_camel_case_types)]
#[derive(Clone, Copy, Ord, PartialOrd, Eq, PartialEq, Debug, Hash, Structural)]
pub enum TargetMachine {
    /// No machine, or one that is not known here.
    NoMachine,
    /// ARM/AArch32
    ARM,
    /// x86_64
    X86_64,
    /// ARM64/AArch64
    ARM64,
    /// RISC-V
    RISCV,
}

impl From<u16> for TargetMachine {
    fn from(value: u16) -> (machine: TargetMachine) {
        match value {
            62 => TargetMachine::X86_64,
            40 => TargetMachine::ARM,
            183 => TargetMachine::ARM64,
            243 => TargetMachine::RISCV,
            _ => TargetMachine::NoMachine,
        }
    }
}

impl vstd::std_specs::convert::FromSpecImpl<u16> for TargetMachine {
    open spec fn obeys_from_spec() -> bool {
        true
    }

    /// The machine that a code stands for; a code that names none of the
    /// four stands for `NoMachine`.
    open spec fn from_spec(value: u16) -> TargetMachine {
        if value == 62 {
            TargetMachine::X86_64
        } else if value == 40 {
            TargetMachine::ARM
        } else if value == 183 {
            TargetMachine::ARM64
        } else if value == 243 {
            TargetMachine::RISCV
        } else {
            TargetMachine::NoMachine
        }
    }
}

impl Default for TargetMachine {
    fn default() -> (machine: TargetMachine)
        ensures
            machine == TargetMachine::NoMachine,
    {
        TargetMachine::NoMachine
    }
}

/// What a segment is for.
#[derive(Clone, Copy, Ord, PartialOrd, Eq, PartialEq, Debug, Hash, Structural)]
pub enum SegmentType {
    /// Unused entry; its other fields mean nothing.
    Null,
    /// Loadable segment
    Load,
    /// Dynamic linking information
    Dynamic,
    /// Path name of the interpreter
    Interp,
    /// Auxiliary information
    Note,
    /// Reserved
    ShLib,
    /// The program header table itself
    Phdr,
    /// Thread-local storage template
    TLS,
    /// GNU: exception handling frames
    GNUEhFrame,
    /// GNU: whether the stack is executable
    GNUStack,
    /// GNU: read-only after relocation
    GNURelro,
    /// GNU: program properties
    GNUProperty,
    /// Any other code, kept as it was read.
    Unknown(u32),
}

impl From<u32> for SegmentType {
    fn from(value: u32) -> (ty: SegmentType) {
        match value {
            0x00000000 => SegmentType::Null,
            0x00000001 => SegmentType::Load,
            0x00000002 => SegmentType::Dynamic,
            0x00000003 => SegmentType::Interp,
            0x00000004 => SegmentType::Note,
            0x00000005 => SegmentType::ShLib,
            0x00000006 => SegmentType::Phdr,
            0x00000007 => SegmentType::TLS,
            0x6474E553 => SegmentType::GNUProperty,
            0x6474E550 => SegmentType::GNUEhFrame,
            0x6474E551 => SegmentType::GNUStack,
            0x6474E552 => SegmentType::GNURelro,
            value => SegmentType::Unknown(value),
        }
    }
}

impl vstd::std_specs::convert::FromSpecImpl<u32> for SegmentType {
    open spec fn obeys_from_spec() -> bool {
        true
    }

    /// The segment type that a code stands for; a code that names none is
    /// kept in `Unknown`.
    open spec fn from_spec(value: u32) -> SegmentType {
        if value == 0 {
            SegmentType::Null
        } else if value == 1 {
            SegmentType::Load
        } else if value == 2 {
            SegmentType::Dynamic
        } else if value == 3 {
            SegmentType::Interp
        } else if value == 4 {
            SegmentType::Note
        } else if value == 5 {
            SegmentType::ShLib
        } else if value == 6 {
            SegmentType::Phdr
        } else if value == 7 {
            SegmentType::TLS
        } else if value == 0x6474E550 {
            SegmentType::GNUEhFrame
        } else if value == 0x6474E551 {
            SegmentType::GNUStack
        } else if value == 0x6474E552 {
            SegmentType::GNURelro
        } else if value == 0x6474E553 {
            SegmentType::GNUProperty
        } else {
            SegmentType::Unknown(value)
        }
    }
}

impl Default for SegmentType {
    fn default() -> (ty: SegmentType)
        ensures
            ty == SegmentType::Null,
    {
        SegmentType::Null
    }
}

/// What a section holds.
#[derive(Clone, Copy, Ord, PartialOrd, Eq, PartialEq, Debug, Hash, Structural)]
pub enum SectionType {
    Null,
    ProgBits,
    SymbolTable,
    StringTable,
    Rela,
    Hash,
    Dynamic,
    Note,
    NoBits,
    Rel,
    ShLib,
    DynamicSymbol,
    InitArray,
    FiniArray,
    PreInitArray,
    Group,
    SymbolTableIndex,
    /// Any other code, kept as it was read.
    Unknown(u32),
}

impl From<u32> for SectionType {
    fn from(value: u32) -> (ty: SectionType) {
        match value {
            0 => SectionType::Null,
            1 => SectionType::ProgBits,
            2 => SectionType::SymbolTable,
            3 => SectionType::StringTable,
            4 => SectionType::Rela,
            5 => SectionType::Hash,
            6 => SectionType::Dynamic,
            7 => SectionType::Note,
            8 => SectionType::NoBits,
            9 => SectionType::Rel,
            10 => SectionType::ShLib,
            11 => SectionType::DynamicSymbol,
            14 => SectionType::InitArray,
            15 => SectionType::FiniArray,
            16 => SectionType::PreInitArray,
            17 => SectionType::Group,
            81 => SectionType::SymbolTableIndex,
            value => SectionType::Unknown(value),
        }
    }
}

impl vstd::std_specs::convert::FromSpecImpl<u32> for SectionType {
    open spec fn obeys_from_spec() -> bool {
        true
    }

    /// The section type that a code stands for; a code that names none is
    /// kept in `Unknown`.
    open spec fn from_spec(value: u32) -> SectionType {
        if value == 0 {
            SectionType::Null
        } else if value == 1 {
            SectionType::ProgBits
        } else if value == 2 {
            SectionType::SymbolTable
        } else if value == 3 {
            SectionType::StringTable
        } else if value == 4 {
            SectionType::Rela
        } else if value == 5 {
            SectionType::Hash
        } else if value == 6 {
            SectionType::Dynamic
        } else if value == 7 {
            SectionType::Note
        } else if value == 8 {
            SectionType::NoBits
        } else if value == 9 {
            SectionType::Rel
        } else if value == 10 {
            SectionType::ShLib
        } else if value == 11 {
            SectionType::DynamicSymbol
        } else if value == 14 {
            SectionType::InitArray
        } else if value == 15 {
            SectionType::FiniArray
        } else if value == 16 {
            SectionType::PreInitArray
        } else if value == 17 {
            SectionType::Group
        } else if value == 81 {
            SectionType::SymbolTableIndex
        } else {
            SectionType::Unknown(value)
        }
    }
}

impl Default for SectionType {
    fn default() -> (ty: SectionType)
        ensures
            ty == SectionType::Null,
    {
        SectionType::Null
    }
}

/// The flags of a segment: a set of bits, three of which have a name. Bits
/// without a name are kept as they were read.
#[derive(Clone, Copy, Ord, PartialOrd, Eq, PartialEq, Debug, Hash, Structural)]
pub struct SegmentFlags {
    /// The bits of the set.
    pub bits: u32,
}

impl SegmentFlags {
    /// The content of the segment may be executed.
    pub const EXECUTABLE: u32 = 0x1;

    /// The content of the segment may be written.
    pub const WRITABLE: u32 = 0x2;

    /// The content of the segment may be read.
    pub const READABLE: u32 = 0x4;

    /// Whether every bit of `mask` is in this set.
    pub open spec fn has(self, mask: u32) -> bool {
        self.bits & mask == mask
    }

    /// The set without any bit.
    pub fn empty() -> (flags: SegmentFlags)
        ensures
            flags.bits == 0,
    {
        SegmentFlags { bits: 0 }
    }

    /// The set with exactly the bits of `bits`, named or not.
    pub fn from_bits_retain(bits: u32) -> (flags: SegmentFlags)
        ensures
            flags.bits == bits,
    {
        SegmentFlags { bits }
    }

    /// The bits of this set.
    pub fn bits(&self) -> (bits: u32)
        ensures
            bits == self.bits,
    {
        self.bits
    }

    /// Whether the set has no bit at all.
    pub fn is_empty(&self) -> (none: bool)
        ensures
            none <==> self.bits == 0,
    {
        self.bits == 0
    }

    /// Whether every bit of `mask` is in this set.
    pub fn contains(&self, mask: u32) -> (all: bool)
        ensures
            all <==> self.has(mask),
    {
        self.bits & mask == mask
    }
}

impl Default for SegmentFlags {
    fn default() -> (flags: SegmentFlags)
        ensures
            flags.bits == 0,
    {
        SegmentFlags { bits: 0 }
    }
}

/// The flags of a section: a set of bits, eleven of which have a name. Bits
/// without a name are kept as they were read.
#[derive(Clone, Copy, Ord, PartialOrd, Eq, PartialEq, Debug, Hash, Structural)]
pub struct SectionFlags {
    /// The bits of the set.
    pub bits: u64,
}

impl SectionFlags {
    /// The section is writable during execution.
    pub const WRITE: u64 = 0x1;

    /// The section occupies memory during execution.
    pub const ALLOC: u64 = 0x2;

    /// The section holds executable machine instructions.
    pub const INSTRUCTIONS: u64 = 0x4;

    /// The data of the section may be merged to avoid duplicates.
    pub const MERGE: u64 = 0x10;

    /// The section holds null-terminated strings.
    pub const STRINGS: u64 = 0x20;

    /// The `info` field of the header holds a section header table index.
    pub const INFO_LINK: u64 = 0x40;

    /// The section has to keep its order when linked.
    pub const LINK_ORDER: u64 = 0x80;

    /// The section needs handling that is specific to the operating system.
    pub const OS_NONCONFORMING: u64 = 0x100;

    /// The section is a member of a group.
    pub const GROUP: u64 = 0x200;

    /// The section holds thread-local storage.
    pub const TLS: u64 = 0x400;

    /// The section holds compressed data.
    pub const COMPRESSED: u64 = 0x800;

    /// Whether every bit of `mask` is in this set.
    pub open spec fn has(self, mask: u64) -> bool {
        self.bits & mask == mask
    }

    /// The set without any bit.
    pub fn empty() -> (flags: SectionFlags)
        ensures
            flags.bits == 0,
    {
        SectionFlags { bits: 0 }
    }

    /// The set with exactly the bits of `bits`, named or not.
    pub fn from_bits_retain(bits: u64) -> (flags: SectionFlags)
        ensures
            flags.bits == bits,
    {
        SectionFlags { bits }
    }

    /// The bits of this set.
    pub fn bits(&self) -> (bits: u64)
        ensures
            bits == self.bits,
    {
        self.bits
    }

    /// Whether the set has no bit at all.
    pub fn is_empty(&self) -> (none: bool)
        ensures
            none <==> self.bits == 0,
    {
        self.bits == 0
    }

    /// Whether every bit of `mask` is in this set.
    pub fn contains(&self, mask: u64) -> (all: bool)
        ensures
            all <==> self.has(mask),
    {
        self.bits & mask == mask
    }
}

impl Default for SectionFlags {
    fn default() -> (flags: SectionFlags)
        ensures
            flags.bits == 0,
    {
        SectionFlags { bits: 0 }
    }
}

/// A walk over fields that stand one behind the other in a buffer of `len`
/// bytes: where the next field starts, and why the walk has stopped, once
/// it has. It says which failure a decoder ends with: that of the first
/// field that cannot be read.
pub struct Walk {
    /// Class and byte order that the fields are read with.
    pub ident: ElfIdent,
    /// Length of the buffer.
    pub len: int,
    /// Where the next field starts.
    pub at: int,
    /// Why the walk stopped, if it did.
    pub failure: Option<Error>,
}

impl Walk {
    /// The walk that is about to read its first field at `at`.
    pub open spec fn start(ident: ElfIdent, len: int, at: int) -> Walk {
        Walk { ident, len, at, failure: None }
    }

    /// The walk after a field of `width` bytes. A walk that has stopped
    /// stays as it is.
    pub open spec fn fixed(self, width: int) -> Walk {
        if self.failure is Some {
            self
        } else {
            match read_failure(self.len, self.ident.endian, self.at, width) {
                Some(error) => Walk { failure: Some(error), ..self },
                None => Walk { at: self.at + width, ..self },
            }
        }
    }

    /// The walk after a 16-bit field.
    pub open spec fn half(self) -> Walk {
        self.fixed(2)
    }

    /// The walk after a 32-bit field.
    pub open spec fn word(self) -> Walk {
        self.fixed(4)
    }

    /// The walk after a field as wide as an address is in this class.
    pub open spec fn address(self) -> Walk {
        if self.failure is Some {
            self
        } else {
            match self.ident.address_failure(self.len, self.at) {
                Some(error) => Walk { failure: Some(error), ..self },
                None => Walk { at: self.at + self.ident.class.address_width(), ..self },
            }
        }
    }
}

/// The file header: what the file is, and where its two tables lie.
#[derive(Clone, Copy, Ord, PartialOrd, Eq, PartialEq, Debug, Hash, Structural)]
pub struct FileHeader {
    /// What the identification bytes say.
    pub ident: ElfIdent,
    /// Kind of object file.
    pub ty: FileType,
    /// Machine that the file was made for.
    pub machine: TargetMachine,
    /// Version of the object file.
    pub version: u32,
    /// Virtual address of the entry point; `None` where the file has none,
    /// which it says with an address of zero.
    pub entry_address: Option<u64>,
    /// Where the program header table starts, counted from the signature.
    pub program_header_offset: u64,
    /// Where the section header table starts, counted from the signature.
    pub section_header_offset: u64,
    /// Flags that are specific to the machine.
    pub flags: u32,
    /// Size of the file header.
    pub file_header_size: u16,
    /// Size of one entry of the program header table.
    pub program_header_size: u16,
    /// Number of entries of the program header table.
    pub program_header_count: u16,
    /// Size of one entry of the section header table.
    pub section_header_size: u16,
    /// Number of entries of the section header table.
    pub section_header_count: u16,
    /// Index of the section that holds the section names.
    pub string_table_index: u16,
}

impl FileHeader {
    /// How far behind the class byte the first field of the header
    /// stands. The identification takes sixteen bytes, the first four of
    /// them the signature, so twelve are left from the class byte on.
    pub const IDENT_REST: usize = 12;

    /// How many bytes the fields behind the identification take.
    pub open spec fn fields_size(class: ElfClass) -> int {
        24 + 3 * class.address_width()
    }

    /// Why the fields that start at `start` cannot be read, if they
    /// cannot: the failure of the first field, in the order of the file,
    /// that cannot be read.
    pub open spec fn fields_failure(ident: ElfIdent, len: int, start: int) -> Option<Error> {
        Walk::start(ident, len, start).half().half().word().address().address().address().word()
            .half().half().half().half().half().half().failure
    }

    /// The header whose identification is `ident` and whose fields start
    /// at `start`, each field at its place.
    pub open spec fn fields_at(ident: ElfIdent, bytes: Seq<u8>, start: int) -> FileHeader {
        let width = ident.class.address_width();
        let entry = ident.address_at(bytes, start + 8);
        FileHeader {
            ident,
            ty: FileType::from_spec(ident.endian.u16_at(bytes, start)),
            machine: TargetMachine::from_spec(ident.endian.u16_at(bytes, start + 2)),
            version: ident.endian.u32_at(bytes, start + 4),
            entry_address: if entry == 0 {
                None
            } else {
                Some(entry)
            },
            program_header_offset: ident.address_at(bytes, start + 8 + width),
            section_header_offset: ident.address_at(bytes, start + 8 + 2 * width),
            flags: ident.endian.u32_at(bytes, start + 8 + 3 * width),
            file_header_size: ident.endian.u16_at(bytes, start + 12 + 3 * width),
            program_header_size: ident.endian.u16_at(bytes, start + 14 + 3 * width),
            program_header_count: ident.endian.u16_at(bytes, start + 16 + 3 * width),
            section_header_size: ident.endian.u16_at(bytes, start + 18 + 3 * width),
            section_header_count: ident.endian.u16_at(bytes, start + 20 + 3 * width),
            string_table_index: ident.endian.u16_at(bytes, start + 22 + 3 * width),
        }
    }

    /// The outcome of decoding the file header whose class byte stands at
    /// `at`: the identification first, then the fields twelve bytes on.
    pub open spec fn decoded(bytes: Seq<u8>, at: int) -> Result<FileHeader, Error> {
        match ElfIdent::decoded(bytes, at) {
            Err(error) => Err(error),
            Ok(ident) => match Self::fields_failure(ident, bytes.len() as int, at + 12) {
                Some(error) => Err(error),
                None => Ok(Self::fields_at(ident, bytes, at + 12)),
            },
        }
    }

    /// Decodes the file header. `offset` is the position right behind the
    /// signature, where the class byte stands.
    pub fn read(slice: &[u8], offset: usize) -> (read: Result<FileHeader, Error>)
        ensures
            read == Self::decoded(slice@, offset as int),
            read is Ok <==> ElfIdent::failure(slice@, offset as int) is None && offset + 12
                + Self::fields_size(ElfClass::spec_from_byte(slice@[offset as int]))
                <= slice@.len(),
    {
        let ident = ElfIdent::read(slice, offset)?;
        if slice.len() - offset < Self::IDENT_REST {
            return Err(Error::NotEnoughBytes(0));
        }
        let mut cursor = offset + Self::IDENT_REST;
        let endian = ident.endian;
        let ty: u16 = endian.read(slice, &mut cursor)?;
        let machine: u16 = endian.read(slice, &mut cursor)?;
        let version: u32 = endian.read(slice, &mut cursor)?;
        let entry_address = ident.read_address_or_offset(slice, &mut cursor)?;
        let program_header_offset = ident.read_address_or_offset(slice, &mut cursor)?;
        let section_header_offset = ident.read_address_or_offset(slice, &mut cursor)?;
        let flags: u32 = endian.read(slice, &mut cursor)?;
        let file_header_size: u16 = endian.read(slice, &mut cursor)?;
        let program_header_size: u16 = endian.read(slice, &mut cursor)?;
        let program_header_count: u16 = endian.read(slice, &mut cursor)?;
        let section_header_size: u16 = endian.read(slice, &mut cursor)?;
        let section_header_count: u16 = endian.read(slice, &mut cursor)?;
        let string_table_index: u16 = endian.read(slice, &mut cursor)?;
        Ok(
            FileHeader {
                ident,
                ty: FileType::from(ty),
                machine: TargetMachine::from(machine),
                version,
                entry_address: if entry_address == 0 {
                    None
                } else {
                    Some(entry_address)
                },
                program_header_offset,
                section_header_offset,
                flags,
                file_header_size,
                program_header_size,
                program_header_count,
                section_header_size,
                section_header_count,
                string_table_index,
            },
        )
    }

    /// Whether the fields can be read, and why not, is the same seen from
    /// `from`, in a buffer that holds only that tail.
    pub proof fn lemma_fields_failure_in_tail(ident: ElfIdent, len: int, from: int, start: int)
        requires
            0 <= from <= start,
        ensures
            Self::fields_failure(ident, len - from, start - from) == Self::fields_failure(
                ident,
                len,
                start,
            ),
    {
    }

    /// What stands before a header does not matter: decoded from the tail
    /// of the buffer that starts at `from`, the header at `at` is the
    /// same, and so is the failure where it cannot be decoded.
    pub proof fn lemma_decoded_in_tail(bytes: Seq<u8>, from: int, at: int)
        requires
            0 <= from <= at,
            from <= bytes.len(),
        ensures
            Self::decoded(bytes.subrange(from, bytes.len() as int), at - from) == Self::decoded(
                bytes,
                at,
            ),
    {
        let len = bytes.len() as int;
        let tail = bytes.subrange(from, len);
        ElfIdent::lemma_decoded_in_tail(bytes, from, at);
        if ElfIdent::decoded(bytes, at) is Ok {
            let ident = ElfIdent::decoded(bytes, at)->Ok_0;
            let start = at + 12;
            let width = ident.class.address_width();
            Self::lemma_fields_failure_in_tail(ident, len, from, start);
            if Self::fields_failure(ident, len, start) is None {
                lemma_value_at_window(ident.endian, bytes, from, len, start, 2);
                lemma_value_at_window(ident.endian, bytes, from, len, start + 2, 2);
                lemma_value_at_window(ident.endian, bytes, from, len, start + 4, 4);
                lemma_value_at_window(ident.endian, bytes, from, len, start + 8, width);
                lemma_value_at_window(ident.endian, bytes, from, len, start + 8 + width, width);
                lemma_value_at_window(ident.endian, bytes, from, len, start + 8 + 2 * width, width);
                lemma_value_at_window(ident.endian, bytes, from, len, start + 8 + 3 * width, 4);
                lemma_value_at_window(ident.endian, bytes, from, len, start + 12 + 3 * width, 2);
                lemma_value_at_window(ident.endian, bytes, from, len, start + 14 + 3 * width, 2);
                lemma_value_at_window(ident.endian, bytes, from, len, start + 16 + 3 * width, 2);
                lemma_value_at_window(ident.endian, bytes, from, len, start + 18 + 3 * width, 2);
                lemma_value_at_window(ident.endian, bytes, from, len, start + 20 + 3 * width, 2);
                lemma_value_at_window(ident.endian, bytes, from, len, start + 22 + 3 * width, 2);
            }
        }
    }
}

/// One entry of the program header table: a segment of the file and where
/// it goes in memory.
#[derive(Clone, Copy, Ord, PartialOrd, Eq, PartialEq, Debug, Hash, Structural)]
pub struct ProgramHeader {
    /// What the segment is for.
    pub ty: SegmentType,
    /// Flags of the segment.
    pub flags: SegmentFlags,
    /// Where the segment starts in the file.
    pub offset: u64,
    /// Virtual address of the first byte in memory.
    pub virtual_address: u64,
    /// Physical address of the segment, where that means anything.
    pub physical_address: u64,
    /// Size of the segment in the file.
    pub file_size: u64,
    /// Size of the segment in memory.
    pub memory_size: u64,
    /// Alignment of the segment in memory.
    pub alignment: u64,
}

impl Default for ProgramHeader {
    fn default() -> (entry: ProgramHeader)
        ensures
            entry == (ProgramHeader {
                ty: SegmentType::Null,
                flags: SegmentFlags { bits: 0 },
                offset: 0,
                virtual_address: 0,
                physical_address: 0,
                file_size: 0,
                memory_size: 0,
                alignment: 0,
            }),
    {
        ProgramHeader {
            ty: SegmentType::Null,
            flags: SegmentFlags { bits: 0 },
            offset: 0,
            virtual_address: 0,
            physical_address: 0,
            file_size: 0,
            memory_size: 0,
            alignment: 0,
        }
    }
}

impl ProgramHeader {
    /// How many bytes one entry takes in a file of this class: 32 in a
    /// 32-bit file, 56 in a 64-bit file.
    pub open spec fn entry_size(class: ElfClass) -> int {
        8 + 6 * class.address_width()
    }

    /// Why the entry at `at` cannot be read, if it cannot: the failure of
    /// the first field, in the order of the file, that cannot be read. The
    /// flags stand right behind the type in a 64-bit file and before the
    /// alignment in a 32-bit file.
    pub open spec fn failure(ident: ElfIdent, len: int, at: int) -> Option<Error> {
        let ty = Walk::start(ident, len, at).word();
        let early = if ident.class is Class64 {
            ty.word()
        } else {
            ty
        };
        let sizes = early.address().address().address().address().address();
        let late = if ident.class is Class32 {
            sizes.word()
        } else {
            sizes
        };
        late.address().failure
    }

    /// The entry that starts at `at`, each field at its place.
    pub open spec fn entry_at(ident: ElfIdent, bytes: Seq<u8>, at: int) -> ProgramHeader {
        let width = ident.class.address_width();
        let flags = if ident.class is Class64 {
            at + 4
        } else {
            at + 4 + 5 * width
        };
        let first = if ident.class is Class64 {
            at + 8
        } else {
            at + 4
        };
        ProgramHeader {
            ty: SegmentType::from_spec(ident.endian.u32_at(bytes, at)),
            flags: SegmentFlags { bits: ident.endian.u32_at(bytes, flags) },
            offset: ident.address_at(bytes, first),
            virtual_address: ident.address_at(bytes, first + width),
            physical_address: ident.address_at(bytes, first + 2 * width),
            file_size: ident.address_at(bytes, first + 3 * width),
            memory_size: ident.address_at(bytes, first + 4 * width),
            alignment: ident.address_at(bytes, at + 8 + 5 * width),
        }
    }

    /// The outcome of decoding the entry that starts at `at`.
    pub open spec fn decoded(ident: ElfIdent, bytes: Seq<u8>, at: int) -> Result<
        ProgramHeader,
        Error,
    > {
        match Self::failure(ident, bytes.len() as int, at) {
            Some(error) => Err(error),
            None => Ok(Self::entry_at(ident, bytes, at)),
        }
    }

    /// Decodes the entry of the program header table that starts at
    /// `offset`, in the class and byte order of `ident`.
    pub fn read(ident: &ElfIdent, slice: &[u8], offset: usize) -> (read: Result<
        ProgramHeader,
        Error,
    >)
        ensures
            read == Self::decoded(*ident, slice@, offset as int),
            read is Ok <==> !(ident.class is Invalid) && !(ident.endian is Invalid) && offset
                + Self::entry_size(ident.class) <= slice@.len(),
    {
        let mut cursor = offset;
        let endian = ident.endian;
        let ty: u32 = endian.read(slice, &mut cursor)?;
        let mut flags: u32 = 0;
        if let ElfClass::Class64 = ident.class {
            flags = endian.read(slice, &mut cursor)?;
        }
        let offset = ident.read_address_or_offset(slice, &mut cursor)?;
        let virtual_address = ident.read_address_or_offset(slice, &mut cursor)?;
        let physical_address = ident.read_address_or_offset(slice, &mut cursor)?;
        let file_size = ident.read_address_or_offset(slice, &mut cursor)?;
        let memory_size = ident.read_address_or_offset(slice, &mut cursor)?;
        if let ElfClass::Class32 = ident.class {
            flags = endian.read(slice, &mut cursor)?;
        }
        let alignment = ident.read_address_or_offset(slice, &mut cursor)?;
        Ok(
            ProgramHeader {
                ty: SegmentType::from(ty),
                flags: SegmentFlags::from_bits_retain(flags),
                offset,
                virtual_address,
                physical_address,
                file_size,
                memory_size,
                alignment,
            },
        )
    }

    /// An entry can be decoded exactly where `ident` names a class and a
    /// byte order and the whole entry lies within the buffer.
    pub proof fn lemma_decodes_where_it_fits(ident: ElfIdent, len: int, at: int)
        ensures
            Self::failure(ident, len, at) is None <==> !(ident.class is Invalid) && !(
            ident.endian is Invalid) && at + Self::entry_size(ident.class) <= len,
    {
    }

    /// An entry takes exactly the bytes of its size: decoded from that
    /// window of the buffer alone, it is the same entry.
    pub proof fn lemma_entry_takes_its_bytes(ident: ElfIdent, bytes: Seq<u8>, at: int)
        requires
            0 <= at,
            Self::decoded(ident, bytes, at) is Ok,
        ensures
            at + Self::entry_size(ident.class) <= bytes.len(),
            Self::decoded(ident, bytes.subrange(at, at + Self::entry_size(ident.class)), 0)
                == Self::decoded(ident, bytes, at),
    {
        let width = ident.class.address_width();
        let end = at + Self::entry_size(ident.class);
        let flags = if ident.class is Class64 {
            at + 4
        } else {
            at + 4 + 5 * width
        };
        let first = if ident.class is Class64 {
            at + 8
        } else {
            at + 4
        };
        lemma_value_at_window(ident.endian, bytes, at, end, at, 4);
        lemma_value_at_window(ident.endian, bytes, at, end, flags, 4);
        lemma_value_at_window(ident.endian, bytes, at, end, first, width);
        lemma_value_at_window(ident.endian, bytes, at, end, first + width, width);
        lemma_value_at_window(ident.endian, bytes, at, end, first + 2 * width, width);
        lemma_value_at_window(ident.endian, bytes, at, end, first + 3 * width, width);
        lemma_value_at_window(ident.endian, bytes, at, end, first + 4 * width, width);
        lemma_value_at_window(ident.endian, bytes, at, end, at + 8 + 5 * width, width);
    }

    /// Whether an entry can be read, and why not, is the same seen from
    /// `from`, in a buffer that holds only that tail.
    pub proof fn lemma_failure_in_tail(ident: ElfIdent, len: int, from: int, at: int)
        requires
            0 <= from <= at,
        ensures
            Self::failure(ident, len - from, at - from) == Self::failure(ident, len, at),
    {
    }

    /// What stands before an entry does not matter: decoded from the tail
    /// of the buffer that starts at `from`, the entry at `at` is the same,
    /// and so is the failure where it cannot be decoded.
    pub proof fn lemma_decoded_in_tail(ident: ElfIdent, bytes: Seq<u8>, from: int, at: int)
        requires
            0 <= from <= at,
            from <= bytes.len(),
        ensures
            Self::decoded(ident, bytes.subrange(from, bytes.len() as int), at - from)
                == Self::decoded(ident, bytes, at),
    {
        let len = bytes.len() as int;
        let width = ident.class.address_width();
        let flags = if ident.class is Class64 {
            at + 4
        } else {
            at + 4 + 5 * width
        };
        let first = if ident.class is Class64 {
            at + 8
        } else {
            at + 4
        };
        Self::lemma_failure_in_tail(ident, len, from, at);
        if Self::failure(ident, len, at) is None {
            lemma_value_at_window(ident.endian, bytes, from, len, at, 4);
            lemma_value_at_window(ident.endian, bytes, from, len, flags, 4);
            lemma_value_at_window(ident.endian, bytes, from, len, first, width);
            lemma_value_at_window(ident.endian, bytes, from, len, first + width, width);
            lemma_value_at_window(ident.endian, bytes, from, len, first + 2 * width, width);
            lemma_value_at_window(ident.endian, bytes, from, len, first + 3 * width, width);
            lemma_value_at_window(ident.endian, bytes, from, len, first + 4 * width, width);
            lemma_value_at_window(ident.endian, bytes, from, len, at + 8 + 5 * width, width);
        }
    }
}

/// One entry of the section header table.
#[derive(Clone, Copy, Ord, PartialOrd, Eq, PartialEq, Debug, Hash, Structural)]
pub struct SectionHeader {
    /// Index of the section's name in the string table.
    pub name: u32,
    /// What the section holds.
    pub ty: SectionType,
    /// Flags of the section.
    pub flags: SectionFlags,
    /// Address of the first byte, where the section appears in memory.
    pub addr: u64,
    /// Where the section starts in the file.
    pub offset: u64,
    /// Size of the section in bytes.
    pub size: u64,
    /// Index of a linked section; what it means depends on the type.
    pub link: u32,
    /// Extra information; what it means depends on the type.
    pub info: u32,
    /// Alignment of the section.
    pub addr_align: u64,
    /// Size of one entry, where the section holds entries of one size.
    pub entry_size: u64,
}

impl Default for SectionHeader {
    fn default() -> (entry: SectionHeader)
        ensures
            entry == (SectionHeader {
                name: 0,
                ty: SectionType::Null,
                flags: SectionFlags { bits: 0 },
                addr: 0,
                offset: 0,
                size: 0,
                link: 0,
                info: 0,
                addr_align: 0,
                entry_size: 0,
            }),
    {
        SectionHeader {
            name: 0,
            ty: SectionType::Null,
            flags: SectionFlags { bits: 0 },
            addr: 0,
            offset: 0,
            size: 0,
            link: 0,
            info: 0,
            addr_align: 0,
            entry_size: 0,
        }
    }
}

impl SectionHeader {
    /// How many bytes one entry takes in a file of this class: 40 in a
    /// 32-bit file, 64 in a 64-bit file.
    pub open spec fn entry_size(class: ElfClass) -> int {
        16 + 6 * class.address_width()
    }

    /// Why the entry at `at` cannot be read, if it cannot: the failure of
    /// the first field, in the order of the file, that cannot be read.
    pub open spec fn failure(ident: ElfIdent, len: int, at: int) -> Option<Error> {
        Walk::start(ident, len, at).word().word().address().address().address().address().word()
            .word().address().address().failure
    }

    /// The entry that starts at `at`, each field at its place.
    pub open spec fn entry_at(ident: ElfIdent, bytes: Seq<u8>, at: int) -> SectionHeader {
        let width = ident.class.address_width();
        SectionHeader {
            name: ident.endian.u32_at(bytes, at),
            ty: SectionType::from_spec(ident.endian.u32_at(bytes, at + 4)),
            flags: SectionFlags { bits: ident.address_at(bytes, at + 8) },
            addr: ident.address_at(bytes, at + 8 + width),
            offset: ident.address_at(bytes, at + 8 + 2 * width),
            size: ident.address_at(bytes, at + 8 + 3 * width),
            link: ident.endian.u32_at(bytes, at + 8 + 4 * width),
            info: ident.endian.u32_at(bytes, at + 12 + 4 * width),
            addr_align: ident.address_at(bytes, at + 16 + 4 * width),
            entry_size: ident.address_at(bytes, at + 16 + 5 * width),
        }
    }

    /// The outcome of decoding the entry that starts at `at`.
    pub open spec fn decoded(ident: ElfIdent, bytes: Seq<u8>, at: int) -> Result<
        SectionHeader,
        Error,
    > {
        match Self::failure(ident, bytes.len() as int, at) {
            Some(error) => Err(error),
            None => Ok(Self::entry_at(ident, bytes, at)),
        }
    }

    /// Decodes the entry of the section header table that starts at
    /// `offset`, in the class and byte order of `ident`.
    pub fn read(ident: &ElfIdent, slice: &[u8], offset: usize) -> (read: Result<
        SectionHeader,
        Error,
    >)
        ensures
            read == Self::decoded(*ident, slice@, offset as int),
            read is Ok <==> !(ident.class is Invalid) && !(ident.endian is Invalid) && offset
                + Self::entry_size(ident.class) <= slice@.len(),
    {
        let mut cursor = offset;
        let endian = ident.endian;
        let name: u32 = endian.read(slice, &mut cursor)?;
        let ty: u32 = endian.read(slice, &mut cursor)?;
        let flags = ident.read_address_or_offset(slice, &mut cursor)?;
        let addr = ident.read_address_or_offset(slice, &mut cursor)?;
        let offset = ident.read_address_or_offset(slice, &mut cursor)?;
        let size = ident.read_address_or_offset(slice, &mut cursor)?;
        let link: u32 = endian.read(slice, &mut cursor)?;
        let info: u32 = endian.read(slice, &mut cursor)?;
        let addr_align = ident.read_address_or_offset(slice, &mut cursor)?;
        let entry_size = ident.read_address_or_offset(slice, &mut cursor)?;
        Ok(
            SectionHeader {
                name,
                ty: SectionType::from(ty),
                flags: SectionFlags::from_bits_retain(flags),
                addr,
                offset,
                size,
                link,
                info,
                addr_align,
                entry_size,
            },
        )
    }

    /// An entry can be decoded exactly where `ident` names a class and a
    /// byte order and the whole entry lies within the buffer.
    pub proof fn lemma_decodes_where_it_fits(ident: ElfIdent, len: int, at: int)
        ensures
            Self::failure(ident, len, at) is None <==> !(ident.class is Invalid) && !(
            ident.endian is Invalid) && at + Self::entry_size(ident.class) <= len,
    {
    }

    /// An entry takes exactly the bytes of its size: decoded from that
    /// window of the buffer alone, it is the same entry.
    pub proof fn lemma_entry_takes_its_bytes(ident: ElfIdent, bytes: Seq<u8>, at: int)
        requires
            0 <= at,
            Self::decoded(ident, bytes, at) is Ok,
        ensures
            at + Self::entry_size(ident.class) <= bytes.len(),
            Self::decoded(ident, bytes.subrange(at, at + Self::entry_size(ident.class)), 0)
                == Self::decoded(ident, bytes, at),
    {
        let width = ident.class.address_width();
        let end = at + Self::entry_size(ident.class);
        lemma_value_at_window(ident.endian, bytes, at, end, at, 4);
        lemma_value_at_window(ident.endian, bytes, at, end, at + 4, 4);
        lemma_value_at_window(ident.endian, bytes, at, end, at + 8, width);
        lemma_value_at_window(ident.endian, bytes, at, end, at + 8 + width, width);
        lemma_value_at_window(ident.endian, bytes, at, end, at + 8 + 2 * width, width);
        lemma_value_at_window(ident.endian, bytes, at, end, at + 8 + 3 * width, width);
        lemma_value_at_window(ident.endian, bytes, at, end, at + 8 + 4 * width, 4);
        lemma_value_at_window(ident.endian, bytes, at, end, at + 12 + 4 * width, 4);
        lemma_value_at_window(ident.endian, bytes, at, end, at + 16 + 4 * width, width);
        lemma_value_at_window(ident.endian, bytes, at, end, at + 16 + 5 * width, width);
    }

    /// Whether an entry can be read, and why not, is the same seen from
    /// `from`, in a buffer that holds only that tail.
    pub proof fn lemma_failure_in_tail(ident: ElfIdent, len: int, from: int, at: int)
        requires
            0 <= from <= at,
        ensures
            Self::failure(ident, len - from, at - from) == Self::failure(ident, len, at),
    {
    }

    /// What stands before an entry does not matter: decoded from the tail
    /// of the buffer that starts at `from`, the entry at `at` is the same,
    /// and so is the failure where it cannot be decoded.
    pub proof fn lemma_decoded_in_tail(ident: ElfIdent, bytes: Seq<u8>, from: int, at: int)
        requires
            0 <= from <= at,
            from <= bytes.len(),
        ensures
            Self::decoded(ident, bytes.subrange(from, bytes.len() as int), at - from)
                == Self::decoded(ident, bytes, at),
    {
        let len = bytes.len() as int;
        let width = ident.class.address_width();
        Self::lemma_failure_in_tail(ident, len, from, at);
        if Self::failure(ident, len, at) is None {
            lemma_value_at_window(ident.endian, bytes, from, len, at, 4);
            lemma_value_at_window(ident.endian, bytes, from, len, at + 4, 4);
            lemma_value_at_window(ident.endian, bytes, from, len, at + 8, width);
            lemma_value_at_window(ident.endian, bytes, from, len, at + 8 + width, width);
            lemma_value_at_window(ident.endian, bytes, from, len, at + 8 + 2 * width, width);
            lemma_value_at_window(ident.endian, bytes, from, len, at + 8 + 3 * width, width);
            lemma_value_at_window(ident.endian, bytes, from, len, at + 8 + 4 * width, 4);
            lemma_value_at_window(ident.endian, bytes, from, len, at + 12 + 4 * width, 4);
            lemma_value_at_window(ident.endian, bytes, from, len, at + 16 + 4 * width, width);
            lemma_value_at_window(ident.endian, bytes, from, len, at + 16 + 5 * width, width);
        }
    }
}

} // verus!
