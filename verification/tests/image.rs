use elf_headers::header::ident::{ElfClass, ElfEndian, ElfOsABI, ElfVersion};
use elf_headers::header::{
    FileType, ProgramHeader, SectionFlags, SectionHeader, SectionType, SegmentFlags, SegmentType,
    TargetMachine,
};
use elf_headers::{Elf, Error};

const PROGRAM_TABLE: usize = 64;
const SECTION_TABLE: usize = 4586344;

fn put(bytes: &mut Vec<u8>, at: usize, value: u64, width: usize) {
    for index in 0..width {
        bytes[at + index] = (value >> (8 * index)) as u8;
    }
}

fn put_segment(bytes: &mut Vec<u8>, index: usize, fields: [u64; 8]) {
    let at = PROGRAM_TABLE + index * 56;
    put(bytes, at, fields[0], 4);
    put(bytes, at + 4, fields[1], 4);
    for field in 2..8 {
        put(bytes, at + 8 * (field - 1), fields[field], 8);
    }
}

fn put_section(bytes: &mut Vec<u8>, index: usize, fields: [u64; 10]) {
    let at = SECTION_TABLE + index * 64;
    put(bytes, at, fields[0], 4);
    put(bytes, at + 4, fields[1], 4);
    put(bytes, at + 8, fields[2], 8);
    put(bytes, at + 16, fields[3], 8);
    put(bytes, at + 24, fields[4], 8);
    put(bytes, at + 32, fields[5], 8);
    put(bytes, at + 40, fields[6], 4);
    put(bytes, at + 44, fields[7], 4);
    put(bytes, at + 48, fields[8], 8);
    put(bytes, at + 56, fields[9], 8);
}

/// A little-endian 64-bit shared object for x86_64 with fourteen segments
/// and forty-two sections.
fn shared_object() -> Vec<u8> {
    let mut bytes = vec![0u8; SECTION_TABLE + 42 * 64];
    bytes[0] = 0x7F;
    bytes[1] = 0x45;
    bytes[2] = 0x4C;
    bytes[3] = 0x46;
    bytes[4] = 2;
    bytes[5] = 1;
    bytes[6] = 1;
    put(&mut bytes, 16, 3, 2);
    put(&mut bytes, 18, 62, 2);
    put(&mut bytes, 20, 1, 4);
    put(&mut bytes, 24, 0x87A0, 8);
    put(&mut bytes, 32, PROGRAM_TABLE as u64, 8);
    put(&mut bytes, 40, SECTION_TABLE as u64, 8);
    put(&mut bytes, 48, 0, 4);
    put(&mut bytes, 52, 64, 2);
    put(&mut bytes, 54, 56, 2);
    put(&mut bytes, 56, 14, 2);
    put(&mut bytes, 58, 64, 2);
    put(&mut bytes, 60, 42, 2);
    put(&mut bytes, 62, 41, 2);

    put_segment(&mut bytes, 0, [6, 4, 0x40, 0x40, 0x40, 0x310, 0x310, 0x8]);
    put_segment(&mut bytes, 1, [3, 4, 0x350, 0x350, 0x350, 0x1C, 0x1C, 0x1]);
    put_segment(&mut bytes, 2, [1, 4, 0x0, 0x0, 0x0, 0x55C8, 0x55C8, 0x1000]);
    put_segment(&mut bytes, 3, [1, 5, 0x6000, 0x6000, 0x6000, 0x42231, 0x42231, 0x1000]);
    put_segment(&mut bytes, 4, [1, 4, 0x49000, 0x49000, 0x49000, 0xFCBC, 0xFCBC, 0x1000]);
    put_segment(&mut bytes, 5, [1, 6, 0x590D8, 0x5A0D8, 0x5A0D8, 0x2F58, 0x3068, 0x1000]);
    put_segment(&mut bytes, 6, [2, 6, 0x5B6C8, 0x5C6C8, 0x5C6C8, 0x210, 0x210, 0x8]);
    put_segment(&mut bytes, 7, [4, 4, 0x370, 0x370, 0x370, 0x20, 0x20, 0x8]);
    put_segment(&mut bytes, 8, [4, 4, 0x390, 0x390, 0x390, 0x44, 0x44, 0x4]);
    put_segment(&mut bytes, 9, [7, 4, 0x590D8, 0x5A0D8, 0x5A0D8, 0x28, 0x50, 0x8]);
    put_segment(&mut bytes, 10, [0x6474E553, 4, 0x370, 0x370, 0x370, 0x20, 0x20, 0x8]);
    put_segment(&mut bytes, 11, [0x6474E550, 4, 0x4F870, 0x4F870, 0x4F870, 0x12B4, 0x12B4, 0x4]);
    put_segment(&mut bytes, 12, [0x6474E551, 6, 0x0, 0x0, 0x0, 0x0, 0x0, 0x10]);
    put_segment(&mut bytes, 13, [0x6474E552, 4, 0x590D8, 0x5A0D8, 0x5A0D8, 0x2F28, 0x2F28, 0x1]);

    put_section(&mut bytes, 1, [0x1B, 1, 0x2, 0x350, 0x350, 0x1C, 0, 0, 0x1, 0]);
    put_section(&mut bytes, 2, [0x23, 7, 0x2, 0x370, 0x370, 0x20, 0, 0, 0x8, 0]);
    put_section(&mut bytes, 3, [0x36, 7, 0x2, 0x390, 0x390, 0x24, 0, 0, 0x4, 0]);
    put_section(&mut bytes, 4, [0x49, 7, 0x2, 0x3B4, 0x3B4, 0x20, 0, 0, 0x4, 0]);
    bytes
}

#[test]
fn test_file_header() {
    let bytes = shared_object();
    let elf = Elf::from_bytes(&bytes).unwrap();

    // Test Ident Bytes
    let ident = &elf.file_header().ident;
    assert_eq!(ident.abi, ElfOsABI::Unspecified);
    assert_eq!(ident.class, ElfClass::Class64);
    assert_eq!(ident.endian, ElfEndian::Little);
    assert_eq!(ident.version, ElfVersion::Current);
    assert_eq!(ident.abi_version, 0);

    // Test Header Fields
    let header = elf.file_header();
    assert_eq!(header.ty, FileType::SharedObject);
    assert_eq!(header.machine, TargetMachine::X86_64);
    assert_eq!(header.entry_address, Some(0x87A0));
    assert_eq!(header.version, 0x1);
    assert_eq!(header.program_header_offset, 64);
    assert_eq!(header.section_header_offset, 4586344);
    assert_eq!(header.flags, 0x0);
    assert_eq!(header.file_header_size, 64);

    // Program header parameters in header
    assert_eq!(header.program_header_size, 56);
    assert_eq!(header.program_header_count, 14);

    // Section header parameters in header
    assert_eq!(header.section_header_size, 64);
    assert_eq!(header.section_header_count, 42);

    // Index of string table
    assert_eq!(header.string_table_index, 41);
}

#[test]
fn test_section_headers() {
    let bytes = shared_object();
    let elf = Elf::from_bytes(&bytes).unwrap();
    let section_headers = elf.section_headers().unwrap();

    // Check first section header
    let section_header = section_headers.get(0).unwrap();
    assert_eq!(section_header.ty, SectionType::Null);
    assert_eq!(section_header.addr, 0x0);
    assert_eq!(section_header.offset, 0x0);
    assert_eq!(section_header.flags, SectionFlags::empty());
    assert_eq!(section_header.link, 0);
    assert_eq!(section_header.info, 0);
    assert_eq!(section_header.addr_align, 0x0);

    // Check second section header
    let section_header = section_headers.get(1).unwrap();
    assert_eq!(section_header.ty, SectionType::ProgBits);
    assert_eq!(section_header.addr, 0x350);
    assert_eq!(section_header.offset, 0x350);
    assert_eq!(section_header.flags, SectionFlags::from_bits_retain(SectionFlags::ALLOC));
    assert_eq!(section_header.link, 0);
    assert_eq!(section_header.info, 0);
    assert_eq!(section_header.addr_align, 0x1);

    // Check third section header
    let section_header = section_headers.get(2).unwrap();
    assert_eq!(section_header.ty, SectionType::Note);
    assert_eq!(section_header.addr, 0x370);
    assert_eq!(section_header.offset, 0x370);
    assert_eq!(section_header.flags, SectionFlags::from_bits_retain(SectionFlags::ALLOC));
    assert_eq!(section_header.link, 0);
    assert_eq!(section_header.info, 0);
    assert_eq!(section_header.addr_align, 0x8);

    // Check fourth section header
    let section_header = section_headers.get(3).unwrap();
    assert_eq!(section_header.ty, SectionType::Note);
    assert_eq!(section_header.addr, 0x390);
    assert_eq!(section_header.offset, 0x390);
    assert_eq!(section_header.flags, SectionFlags::from_bits_retain(SectionFlags::ALLOC));
    assert_eq!(section_header.link, 0);
    assert_eq!(section_header.info, 0);
    assert_eq!(section_header.addr_align, 0x4);

    // Check fifth section header
    let section_header = section_headers.get(4).unwrap();
    assert_eq!(section_header.ty, SectionType::Note);
    assert_eq!(section_header.addr, 0x3B4);
    assert_eq!(section_header.offset, 0x3B4);
    assert_eq!(section_header.flags, SectionFlags::from_bits_retain(SectionFlags::ALLOC));
    assert_eq!(section_header.link, 0);
    assert_eq!(section_header.info, 0);
    assert_eq!(section_header.addr_align, 0x4);
}

#[test]
fn test_program_headers() {
    let readable = SegmentFlags::from_bits_retain(SegmentFlags::READABLE);
    let readable_executable =
        SegmentFlags::from_bits_retain(SegmentFlags::READABLE | SegmentFlags::EXECUTABLE);
    let readable_writable =
        SegmentFlags::from_bits_retain(SegmentFlags::READABLE | SegmentFlags::WRITABLE);

    let bytes = shared_object();
    let elf = Elf::from_bytes(&bytes).unwrap();
    let program_headers = elf.program_headers().unwrap();

    // Check first program header
    let program_header = program_headers.get(0).unwrap();
    assert_eq!(program_header.offset, 0x40);
    assert_eq!(program_header.ty, SegmentType::Phdr);
    assert_eq!(program_header.virtual_address, 0x40);
    assert_eq!(program_header.physical_address, 0x40);
    assert_eq!(program_header.file_size, 0x310);
    assert_eq!(program_header.memory_size, 0x310);
    assert_eq!(program_header.flags, readable);
    assert_eq!(program_header.alignment, 0x8);

    // Check second program header
    let program_header = program_headers.get(1).unwrap();
    assert_eq!(program_header.offset, 0x350);
    assert_eq!(program_header.ty, SegmentType::Interp);
    assert_eq!(program_header.virtual_address, 0x350);
    assert_eq!(program_header.physical_address, 0x350);
    assert_eq!(program_header.file_size, 0x1C);
    assert_eq!(program_header.memory_size, 0x1C);
    assert_eq!(program_header.flags, readable);
    assert_eq!(program_header.alignment, 0x1);

    // Check third program header
    let program_header = program_headers.get(2).unwrap();
    assert_eq!(program_header.offset, 0x0000);
    assert_eq!(program_header.ty, SegmentType::Load);
    assert_eq!(program_header.virtual_address, 0x0);
    assert_eq!(program_header.physical_address, 0x0);
    assert_eq!(program_header.file_size, 0x55C8);
    assert_eq!(program_header.memory_size, 0x55C8);
    assert_eq!(program_header.flags, readable);
    assert_eq!(program_header.alignment, 0x1000);

    // Check fourth program header
    let program_header = program_headers.get(3).unwrap();
    assert_eq!(program_header.offset, 0x6000);
    assert_eq!(program_header.ty, SegmentType::Load);
    assert_eq!(program_header.virtual_address, 0x6000);
    assert_eq!(program_header.physical_address, 0x6000);
    assert_eq!(program_header.file_size, 0x42231);
    assert_eq!(program_header.memory_size, 0x42231);
    assert_eq!(program_header.flags, readable_executable);
    assert_eq!(program_header.alignment, 0x1000);

    // Check fifth program header
    let program_header = program_headers.get(4).unwrap();
    assert_eq!(program_header.offset, 0x49000);
    assert_eq!(program_header.ty, SegmentType::Load);
    assert_eq!(program_header.virtual_address, 0x49000);
    assert_eq!(program_header.physical_address, 0x49000);
    assert_eq!(program_header.file_size, 0xFCBC);
    assert_eq!(program_header.memory_size, 0xFCBC);
    assert_eq!(program_header.flags, readable);
    assert_eq!(program_header.alignment, 0x1000);

    // Check sixth program header
    let program_header = program_headers.get(5).unwrap();
    assert_eq!(program_header.offset, 0x590D8);
    assert_eq!(program_header.ty, SegmentType::Load);
    assert_eq!(program_header.virtual_address, 0x5A0D8);
    assert_eq!(program_header.physical_address, 0x5A0D8);
    assert_eq!(program_header.file_size, 0x2F58);
    assert_eq!(program_header.memory_size, 0x3068);
    assert_eq!(program_header.flags, readable_writable);
    assert_eq!(program_header.alignment, 0x1000);

    // Check seventh program header
    let program_header = program_headers.get(6).unwrap();
    assert_eq!(program_header.offset, 0x5B6C8);
    assert_eq!(program_header.ty, SegmentType::Dynamic);
    assert_eq!(program_header.virtual_address, 0x5C6C8);
    assert_eq!(program_header.physical_address, 0x5C6C8);
    assert_eq!(program_header.file_size, 0x210);
    assert_eq!(program_header.memory_size, 0x210);
    assert_eq!(program_header.flags, readable_writable);
    assert_eq!(program_header.alignment, 0x8);

    // Check eighth program header
    let program_header = program_headers.get(7).unwrap();
    assert_eq!(program_header.offset, 0x370);
    assert_eq!(program_header.ty, SegmentType::Note);
    assert_eq!(program_header.virtual_address, 0x370);
    assert_eq!(program_header.physical_address, 0x370);
    assert_eq!(program_header.file_size, 0x20);
    assert_eq!(program_header.memory_size, 0x20);
    assert_eq!(program_header.flags, readable);
    assert_eq!(program_header.alignment, 0x8);

    // Check ninth program header
    let program_header = program_headers.get(8).unwrap();
    assert_eq!(program_header.offset, 0x390);
    assert_eq!(program_header.ty, SegmentType::Note);
    assert_eq!(program_header.virtual_address, 0x390);
    assert_eq!(program_header.physical_address, 0x390);
    assert_eq!(program_header.file_size, 0x44);
    assert_eq!(program_header.memory_size, 0x44);
    assert_eq!(program_header.flags, readable);
    assert_eq!(program_header.alignment, 0x4);

    // Check tenth program header
    let program_header = program_headers.get(9).unwrap();
    assert_eq!(program_header.offset, 0x590D8);
    assert_eq!(program_header.ty, SegmentType::TLS);
    assert_eq!(program_header.virtual_address, 0x5A0D8);
    assert_eq!(program_header.physical_address, 0x5A0D8);
    assert_eq!(program_header.file_size, 0x28);
    assert_eq!(program_header.memory_size, 0x50);
    assert_eq!(program_header.flags, readable);
    assert_eq!(program_header.alignment, 0x8);

    // Check eleventh program header
    let program_header = program_headers.get(10).unwrap();
    assert_eq!(program_header.offset, 0x370);
    assert_eq!(program_header.ty, SegmentType::GNUProperty);
    assert_eq!(program_header.virtual_address, 0x370);
    assert_eq!(program_header.physical_address, 0x370);
    assert_eq!(program_header.file_size, 0x20);
    assert_eq!(program_header.memory_size, 0x20);
    assert_eq!(program_header.flags, readable);
    assert_eq!(program_header.alignment, 0x8);

    // Check twelfth program header
    let program_header = program_headers.get(11).unwrap();
    assert_eq!(program_header.offset, 0x4F870);
    assert_eq!(program_header.ty, SegmentType::GNUEhFrame);
    assert_eq!(program_header.virtual_address, 0x4F870);
    assert_eq!(program_header.physical_address, 0x4F870);
    assert_eq!(program_header.file_size, 0x12B4);
    assert_eq!(program_header.memory_size, 0x12B4);
    assert_eq!(program_header.flags, readable);
    assert_eq!(program_header.alignment, 0x4);

    // Check thirteenth program header
    let program_header = program_headers.get(12).unwrap();
    assert_eq!(program_header.offset, 0x0);
    assert_eq!(program_header.ty, SegmentType::GNUStack);
    assert_eq!(program_header.virtual_address, 0x0);
    assert_eq!(program_header.physical_address, 0x0);
    assert_eq!(program_header.file_size, 0x0);
    assert_eq!(program_header.memory_size, 0x0);
    assert_eq!(program_header.flags, readable_writable);
    assert_eq!(program_header.alignment, 0x10);

    // Check fourteenth program header
    let program_header = program_headers.get(13).unwrap();
    assert_eq!(program_header.offset, 0x590D8);
    assert_eq!(program_header.ty, SegmentType::GNURelro);
    assert_eq!(program_header.virtual_address, 0x5A0D8);
    assert_eq!(program_header.physical_address, 0x5A0D8);
    assert_eq!(program_header.file_size, 0x2F28);
    assert_eq!(program_header.memory_size, 0x2F28);
    assert_eq!(program_header.flags, readable);
    assert_eq!(program_header.alignment, 0x1);
}

#[test]
fn shared_object_has_all_its_entries() {
    let bytes = shared_object();
    let elf = Elf::from_bytes(&bytes).unwrap();
    assert_eq!(elf.program_headers().unwrap().len(), 14);
    assert_eq!(elf.section_headers().unwrap().len(), 42);
    let first = elf.section_headers().unwrap()[0];
    assert_eq!(first.ty, SectionType::Null);
    assert_eq!(first.offset, 0);
    assert_eq!(first.addr, 0);
    assert_eq!(first.addr_align, 0);
    assert!(first.flags.is_empty());
    assert_eq!(elf.bytes().len(), bytes.len());
}

#[test]
fn decoding_twice_gives_the_same() {
    let bytes = shared_object();
    let first = Elf::from_bytes(&bytes).unwrap();
    let second = Elf::from_bytes(&bytes).unwrap();
    assert_eq!(first.file_header(), second.file_header());
    assert_eq!(first.program_headers(), second.program_headers());
    assert_eq!(first.section_headers(), second.section_headers());
    assert_eq!(first.bytes(), second.bytes());

    let broken = vec![0x7F, 0x45, 0x4C, 0x46, 9, 1, 1, 0, 0];
    assert_eq!(Elf::from_bytes(&broken).err(), Some(Error::InvalidClass));
    assert_eq!(Elf::from_bytes(&broken).err(), Some(Error::InvalidClass));
}

#[test]
fn entries_are_read_where_the_header_puts_them() {
    let bytes = shared_object();
    let elf = Elf::from_bytes(&bytes).unwrap();
    let ident = elf.file_header().ident;
    let segments = elf.program_headers().unwrap();
    for index in 0..14 {
        let alone = ProgramHeader::read(&ident, &bytes, 64 + index * 56).unwrap();
        assert_eq!(segments[index], alone);
        let window = &bytes[64 + index * 56..64 + (index + 1) * 56];
        assert_eq!(ProgramHeader::read(&ident, window, 0).unwrap(), alone);
    }
    let sections = elf.section_headers().unwrap();
    for index in 0..42 {
        let alone = SectionHeader::read(&ident, &bytes, 4586344 + index * 64).unwrap();
        assert_eq!(sections[index], alone);
        let window = &bytes[4586344 + index * 64..4586344 + (index + 1) * 64];
        assert_eq!(SectionHeader::read(&ident, window, 0).unwrap(), alone);
    }
}
