//! Decoder for the headers of ELF object files: the identification bytes,
//! the file header, and the program and section header tables, for both
//! address widths and both byte orders.

use vstd::prelude::*;
use vstd::slice::slice_subrange;

use crate::header::ident::ElfIdent;
use crate::header::{FileHeader, ProgramHeader, SectionHeader};

pub mod endian;
pub mod header;

verus! {

/// Everything that can stop a decode. The first failure ends the whole
/// decode; nothing partial is ever handed out.
#[derive(Clone, Copy, PartialEq, Eq, Debug, Structural)]
pub enum Error {
    /// The four signature bytes occur nowhere in the buffer.
    InvalidMagic,
    /// A read needed more bytes than the buffer still holds at that point;
    /// the number is how many bytes were left there.
    NotEnoughBytes(usize),
    /// The class is neither 32-bit nor 64-bit.
    InvalidClass,
    /// The byte order is neither little-endian nor big-endian.
    InvalidEndian,
}

/// Whether the four signature bytes `0x7F 'E' 'L' 'F'` stand at `at`.
pub open spec fn is_magic_at(bytes: Seq<u8>, at: int) -> bool {
    &&& 0 <= at
    &&& at + 4 <= bytes.len()
    &&& bytes[at] == 0x7F
    &&& bytes[at + 1] == 0x45
    &&& bytes[at + 2] == 0x4C
    &&& bytes[at + 3] == 0x46
}

/// Whether the signature stands at `at` and nowhere before.
pub open spec fn is_first_magic(bytes: Seq<u8>, at: int) -> bool {
    &&& is_magic_at(bytes, at)
    &&& forall|before: int| 0 <= before < at ==> !is_magic_at(bytes, before)
}

/// Where the signature first stands in `bytes`, if it stands anywhere.
pub open spec fn first_magic(bytes: Seq<u8>) -> Option<int> {
    if exists|at: int| is_first_magic(bytes, at) {
        Some(choose|at: int| is_first_magic(bytes, at))
    } else {
        None
    }
}

/// Where entry `index` of a table starts: the table lies `table` bytes
/// behind the signature, and each of its entries takes `size` bytes.
pub open spec fn entry_start(magic: int, table: u64, size: u16, index: int) -> int {
    magic + table + index * size
}

/// Whether entry `index` is the first of the `count` entries that cannot
/// be decoded.
pub open spec fn fails_first<T>(
    entry: spec_fn(int) -> Result<T, Error>,
    count: int,
    index: int,
) -> bool {
    &&& 0 <= index < count
    &&& entry(index) is Err
    &&& forall|before: int| 0 <= before < index ==> (#[trigger] entry(before)) is Ok
}

/// The outcome of decoding a table of `count` entries, entry `index` of
/// which decodes to `entry(index)`: no table where there are no entries,
/// all entries in their order where each can be decoded, and else the
/// failure of the first entry that cannot.
pub open spec fn table<T>(count: int, entry: spec_fn(int) -> Result<T, Error>) -> Result<
    Option<Seq<T>>,
    Error,
> {
    if count <= 0 {
        Ok(None)
    } else if exists|index: int| fails_first(entry, count, index) {
        Err(entry(choose|index: int| fails_first(entry, count, index))->Err_0)
    } else {
        Ok(Some(Seq::new(count as nat, |index: int| entry(index)->Ok_0)))
    }
}

/// What a table of entries is in contracts: its entries as a sequence.
pub open spec fn table_view<T>(read: Result<Option<Vec<T>>, Error>) -> Result<
    Option<Seq<T>>,
    Error,
> {
    match read {
        Ok(Some(entries)) => Ok(Some(entries@)),
        Ok(None) => Ok(None),
        Err(error) => Err(error),
    }
}

/// What a decoded image holds.
pub struct ElfView {
    /// The file header.
    pub header: FileHeader,
    /// The entries of the program header table, where the file has one.
    pub program_headers: Option<Seq<ProgramHeader>>,
    /// The entries of the section header table, where the file has one.
    pub section_headers: Option<Seq<SectionHeader>>,
    /// The bytes of the buffer from the signature on.
    pub bytes: Seq<u8>,
}

/// The headers of one ELF file, decoded from a buffer that the image
/// borrows.
pub struct Elf<'a> {
    header: FileHeader,
    program_headers: Option<Vec<ProgramHeader>>,
    section_headers: Option<Vec<SectionHeader>>,
    bytes: &'a [u8],
}

/// Where entry `index` of a table starts, or `None` where that position is
/// beyond every buffer.
fn entry_position(magic: usize, table: u64, size: u16, index: u16) -> (position: Option<usize>)
    ensures
        match position {
            Some(at) => at == entry_start(magic as int, table, size, index as int),
            None => entry_start(magic as int, table, size, index as int) > usize::MAX,
        },
{
    assert(index * size <= 0xFFFF * 0xFFFF) by (nonlinear_arith)
        requires
            index <= 0xFFFF,
            size <= 0xFFFF,
    ;
    let within: u128 = (index as u128) * (size as u128);
    let at: u128 = magic as u128 + table as u128 + within;
    if at > usize::MAX as u128 {
        None
    } else {
        Some(at as usize)
    }
}

impl<'a> Elf<'a> {
    /// What this image holds.
    pub closed spec fn view(&self) -> ElfView {
        ElfView {
            header: self.header,
            program_headers: match self.program_headers {
                Some(entries) => Some(entries@),
                None => None,
            },
            section_headers: match self.section_headers {
                Some(entries) => Some(entries@),
                None => None,
            },
            bytes: self.bytes@,
        }
    }

    /// What holds of every image: it holds what its bytes decode to.
    #[verifier::type_invariant]
    pub open spec fn well_formed(&self) -> bool {
        Self::decoded(self@.bytes) == Ok::<ElfView, Error>(self@)
    }

    /// The outcome of decoding entry `index` of the program header table.
    pub open spec fn program_entry(header: FileHeader, bytes: Seq<u8>, magic: int, index: int)
        -> Result<ProgramHeader, Error> {
        ProgramHeader::decoded(
            header.ident,
            bytes,
            entry_start(magic, header.program_header_offset, header.program_header_size, index),
        )
    }

    /// The outcome of decoding entry `index` of the section header table.
    pub open spec fn section_entry(header: FileHeader, bytes: Seq<u8>, magic: int, index: int)
        -> Result<SectionHeader, Error> {
        SectionHeader::decoded(
            header.ident,
            bytes,
            entry_start(magic, header.section_header_offset, header.section_header_size, index),
        )
    }

    /// The outcome of decoding the program header table.
    pub open spec fn program_table(header: FileHeader, bytes: Seq<u8>, magic: int) -> Result<
        Option<Seq<ProgramHeader>>,
        Error,
    > {
        table(
            header.program_header_count as int,
            |index: int| Self::program_entry(header, bytes, magic, index),
        )
    }

    /// The outcome of decoding the section header table.
    pub open spec fn section_table(header: FileHeader, bytes: Seq<u8>, magic: int) -> Result<
        Option<Seq<SectionHeader>>,
        Error,
    > {
        table(
            header.section_header_count as int,
            |index: int| Self::section_entry(header, bytes, magic, index),
        )
    }

    /// The outcome of decoding the image whose signature stands at
    /// `magic`: the file header right behind the signature, then the
    /// program header table, then the section header table.
    pub open spec fn decoded_at(bytes: Seq<u8>, magic: int) -> Result<ElfView, Error> {
        let base = magic + 4;
        if bytes.len() - base < 5 {
            Err(Error::NotEnoughBytes((bytes.len() - base) as usize))
        } else {
            match FileHeader::decoded(bytes, base) {
                Err(error) => Err(error),
                Ok(header) => match Self::program_table(header, bytes, magic) {
                    Err(error) => Err(error),
                    Ok(program_headers) => match Self::section_table(header, bytes, magic) {
                        Err(error) => Err(error),
                        Ok(section_headers) => Ok(
                            ElfView {
                                header,
                                program_headers,
                                section_headers,
                                bytes: bytes.subrange(magic, bytes.len() as int),
                            },
                        ),
                    },
                },
            }
        }
    }

    /// The outcome of decoding `bytes`.
    pub open spec fn decoded(bytes: Seq<u8>) -> Result<ElfView, Error> {
        match first_magic(bytes) {
            None => Err(Error::InvalidMagic),
            Some(magic) => Self::decoded_at(bytes, magic),
        }
    }

    /// What the outcome of a decode is in contracts.
    pub open spec fn outcome(parsed: Result<Elf<'a>, Error>) -> Result<ElfView, Error> {
        match parsed {
            Ok(elf) => Ok(elf@),
            Err(error) => Err(error),
        }
    }

    /// Finds the signature `0x7F 'E' 'L' 'F'`: the position where it first
    /// stands, or `None` where it stands nowhere. A buffer of fewer than
    /// four bytes holds no signature.
    pub fn elf_index(bytes: &[u8]) -> (index: Option<usize>)
        ensures
            match index {
                Some(at) => is_first_magic(bytes@, at as int),
                None => forall|at: int| !is_magic_at(bytes@, at),
            },
            index matches Some(at) ==> first_magic(bytes@) == Some(at as int),
            index is None ==> first_magic(bytes@) is None,
            bytes@.len() < 4 ==> index is None,
    {
        let len = bytes.len();
        if len < 4 {
            return None;
        }
        let last = len - 4;
        let mut at: usize = 0;
        while at <= last
            invariant
                len == bytes@.len(),
                last == len - 4,
                at <= last + 1,
                forall|before: int| 0 <= before < at ==> !is_magic_at(bytes@, before),
            decreases last + 1 - at,
        {
            if bytes[at] == 0x7F && bytes[at + 1] == 0x45 && bytes[at + 2] == 0x4C && bytes[at + 3]
                == 0x46 {
                assert(is_first_magic(bytes@, at as int));
                return Some(at);
            }
            at = at + 1;
        }
        None
    }

    /// Decodes the program header table of `header`: no table where the
    /// header counts no entries, and else the entries in their order.
    /// `magic` is where the signature stands.
    pub fn read_program_headers(header: &FileHeader, bytes: &[u8], magic: usize) -> (read: Result<
        Option<Vec<ProgramHeader>>,
        Error,
    >)
        ensures
            table_view(read) == Self::program_table(*header, bytes@, magic as int),
    {
        let count = header.program_header_count;
        if count == 0 {
            return Ok(None);
        }
        let ghost entry = |index: int| Self::program_entry(*header, bytes@, magic as int, index);
        let mut entries: Vec<ProgramHeader> = Vec::new();
        let mut index: u16 = 0;
        while index < count
            invariant
                index <= count == header.program_header_count,
                entries@.len() == index,
                entry == |index: int| Self::program_entry(*header, bytes@, magic as int, index),
                forall|before: int|
                    0 <= before < index ==> (#[trigger] entry(before)) == Ok::<
                        ProgramHeader,
                        Error,
                    >(entries@[before]),
            decreases count - index,
        {
            match Self::read_program_entry(header, bytes, magic, index) {
                Ok(one) => {
                    entries.push(one);
                },
                Err(error) => {
                    assert(fails_first(entry, count as int, index as int));
                    return Err(error);
                },
            }
            index = index + 1;
        }
        assert(entries@ =~= Seq::new(count as nat, |index: int| entry(index)->Ok_0));
        Ok(Some(entries))
    }

    /// Decodes entry `index` of the program header table of `header`.
    fn read_program_entry(header: &FileHeader, bytes: &[u8], magic: usize, index: u16) -> (read:
        Result<ProgramHeader, Error>)
        ensures
            read == Self::program_entry(*header, bytes@, magic as int, index as int),
    {
        let position = entry_position(
            magic,
            header.program_header_offset,
            header.program_header_size,
            index,
        );
        match position {
            Some(at) => ProgramHeader::read(&header.ident, bytes, at),
            None => {
                // beyond every buffer is beyond this one
                assert(bytes.len() <= usize::MAX);
                Err(Error::NotEnoughBytes(0))
            },
        }
    }

    /// Decodes the section header table of `header`: no table where the
    /// header counts no entries, and else the entries in their order.
    /// `magic` is where the signature stands.
    pub fn read_section_headers(header: &FileHeader, bytes: &[u8], magic: usize) -> (read: Result<
        Option<Vec<SectionHeader>>,
        Error,
    >)
        ensures
            table_view(read) == Self::section_table(*header, bytes@, magic as int),
    {
        let count = header.section_header_count;
        if count == 0 {
            return Ok(None);
        }
        let ghost entry = |index: int| Self::section_entry(*header, bytes@, magic as int, index);
        let mut entries: Vec<SectionHeader> = Vec::new();
        let mut index: u16 = 0;
        while index < count
            invariant
                index <= count == header.section_header_count,
                entries@.len() == index,
                entry == |index: int| Self::section_entry(*header, bytes@, magic as int, index),
                forall|before: int|
                    0 <= before < index ==> (#[trigger] entry(before)) == Ok::<
                        SectionHeader,
                        Error,
                    >(entries@[before]),
            decreases count - index,
        {
            match Self::read_section_entry(header, bytes, magic, index) {
                Ok(one) => {
                    entries.push(one);
                },
                Err(error) => {
                    assert(fails_first(entry, count as int, index as int));
                    return Err(error);
                },
            }
            index = index + 1;
        }
        assert(entries@ =~= Seq::new(count as nat, |index: int| entry(index)->Ok_0));
        Ok(Some(entries))
    }

    /// Decodes entry `index` of the section header table of `header`.
    fn read_section_entry(header: &FileHeader, bytes: &[u8], magic: usize, index: u16) -> (read:
        Result<SectionHeader, Error>)
        ensures
            read == Self::section_entry(*header, bytes@, magic as int, index as int),
    {
        let position = entry_position(
            magic,
            header.section_header_offset,
            header.section_header_size,
            index,
        );
        match position {
            Some(at) => SectionHeader::read(&header.ident, bytes, at),
            None => {
                // beyond every buffer is beyond this one
                assert(bytes.len() <= usize::MAX);
                Err(Error::NotEnoughBytes(0))
            },
        }
    }

    /// Decodes the headers of the ELF file in `bytes`. The signature may
    /// stand anywhere in the buffer; the file starts where it first
    /// stands, and the offsets of the two tables count from there.
    ///
    /// The decode fails with `InvalidMagic` where the signature stands
    /// nowhere, with `NotEnoughBytes` where fewer than the five
    /// identification bytes follow the signature or a later read runs out
    /// of the buffer, and with `InvalidClass` or `InvalidEndian` where the
    /// identification names no class or no byte order.
    pub fn from_bytes(bytes: &'a [u8]) -> (parsed: Result<Elf<'a>, Error>)
        ensures
            Self::outcome(parsed) == Self::decoded(bytes@),
            parsed matches Err(Error::InvalidMagic) <==> forall|at: int| !is_magic_at(bytes@, at),
            parsed matches Ok(elf) ==> elf.well_formed() && elf@.bytes == bytes@.subrange(
                first_magic(bytes@)->Some_0,
                bytes@.len() as int,
            ),
    {
        proof {
            Self::lemma_invalid_magic(bytes@);
            if first_magic(bytes@) is Some {
                Self::lemma_decoded_from_signature(bytes@);
            }
        }
        let magic = match Self::elf_index(bytes) {
            Some(at) => at,
            None => {
                return Err(Error::InvalidMagic);
            },
        };
        let len = bytes.len();
        let base = magic + 4;
        if len - base < ElfIdent::SIZE {
            return Err(Error::NotEnoughBytes(len - base));
        }
        let header = FileHeader::read(bytes, base)?;
        let program_headers = Self::read_program_headers(&header, bytes, magic)?;
        let section_headers = Self::read_section_headers(&header, bytes, magic)?;
        Ok(
            Elf {
                header,
                program_headers,
                section_headers,
                bytes: slice_subrange(bytes, magic, len),
            },
        )
    }

    /// The file header.
    pub fn file_header(&self) -> (header: &FileHeader)
        ensures
            *header == self@.header,
            self.well_formed(),
    {
        proof {
            use_type_invariant(self);
        }
        &self.header
    }

    /// The entries of the program header table, where the file has one.
    pub fn program_headers(&self) -> (entries: Option<&Vec<ProgramHeader>>)
        ensures
            match entries {
                Some(entries) => self@.program_headers == Some(entries@),
                None => self@.program_headers is None,
            },
            self.well_formed(),
    {
        proof {
            use_type_invariant(self);
        }
        self.program_headers.as_ref()
    }

    /// The entries of the section header table, where the file has one.
    pub fn section_headers(&self) -> (entries: Option<&Vec<SectionHeader>>)
        ensures
            match entries {
                Some(entries) => self@.section_headers == Some(entries@),
                None => self@.section_headers is None,
            },
            self.well_formed(),
    {
        proof {
            use_type_invariant(self);
        }
        self.section_headers.as_ref()
    }

    /// The bytes of the file, from the signature to the end of the buffer
    /// that the image was decoded from.
    pub fn bytes(&self) -> (bytes: &'a [u8])
        ensures
            bytes@ == self@.bytes,
            self.well_formed(),
    {
        proof {
            use_type_invariant(self);
        }
        self.bytes
    }

    /// Decoding is a function of the buffer: two decodes of the same bytes
    /// end alike, with the same failure or with images that hold the same,
    /// field for field.
    pub proof fn lemma_decode_deterministic(
        bytes: Seq<u8>,
        first: Result<ElfView, Error>,
        second: Result<ElfView, Error>,
    )
        requires
            first == Self::decoded(bytes),
            second == Self::decoded(bytes),
        ensures
            first == second,
    {
    }

    /// A buffer without the signature cannot be decoded, and `InvalidMagic`
    /// says so of no other buffer.
    pub proof fn lemma_invalid_magic(bytes: Seq<u8>)
        ensures
            Self::decoded(bytes) == Err::<ElfView, Error>(Error::InvalidMagic) <==> forall|at: int|
                !is_magic_at(bytes, at),
    {
        if exists|at: int| is_magic_at(bytes, at) {
            let some = choose|at: int| is_magic_at(bytes, at);
            let first = lemma_first_magic_exists(bytes, some);
            let magic = first_magic(bytes)->Some_0;
            let header = FileHeader::decoded(bytes, magic + 4);
            if header is Ok {
                lemma_table_failure(
                    header->Ok_0.program_header_count as int,
                    |index: int| Self::program_entry(header->Ok_0, bytes, magic, index),
                );
                lemma_table_failure(
                    header->Ok_0.section_header_count as int,
                    |index: int| Self::section_entry(header->Ok_0, bytes, magic, index),
                );
            }
        }
    }

    /// Where the program header table can be decoded, it holds as many
    /// entries as the header counts, and entry `index` is what stands at
    /// `magic + program_header_offset + index × program_header_size`, all
    /// of it within the buffer.
    pub proof fn lemma_program_table_entries(
        header: FileHeader,
        bytes: Seq<u8>,
        magic: int,
        index: int,
    )
        requires
            Self::program_table(header, bytes, magic) matches Ok(Some(_)),
            0 <= index < header.program_header_count,
        ensures
            ({
                let entries = Self::program_table(header, bytes, magic)->Ok_0->Some_0;
                let start = entry_start(
                    magic,
                    header.program_header_offset,
                    header.program_header_size,
                    index,
                );
                &&& entries.len() == header.program_header_count
                &&& entries[index] == ProgramHeader::entry_at(header.ident, bytes, start)
                &&& start + ProgramHeader::entry_size(header.ident.class) <= bytes.len()
            }),
    {
        let entry = |index: int| Self::program_entry(header, bytes, magic, index);
        lemma_all_entries_decode(entry, header.program_header_count as int, index);
        ProgramHeader::lemma_decodes_where_it_fits(
            header.ident,
            bytes.len() as int,
            entry_start(magic, header.program_header_offset, header.program_header_size, index),
        );
    }

    /// Where the section header table can be decoded, it holds as many
    /// entries as the header counts, and entry `index` is what stands at
    /// `magic + section_header_offset + index × section_header_size`, all
    /// of it within the buffer.
    pub proof fn lemma_section_table_entries(
        header: FileHeader,
        bytes: Seq<u8>,
        magic: int,
        index: int,
    )
        requires
            Self::section_table(header, bytes, magic) matches Ok(Some(_)),
            0 <= index < header.section_header_count,
        ensures
            ({
                let entries = Self::section_table(header, bytes, magic)->Ok_0->Some_0;
                let start = entry_start(
                    magic,
                    header.section_header_offset,
                    header.section_header_size,
                    index,
                );
                &&& entries.len() == header.section_header_count
                &&& entries[index] == SectionHeader::entry_at(header.ident, bytes, start)
                &&& start + SectionHeader::entry_size(header.ident.class) <= bytes.len()
            }),
    {
        let entry = |index: int| Self::section_entry(header, bytes, magic, index);
        lemma_all_entries_decode(entry, header.section_header_count as int, index);
        SectionHeader::lemma_decodes_where_it_fits(
            header.ident,
            bytes.len() as int,
            entry_start(magic, header.section_header_offset, header.section_header_size, index),
        );
    }

    /// What stands before a table does not matter: decoded from the tail of
    /// the buffer that starts at the signature, with the signature at
    /// zero, the program header table is the same.
    pub proof fn lemma_program_table_in_tail(header: FileHeader, bytes: Seq<u8>, magic: int)
        requires
            0 <= magic <= bytes.len(),
        ensures
            Self::program_table(header, bytes.subrange(magic, bytes.len() as int), 0)
                == Self::program_table(header, bytes, magic),
    {
        let tail = bytes.subrange(magic, bytes.len() as int);
        let size = header.program_header_size;
        assert forall|index: int| 0 <= index implies Self::program_entry(header, tail, 0, index)
            == Self::program_entry(header, bytes, magic, index) by {
            assert(0 <= index * size) by (nonlinear_arith)
                requires
                    0 <= index,
                    0 <= size,
            ;
            ProgramHeader::lemma_decoded_in_tail(
                header.ident,
                bytes,
                magic,
                entry_start(magic, header.program_header_offset, size, index),
            );
        }
        lemma_table_agrees(
            header.program_header_count as int,
            |index: int| Self::program_entry(header, tail, 0, index),
            |index: int| Self::program_entry(header, bytes, magic, index),
        );
    }

    /// What stands before a table does not matter: decoded from the tail of
    /// the buffer that starts at the signature, with the signature at
    /// zero, the section header table is the same.
    pub proof fn lemma_section_table_in_tail(header: FileHeader, bytes: Seq<u8>, magic: int)
        requires
            0 <= magic <= bytes.len(),
        ensures
            Self::section_table(header, bytes.subrange(magic, bytes.len() as int), 0)
                == Self::section_table(header, bytes, magic),
    {
        let tail = bytes.subrange(magic, bytes.len() as int);
        let size = header.section_header_size;
        assert forall|index: int| 0 <= index implies Self::section_entry(header, tail, 0, index)
            == Self::section_entry(header, bytes, magic, index) by {
            assert(0 <= index * size) by (nonlinear_arith)
                requires
                    0 <= index,
                    0 <= size,
            ;
            SectionHeader::lemma_decoded_in_tail(
                header.ident,
                bytes,
                magic,
                entry_start(magic, header.section_header_offset, size, index),
            );
        }
        lemma_table_agrees(
            header.section_header_count as int,
            |index: int| Self::section_entry(header, tail, 0, index),
            |index: int| Self::section_entry(header, bytes, magic, index),
        );
    }

    /// What stands before the signature does not matter: the bytes from
    /// the signature on decode, alone, to what the whole buffer decodes
    /// to.
    pub proof fn lemma_decoded_from_signature(bytes: Seq<u8>)
        requires
            first_magic(bytes) is Some,
        ensures
            Self::decoded(bytes.subrange(first_magic(bytes)->Some_0, bytes.len() as int))
                == Self::decoded(bytes),
    {
        let magic = first_magic(bytes)->Some_0;
        let tail = bytes.subrange(magic, bytes.len() as int);
        lemma_signature_leads_tail(bytes);
        assert(tail.subrange(0, tail.len() as int) =~= tail);
        FileHeader::lemma_decoded_in_tail(bytes, magic, magic + 4);
        let header = FileHeader::decoded(bytes, magic + 4);
        if header is Ok {
            Self::lemma_program_table_in_tail(header->Ok_0, bytes, magic);
            Self::lemma_section_table_in_tail(header->Ok_0, bytes, magic);
        }
    }
}

/// The bytes from the signature on start with the signature.
pub proof fn lemma_signature_leads_tail(bytes: Seq<u8>)
    requires
        first_magic(bytes) is Some,
    ensures
        0 <= first_magic(bytes)->Some_0 <= bytes.len() - 4,
        is_first_magic(bytes, first_magic(bytes)->Some_0),
        first_magic(bytes.subrange(first_magic(bytes)->Some_0, bytes.len() as int)) == Some(0int),
{
    let magic = first_magic(bytes)->Some_0;
    let tail = bytes.subrange(magic, bytes.len() as int);
    assert(is_first_magic(bytes, magic));
    assert(is_magic_at(tail, 0)) by {
        assert(tail[0] == bytes[magic]);
        assert(tail[1] == bytes[magic + 1]);
        assert(tail[2] == bytes[magic + 2]);
        assert(tail[3] == bytes[magic + 3]);
    }
    let first = lemma_first_magic_exists(tail, 0);
}

/// Two tables whose entries decode alike, one by one, decode alike.
pub proof fn lemma_table_agrees<T>(
    count: int,
    one: spec_fn(int) -> Result<T, Error>,
    other: spec_fn(int) -> Result<T, Error>,
)
    requires
        forall|index: int| 0 <= index < count ==> #[trigger] one(index) == other(index),
    ensures
        table(count, one) == table(count, other),
{
    assert forall|index: int| fails_first(one, count, index) == fails_first(
        other,
        count,
        index,
    ) by {
        if 0 <= index < count {
            assert(one(index) == other(index));
            if fails_first(one, count, index) {
                assert forall|before: int| 0 <= before < index implies (#[trigger] other(
                    before,
                )) is Ok by {
                    assert(one(before) == other(before));
                }
            }
            if fails_first(other, count, index) {
                assert forall|before: int| 0 <= before < index implies (#[trigger] one(
                    before,
                )) is Ok by {
                    assert(one(before) == other(before));
                }
            }
        }
    }
    if count > 0 {
        if exists|index: int| fails_first(one, count, index) {
            let first = choose|index: int| fails_first(one, count, index);
            let second = choose|index: int| fails_first(other, count, index);
            assert(fails_first(other, count, first));
            assert(fails_first(other, count, second));
            assert(first == second) by {
                if first < second {
                    assert(other(first) is Ok);
                }
                if second < first {
                    assert(other(second) is Ok);
                }
            }
            assert(one(first) == other(first));
        } else {
            assert(Seq::new(count as nat, |index: int| one(index)->Ok_0) =~= Seq::new(
                count as nat,
                |index: int| other(index)->Ok_0,
            )) by {
                assert forall|index: int| 0 <= index < count implies (#[trigger] one(
                    index,
                ))->Ok_0 == other(index)->Ok_0 by {
                    assert(one(index) == other(index));
                }
            }
        }
    }
}

/// The entries of a table stand one every `size` bytes. So where `size` is
/// the number of bytes that an entry takes in the file, each entry starts
/// where the one before it ends: no byte lies between two entries, and no
/// byte belongs to two.
pub proof fn lemma_entries_adjoin(magic: int, table: u64, size: u16, index: int)
    ensures
        entry_start(magic, table, size, index + 1) == entry_start(magic, table, size, index)
            + size,
{
    assert((index + 1) * size == index * size + size) by (nonlinear_arith);
}

/// Where the signature stands somewhere, it stands somewhere first, at or
/// before that place.
pub proof fn lemma_first_magic_exists(bytes: Seq<u8>, at: int) -> (first: int)
    requires
        is_magic_at(bytes, at),
    ensures
        first <= at,
        is_first_magic(bytes, first),
        first_magic(bytes) == Some(first),
    decreases at,
{
    if exists|before: int| 0 <= before < at && is_magic_at(bytes, before) {
        let before = choose|before: int| 0 <= before < at && is_magic_at(bytes, before);
        lemma_first_magic_exists(bytes, before)
    } else {
        assert(is_first_magic(bytes, at));
        at
    }
}

/// A table fails only as one of its entries fails.
pub proof fn lemma_table_failure<T>(count: int, entry: spec_fn(int) -> Result<T, Error>)
    ensures
        table(count, entry) matches Err(error) ==> exists|index: int|
            0 <= index < count && #[trigger] entry(index) == Err::<T, Error>(error),
{
    if table(count, entry) is Err {
        let index = choose|index: int| fails_first(entry, count, index);
        assert(entry(index) is Err);
    }
}

/// In a table that can be decoded, every entry can.
pub proof fn lemma_all_entries_decode<T>(
    entry: spec_fn(int) -> Result<T, Error>,
    count: int,
    index: int,
)
    requires
        table(count, entry) is Ok,
        0 <= index < count,
    ensures
        entry(index) is Ok,
        table(count, entry)->Ok_0 matches Some(entries) && entries.len() == count
            && entries[index] == entry(index)->Ok_0,
    decreases index,
{
    assert forall|before: int| 0 <= before < index implies (#[trigger] entry(before)) is Ok by {
        lemma_all_entries_decode(entry, count, before);
    }
    if entry(index) is Err {
        assert(fails_first(entry, count, index));
    }
}

} // verus!
