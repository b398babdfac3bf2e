//! The identification bytes that follow the signature.

use vstd::prelude::*;

use crate::endian::{bytes_left, read_failure};
use crate::Error;

verus! {

/// Width of every address, offset and size field of the file.
#[derive(Clone, Copy, Ord, PartialOrd, Eq, PartialEq, Debug, Hash, Structural)]
pub enum ElfClass {
    /// No class, or a class byte that names none.
    Invalid,
    /// Addresses take four bytes.
    Class32,
    /// Addresses take eight bytes.
    Class64,
}

impl ElfClass {
    /// The class that an identification byte stands for: 1 and 2 are the
    /// two classes, every other byte is `Invalid`.
    pub open spec fn spec_from_byte(byte: u8) -> ElfClass {
        if byte == 1 {
            ElfClass::Class32
        } else if byte == 2 {
            ElfClass::Class64
        } else {
            ElfClass::Invalid
        }
    }

    /// The class that an identification byte stands for.
    pub fn from_byte(byte: u8) -> (class: ElfClass)
        ensures
            class == Self::spec_from_byte(byte),
    {
        match byte {
            1 => ElfClass::Class32,
            2 => ElfClass::Class64,
            _ => ElfClass::Invalid,
        }
    }

    /// How many bytes an address, offset or size takes in a file of this
    /// class; `Invalid` has no such width and stands here with zero.
    pub open spec fn address_width(self) -> int {
        match self {
            ElfClass::Class32 => 4,
            ElfClass::Class64 => 8,
            ElfClass::Invalid => 0,
        }
    }
}

impl Default for ElfClass {
    fn default() -> (class: ElfClass)
        ensures
            class == ElfClass::Invalid,
    {
        ElfClass::Invalid
    }
}

/// Byte order of every number of the file that takes more than one byte.
#[derive(Clone, Copy, Ord, PartialOrd, Eq, PartialEq, Debug, Hash, Structural)]
pub enum ElfEndian {
    /// No byte order, or an order byte that names none.
    Invalid,
    /// Least significant byte first.
    Little,
    /// Most significant byte first.
    Big,
}

impl ElfEndian {
    /// The byte order that an identification byte stands for: 1 is little
    /// endian, 2 is big endian, every other byte is `Invalid`.
    pub open spec fn spec_from_byte(byte: u8) -> ElfEndian {
        if byte == 1 {
            ElfEndian::Little
        } else if byte == 2 {
            ElfEndian::Big
        } else {
            ElfEndian::Invalid
        }
    }

    /// The byte order that an identification byte stands for.
    pub fn from_byte(byte: u8) -> (endian: ElfEndian)
        ensures
            endian == Self::spec_from_byte(byte),
    {
        match byte {
            1 => ElfEndian::Little,
            2 => ElfEndian::Big,
            _ => ElfEndian::Invalid,
        }
    }
}

impl Default for ElfEndian {
    fn default() -> (endian: ElfEndian)
        ensures
            endian == ElfEndian::Invalid,
    {
        ElfEndian::Invalid
    }
}

/// Version of the format that the file claims.
#[derive(Clone, Copy, Ord, PartialOrd, Eq, PartialEq, Debug, Hash, Structural)]
pub enum ElfVersion {
    /// No version, or a version byte that names none.
    Invalid,
    /// The one version there is.
    Current,
}

impl ElfVersion {
    /// The version that an identification byte stands for: 1 is the
    /// current version, every other byte is `Invalid`.
    pub open spec fn spec_from_byte(byte: u8) -> ElfVersion {
        if byte == 1 {
            ElfVersion::Current
        } else {
            ElfVersion::Invalid
        }
    }

    /// The version that an identification byte stands for.
    pub fn from_byte(byte: u8) -> (version: ElfVersion)
        ensures
            version == Self::spec_from_byte(byte),
    {
        match byte {
            1 => ElfVersion::Current,
            _ => ElfVersion::Invalid,
        }
    }
}

impl Default for ElfVersion {
    fn default() -> (version: ElfVersion)
        ensures
            version == ElfVersion::Current,
    {
        ElfVersion::Current
    }
}

/// Operating system or ABI whose extensions the file uses.
#[allow(non_camel_case_types)]
#[derive(Clone, Copy, Ord, PartialOrd, Eq, PartialEq, Debug, Hash, Structural)]
pub enum ElfOsABI {
    /// No extensions, or none that is known here.
    Unspecified,
    /// Hewlett-Packard HP-UX
    HP_UX,
    /// NetBSD
    NetBSD,
    /// GNU/Linux
    GNU,
    /// Sun Solaris
    Solaris,
    /// AIX
    AIX,
    /// IRIX
    Irix,
    /// FreeBSD
    FreeBSD,
    /// Compaq TRU64 UNIX
    Tru64,
    /// Novell Modesto
    Modesto,
    /// Open BSD
    OpenBSD,
    /// Open VMS
    OpenVMS,
    /// Hewlett-Packard Non-Stop Kernel
    NSK,
    /// Amiga Research OS
    AROS,
    /// The FenixOS highly scalable multi-core OS
    FenixOS,
    /// Nuxi CloudABI
    CloudABI,
    /// Stratus Technologies OpenVOS
    OpenVOX,
}

impl ElfOsABI {
    /// The ABI that an identification byte stands for. A byte that names
    /// no known ABI stands for `Unspecified`.
    pub open spec fn spec_from_byte(byte: u8) -> ElfOsABI {
        if byte == 0x01 {
            ElfOsABI::HP_UX
        } else if byte == 0x02 {
            ElfOsABI::NetBSD
        } else if byte == 0x03 {
            ElfOsABI::GNU
        } else if byte == 0x06 {
            ElfOsABI::Solaris
        } else if byte == 0x07 {
            ElfOsABI::AIX
        } else if byte == 0x08 {
            ElfOsABI::Irix
        } else if byte == 0x09 {
            ElfOsABI::FreeBSD
        } else if byte == 0x0A {
            ElfOsABI::Tru64
        } else if byte == 0x0B {
            ElfOsABI::Modesto
        } else if byte == 0x0C {
            ElfOsABI::OpenBSD
        } else if byte == 0x0D {
            ElfOsABI::OpenVMS
        } else if byte == 0x0E {
            ElfOsABI::NSK
        } else if byte == 0x0F {
            ElfOsABI::AROS
        } else if byte == 0x10 {
            ElfOsABI::FenixOS
        } else if byte == 0x11 {
            ElfOsABI::CloudABI
        } else if byte == 0x12 {
            ElfOsABI::OpenVOX
        } else {
            ElfOsABI::Unspecified
        }
    }

    /// The ABI that an identification byte stands for.
    pub fn from_byte(byte: u8) -> (abi: ElfOsABI)
        ensures
            abi == Self::spec_from_byte(byte),
    {
        match byte {
            0x01 => ElfOsABI::HP_UX,
            0x02 => ElfOsABI::NetBSD,
            0x03 => ElfOsABI::GNU,
            0x06 => ElfOsABI::Solaris,
            0x07 => ElfOsABI::AIX,
            0x08 => ElfOsABI::Irix,
            0x09 => ElfOsABI::FreeBSD,
            0x0A => ElfOsABI::Tru64,
            0x0B => ElfOsABI::Modesto,
            0x0C => ElfOsABI::OpenBSD,
            0x0D => ElfOsABI::OpenVMS,
            0x0E => ElfOsABI::NSK,
            0x0F => ElfOsABI::AROS,
            0x10 => ElfOsABI::FenixOS,
            0x11 => ElfOsABI::CloudABI,
            0x12 => ElfOsABI::OpenVOX,
            _ => ElfOsABI::Unspecified,
        }
    }
}

impl Default for ElfOsABI {
    fn default() -> (abi: ElfOsABI)
        ensures
            abi == ElfOsABI::Unspecified,
    {
        ElfOsABI::Unspecified
    }
}

/// What the identification bytes say of the file.
#[derive(Clone, Copy, Ord, PartialOrd, Eq, PartialEq, Debug, Hash, Structural)]
pub struct ElfIdent {
    /// Width of the address-sized fields.
    pub class: ElfClass,
    /// Byte order of the numbers.
    pub endian: ElfEndian,
    /// Version of the format.
    pub version: ElfVersion,
    /// Operating system or ABI extensions in use.
    pub abi: ElfOsABI,
    /// Version of those extensions.
    pub abi_version: u8,
}

impl ElfIdent {
    /// How many identification bytes carry information: class, byte order,
    /// version, ABI and ABI version. The seven bytes behind them are
    /// reserved and never looked at.
    pub const SIZE: usize = 5;

    /// Why the identification bytes at `at` cannot be decoded, if they
    /// cannot: too few bytes, then a class byte that names no class, then
    /// an order byte that names no byte order.
    pub open spec fn failure(bytes: Seq<u8>, at: int) -> Option<Error> {
        if at + 5 > bytes.len() {
            Some(Error::NotEnoughBytes(bytes_left(bytes.len() as int, at)))
        } else if ElfClass::spec_from_byte(bytes[at]) is Invalid {
            Some(Error::InvalidClass)
        } else if ElfEndian::spec_from_byte(bytes[at + 1]) is Invalid {
            Some(Error::InvalidEndian)
        } else {
            None
        }
    }

    /// What the five identification bytes at `at` say, byte by byte.
    pub open spec fn at(bytes: Seq<u8>, at: int) -> ElfIdent {
        ElfIdent {
            class: ElfClass::spec_from_byte(bytes[at]),
            endian: ElfEndian::spec_from_byte(bytes[at + 1]),
            version: ElfVersion::spec_from_byte(bytes[at + 2]),
            abi: ElfOsABI::spec_from_byte(bytes[at + 3]),
            abi_version: bytes[at + 4],
        }
    }

    /// The outcome of decoding the identification bytes at `at`.
    pub open spec fn decoded(bytes: Seq<u8>, at: int) -> Result<ElfIdent, Error> {
        match Self::failure(bytes, at) {
            Some(error) => Err(error),
            None => Ok(Self::at(bytes, at)),
        }
    }

    /// Decodes the identification bytes that start at `offset`, the
    /// position right behind the signature. An identification that comes
    /// back always has one of the two classes and one of the two byte
    /// orders.
    pub fn read(slice: &[u8], offset: usize) -> (read: Result<ElfIdent, Error>)
        ensures
            read == Self::decoded(slice@, offset as int),
            read matches Ok(ident) ==> !(ident.class is Invalid) && !(ident.endian is Invalid),
    {
        let len = slice.len();
        if offset > len {
            return Err(Error::NotEnoughBytes(0));
        }
        if len - offset < Self::SIZE {
            return Err(Error::NotEnoughBytes(len - offset));
        }
        let class = ElfClass::from_byte(slice[offset]);
        if let ElfClass::Invalid = class {
            return Err(Error::InvalidClass);
        }
        let endian = ElfEndian::from_byte(slice[offset + 1]);
        if let ElfEndian::Invalid = endian {
            return Err(Error::InvalidEndian);
        }
        Ok(
            ElfIdent {
                class,
                endian,
                version: ElfVersion::from_byte(slice[offset + 2]),
                abi: ElfOsABI::from_byte(slice[offset + 3]),
                abi_version: slice[offset + 4],
            },
        )
    }

    /// What stands before the identification bytes does not matter:
    /// decoded from the tail of the buffer that starts at `from`, they say
    /// the same, and fail alike where they cannot be decoded.
    pub proof fn lemma_decoded_in_tail(bytes: Seq<u8>, from: int, at: int)
        requires
            0 <= from <= at,
            from <= bytes.len(),
        ensures
            Self::decoded(bytes.subrange(from, bytes.len() as int), at - from) == Self::decoded(
                bytes,
                at,
            ),
    {
        let tail = bytes.subrange(from, bytes.len() as int);
        if at + 5 <= bytes.len() {
            assert(tail[at - from] == bytes[at]);
            assert(tail[at - from + 1] == bytes[at + 1]);
            assert(tail[at - from + 2] == bytes[at + 2]);
            assert(tail[at - from + 3] == bytes[at + 3]);
            assert(tail[at - from + 4] == bytes[at + 4]);
        }
    }

    /// Why a read of an address-sized field at `at` fails, if it does. A
    /// class that is none fails before anything else is looked at.
    pub open spec fn address_failure(self, len: int, at: int) -> Option<Error> {
        match self.class {
            ElfClass::Invalid => Some(Error::InvalidClass),
            _ => read_failure(len, self.endian, at, self.class.address_width()),
        }
    }

    /// The address-sized field at `at`: four or eight bytes by the class,
    /// widened to 64 bits.
    pub open spec fn address_at(self, bytes: Seq<u8>, at: int) -> u64 {
        self.endian.value_at(bytes, at, self.class.address_width()) as u64
    }

    /// Reads one address, offset or size at `*offset` and moves `*offset`
    /// behind it: four bytes in a 32-bit file, eight in a 64-bit file, in
    /// the byte order of the file. The result is the number that those
    /// bytes spell, so the four bytes of a 32-bit file come back
    /// zero-extended. Without a class the read fails with `InvalidClass`;
    /// a failed read leaves `*offset` where it was.
    pub fn read_address_or_offset(&self, slice: &[u8], offset: &mut usize) -> (read: Result<
        u64,
        Error,
    >)
        ensures
            match self.address_failure(slice@.len() as int, *old(offset) as int) {
                Some(error) => read == Err::<u64, Error>(error) && *final(offset) == *old(offset),
                None => read == Ok::<u64, Error>(self.address_at(slice@, *old(offset) as int))
                    && read->Ok_0 == self.endian.value_at(
                    slice@,
                    *old(offset) as int,
                    self.class.address_width(),
                ) && *final(offset) == *old(offset) + self.class.address_width(),
            },
            self.class is Class32 && read is Ok ==> *final(offset) == *old(offset) + 4,
            self.class is Class64 && read is Ok ==> *final(offset) == *old(offset) + 8,
    {
        match self.class {
            ElfClass::Invalid => Err(Error::InvalidClass),
            ElfClass::Class32 => {
                match self.endian.read::<u32>(slice, offset) {
                    Ok(number) => Ok(number as u64),
                    Err(error) => Err(error),
                }
            },
            ElfClass::Class64 => self.endian.read::<u64>(slice, offset),
        }
    }
}

} // verus!
