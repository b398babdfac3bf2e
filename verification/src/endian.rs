//! Reading whole numbers out of a byte buffer in a byte order that is only
//! known at run time.

use vstd::prelude::*;

use crate::header::ident::ElfEndian;
use crate::Error;

verus! {

/// The number that `bytes` spell when the first byte is the least
/// significant one.
pub open spec fn le_value(bytes: Seq<u8>) -> nat
    decreases bytes.len(),
{
    if bytes.len() == 0 {
        0
    } else {
        bytes[0] as nat + 256 * le_value(bytes.drop_first())
    }
}

/// The number that `bytes` spell when the first byte is the most
/// significant one.
pub open spec fn be_value(bytes: Seq<u8>) -> nat
    decreases bytes.len(),
{
    if bytes.len() == 0 {
        0
    } else {
        256 * be_value(bytes.drop_last()) + bytes.last() as nat
    }
}

/// How many numbers `count` bytes can spell: 256 to the power `count`.
pub open spec fn byte_range(count: nat) -> nat
    decreases count,
{
    if count == 0 {
        1
    } else {
        256 * byte_range((count - 1) as nat)
    }
}

/// How many bytes a buffer of `len` bytes still holds at position `at`;
/// none once the position lies behind its end.
pub open spec fn bytes_left(len: int, at: int) -> usize {
    if 0 <= at <= len {
        (len - at) as usize
    } else {
        0
    }
}

/// Why a read of `width` bytes at `at` in a buffer of `len` bytes fails, if
/// it does. The bounds are looked at before the byte order.
pub open spec fn read_failure(len: int, endian: ElfEndian, at: int, width: int) -> Option<Error> {
    if at + width > len {
        Some(Error::NotEnoughBytes(bytes_left(len, at)))
    } else if endian is Invalid {
        Some(Error::InvalidEndian)
    } else {
        None
    }
}

impl ElfEndian {
    /// The number that `bytes` spell in this byte order.
    pub open spec fn value_of(self, bytes: Seq<u8>) -> nat {
        match self {
            ElfEndian::Little => le_value(bytes),
            ElfEndian::Big => be_value(bytes),
            ElfEndian::Invalid => 0,
        }
    }

    /// The number spelt by the `width` bytes of `bytes` that start at `at`.
    pub open spec fn value_at(self, bytes: Seq<u8>, at: int, width: int) -> nat {
        self.value_of(bytes.subrange(at, at + width))
    }

    /// The 16-bit number at `at`.
    pub open spec fn u16_at(self, bytes: Seq<u8>, at: int) -> u16 {
        self.value_at(bytes, at, 2) as u16
    }

    /// The 32-bit number at `at`.
    pub open spec fn u32_at(self, bytes: Seq<u8>, at: int) -> u32 {
        self.value_at(bytes, at, 4) as u32
    }
}

/// The first values of `byte_range`, up to the eight bytes of a `u64`.
pub proof fn lemma_byte_range_values()
    ensures
        byte_range(0) == 1,
        byte_range(1) == 0x100,
        byte_range(2) == 0x1_0000,
        byte_range(3) == 0x100_0000,
        byte_range(4) == 0x1_0000_0000,
        byte_range(5) == 0x100_0000_0000,
        byte_range(6) == 0x1_0000_0000_0000,
        byte_range(7) == 0x100_0000_0000_0000,
        byte_range(8) == 0x1_0000_0000_0000_0000,
{
    reveal_with_fuel(byte_range, 9);
}

/// A number spelt least significant byte first is below 256 to the number
/// of its bytes.
pub proof fn lemma_le_value_bound(bytes: Seq<u8>)
    ensures
        le_value(bytes) < byte_range(bytes.len()),
    decreases bytes.len(),
{
    if bytes.len() > 0 {
        lemma_le_value_bound(bytes.drop_first());
    }
}

/// A number spelt most significant byte first is below 256 to the number
/// of its bytes.
pub proof fn lemma_be_value_bound(bytes: Seq<u8>)
    ensures
        be_value(bytes) < byte_range(bytes.len()),
    decreases bytes.len(),
{
    if bytes.len() > 0 {
        lemma_be_value_bound(bytes.drop_last());
    }
}

/// In either byte order the number of `bytes` is below 256 to the number
/// of bytes.
pub proof fn lemma_value_bound(endian: ElfEndian, bytes: Seq<u8>)
    ensures
        endian.value_of(bytes) < byte_range(bytes.len()),
{
    lemma_le_value_bound(bytes);
    lemma_be_value_bound(bytes);
}

/// The two byte orders mirror each other: bytes read most significant
/// first spell what the reversed bytes spell least significant first.
pub proof fn lemma_be_is_le_reversed(bytes: Seq<u8>)
    ensures
        be_value(bytes) == le_value(bytes.reverse()),
    decreases bytes.len(),
{
    if bytes.len() > 0 {
        lemma_be_is_le_reversed(bytes.drop_last());
        assert(bytes.reverse().drop_first() =~= bytes.drop_last().reverse());
    }
}

/// Reads the `width` bytes at `start`, eight at most, as one number in the
/// byte order `endian`.
fn number_at(slice: &[u8], start: usize, width: usize, endian: ElfEndian) -> (number: u64)
    requires
        width <= 8,
        start + width <= slice.len(),
        !(endian is Invalid),
    ensures
        number == endian.value_at(slice@, start as int, width as int),
{
    let big = match endian {
        ElfEndian::Big => true,
        _ => false,
    };
    let mut number: u64 = 0;
    let mut taken: usize = 0;
    while taken < width
        invariant
            taken <= width <= 8,
            start + width <= slice.len(),
            big <==> endian is Big,
            !big <==> endian is Little,
            big ==> number == be_value(slice@.subrange(start as int, start + taken)),
            !big ==> number == le_value(slice@.subrange(start + width - taken, start + width)),
            number < byte_range(taken as nat),
        decreases width - taken,
    {
        let index = if big {
            start + taken
        } else {
            start + (width - 1 - taken)
        };
        let byte = slice[index];
        proof {
            lemma_byte_range_values();
            assert(taken == 0 || taken == 1 || taken == 2 || taken == 3 || taken == 4 || taken == 5
                || taken == 6 || taken == 7);
            let longer = if big {
                slice@.subrange(start as int, start + taken + 1)
            } else {
                slice@.subrange(start + width - taken - 1, start + width)
            };
            if big {
                assert(longer.drop_last() =~= slice@.subrange(start as int, start + taken));
            } else {
                assert(longer.drop_first() =~= slice@.subrange(
                    start + width - taken,
                    start + width,
                ));
            }
        }
        number = number * 256 + byte as u64;
        taken = taken + 1;
    }
    number
}

/// Copying a run of items into an array of a length that is known at
/// compile time.
pub trait IntoArray<T> {
    /// The items of the run, in their order.
    spec fn items(&self) -> Seq<T>;

    /// The items as an array. The run has to hold exactly `LENGTH` items.
    fn to_array<const LENGTH: usize>(&self) -> (array: [T; LENGTH])
        requires
            self.items().len() == LENGTH,
        ensures
            array@ == self.items(),
    ;
}

impl<T: Default + Copy> IntoArray<T> for [T] {
    open spec fn items(&self) -> Seq<T> {
        self@
    }

    fn to_array<const LENGTH: usize>(&self) -> (array: [T; LENGTH]) {
        let mut array = [T::default(); LENGTH];
        let mut index: usize = 0;
        while index < LENGTH
            invariant
                index <= LENGTH == self@.len(),
                forall|before: int| 0 <= before < index ==> array@[before] == self@[before],
            decreases LENGTH - index,
        {
            array[index] = self[index];
            index = index + 1;
        }
        assert(array@ =~= self@);
        array
    }
}

/// A number type that can be read out of a byte buffer in either byte
/// order.
pub trait EndianReader: Sized {
    /// How many bytes one value takes in a buffer.
    spec fn width() -> int;

    /// The number that a value stands for.
    spec fn number(self) -> nat;

    /// Reads one value at `*offset` in the byte order `endian` and moves
    /// `*offset` behind it. A failed read leaves `*offset` where it was.
    fn read_with_endian(slice: &[u8], endian: ElfEndian, offset: &mut usize) -> (read: Result<
        Self,
        Error,
    >)
        ensures
            match read_failure(slice@.len() as int, endian, *old(offset) as int, Self::width()) {
                Some(error) => read == Err::<Self, Error>(error) && *final(offset) == *old(offset),
                None => read is Ok && read->Ok_0.number() == endian.value_at(
                    slice@,
                    *old(offset) as int,
                    Self::width(),
                ) && *final(offset) == *old(offset) + Self::width(),
            },
    ;
}

/// Reads a number of `width` bytes, eight at most, at `*offset` and moves
/// `*offset` behind it; what the three number types share.
fn read_number(slice: &[u8], endian: ElfEndian, offset: &mut usize, width: usize) -> (read: Result<
    u64,
    Error,
>)
    requires
        width <= 8,
    ensures
        match read_failure(slice@.len() as int, endian, *old(offset) as int, width as int) {
            Some(error) => read == Err::<u64, Error>(error) && *final(offset) == *old(offset),
            None => read == Ok::<u64, Error>(
                endian.value_at(slice@, *old(offset) as int, width as int) as u64,
            ) && endian.value_at(slice@, *old(offset) as int, width as int) < byte_range(
                width as nat,
            ) && *final(offset) == *old(offset) + width,
        },
{
    let start = *offset;
    let len = slice.len();
    if start > len {
        return Err(Error::NotEnoughBytes(0));
    }
    if len - start < width {
        return Err(Error::NotEnoughBytes(len - start));
    }
    match endian {
        ElfEndian::Invalid => Err(Error::InvalidEndian),
        _ => {
            let number = number_at(slice, start, width, endian);
            proof {
                lemma_value_bound(endian, slice@.subrange(start as int, start + width));
            }
            *offset = start + width;
            Ok(number)
        },
    }
}

impl EndianReader for u16 {
    open spec fn width() -> int {
        2
    }

    open spec fn number(self) -> nat {
        self as nat
    }

    fn read_with_endian(slice: &[u8], endian: ElfEndian, offset: &mut usize) -> (read: Result<
        u16,
        Error,
    >) {
        proof {
            lemma_byte_range_values();
        }
        match read_number(slice, endian, offset, 2) {
            Ok(number) => Ok(number as u16),
            Err(error) => Err(error),
        }
    }
}

impl EndianReader for u32 {
    open spec fn width() -> int {
        4
    }

    open spec fn number(self) -> nat {
        self as nat
    }

    fn read_with_endian(slice: &[u8], endian: ElfEndian, offset: &mut usize) -> (read: Result<
        u32,
        Error,
    >) {
        proof {
            lemma_byte_range_values();
        }
        match read_number(slice, endian, offset, 4) {
            Ok(number) => Ok(number as u32),
            Err(error) => Err(error),
        }
    }
}

impl EndianReader for u64 {
    open spec fn width() -> int {
        8
    }

    open spec fn number(self) -> nat {
        self as nat
    }

    fn read_with_endian(slice: &[u8], endian: ElfEndian, offset: &mut usize) -> (read: Result<
        u64,
        Error,
    >) {
        proof {
            lemma_byte_range_values();
        }
        read_number(slice, endian, offset, 8)
    }
}

impl ElfEndian {
    /// Reads one number of type `T` at `*offset` in this byte order and
    /// moves `*offset` behind it. With fewer bytes left than `T` takes the
    /// read fails with `NotEnoughBytes` and the count of bytes that were
    /// left; with enough bytes and no byte order it fails with
    /// `InvalidEndian`. A failed read leaves `*offset` where it was.
    pub fn read<T: EndianReader>(&self, slice: &[u8], offset: &mut usize) -> (read: Result<T, Error>)
        ensures
            match read_failure(slice@.len() as int, *self, *old(offset) as int, T::width()) {
                Some(error) => read == Err::<T, Error>(error) && *final(offset) == *old(offset),
                None => read is Ok && read->Ok_0.number() == self.value_at(
                    slice@,
                    *old(offset) as int,
                    T::width(),
                ) && *final(offset) == *old(offset) + T::width(),
            },
    {
        T::read_with_endian(slice, *self, offset)
    }
}

/// A number depends on its own bytes alone: read out of the window of
/// `bytes` between `from` and `to`, the `width` bytes at `at` spell the
/// same number as in the whole of `bytes`.
pub proof fn lemma_value_at_window(
    endian: ElfEndian,
    bytes: Seq<u8>,
    from: int,
    to: int,
    at: int,
    width: int,
)
    requires
        0 <= from <= at,
        0 <= width,
        at + width <= to <= bytes.len(),
    ensures
        endian.value_at(bytes.subrange(from, to), at - from, width) == endian.value_at(
            bytes,
            at,
            width,
        ),
{
    assert(bytes.subrange(from, to).subrange(at - from, at - from + width) =~= bytes.subrange(
        at,
        at + width,
    ));
}

} // verus!
