//! Byte orders, and the fixed-width numbers that are read and written in them.

use vstd::prelude::*;
use crate::ctx::radix::{
    lemma_le_value_bound, lemma_radix_values, lemma_reorder_bytes, lemma_reorder_value,
    lemma_signed_unsigned, lemma_unsigned_signed, load, number, number_bytes, of_pattern,
    pattern_of, radix, reorder, reversed, signed, store, unsigned,
};
use crate::error::{check_len, fixed_len, Error};
use crate::traits::{TryRead, TryWrite};

verus! {

/// The number of bytes of a `usize` and of an `isize`.
pub open spec fn word() -> nat {
    (usize::BITS / 8) as nat
}

/// A `usize` and an `isize` take four or eight bytes, and their ranges are those of
/// numbers of that many bytes.
pub proof fn lemma_word()
    ensures
        word() == 4 || word() == 8,
        radix(word()) == usize::MAX + 1,
        radix(word()) == 2 * (isize::MAX + 1),
        isize::MIN == -(isize::MAX + 1),
{
    lemma_radix_values();
}

/// The number of bytes of a `usize` and of an `isize`.
fn word_size() -> (n: usize)
    ensures
        n == word(),
{
    proof {
        lemma_word();
    }
    (usize::BITS / 8) as usize
}

/// Half the number of values of an `isize`.
fn word_half() -> (h: u128)
    ensures
        h == isize::MAX + 1,
{
    isize::MAX as u128 + 1
}

/// A byte order.
///
/// The `convert` methods turn a number into the number whose bytes, least significant
/// first, are the bytes of the first in this byte order, and back: for little endian they
/// change nothing, for big endian they reverse the bytes. Signed numbers are converted as
/// their two's complement patterns.
pub trait Endianess: Copy {
    /// Whether the least significant byte comes first.
    spec fn little() -> bool;

    fn convert_u16(i: u16) -> (r: u16)
        ensures
            r == reorder(i as nat, 2, Self::little()),
    ;

    fn convert_u32(i: u32) -> (r: u32)
        ensures
            r == reorder(i as nat, 4, Self::little()),
    ;

    fn convert_u64(i: u64) -> (r: u64)
        ensures
            r == reorder(i as nat, 8, Self::little()),
    ;

    fn convert_u128(i: u128) -> (r: u128)
        ensures
            r == reorder(i as nat, 16, Self::little()),
    ;

    fn convert_usize(i: usize) -> (r: usize)
        ensures
            r == reorder(i as nat, word(), Self::little()),
    ;

    fn convert_i16(i: i16) -> (r: i16)
        ensures
            r == signed(reorder(unsigned(i as int, 2), 2, Self::little()), 2),
    ;

    fn convert_i32(i: i32) -> (r: i32)
        ensures
            r == signed(reorder(unsigned(i as int, 4), 4, Self::little()), 4),
    ;

    fn convert_i64(i: i64) -> (r: i64)
        ensures
            r == signed(reorder(unsigned(i as int, 8), 8, Self::little()), 8),
    ;

    fn convert_i128(i: i128) -> (r: i128)
        ensures
            r == signed(reorder(unsigned(i as int, 16), 16, Self::little()), 16),
    ;

    fn convert_isize(i: isize) -> (r: isize)
        ensures
            r == signed(reorder(unsigned(i as int, word()), word(), Self::little()), word()),
    ;
}

/// Little endian byte order: the least significant byte comes first.
#[derive(Debug, PartialEq, Eq, Copy, Clone)]
pub struct LittleEndian;

impl Endianess for LittleEndian {
    open spec fn little() -> bool {
        true
    }

    fn convert_u16(i: u16) -> (r: u16) {
        i
    }

    fn convert_u32(i: u32) -> (r: u32) {
        i
    }

    fn convert_u64(i: u64) -> (r: u64) {
        i
    }

    fn convert_u128(i: u128) -> (r: u128) {
        i
    }

    fn convert_usize(i: usize) -> (r: usize) {
        i
    }

    fn convert_i16(i: i16) -> (r: i16) {
        proof {
            lemma_radix_values();
            lemma_signed_unsigned(i as int, 2);
        }
        i
    }

    fn convert_i32(i: i32) -> (r: i32) {
        proof {
            lemma_radix_values();
            lemma_signed_unsigned(i as int, 4);
        }
        i
    }

    fn convert_i64(i: i64) -> (r: i64) {
        proof {
            lemma_radix_values();
            lemma_signed_unsigned(i as int, 8);
        }
        i
    }

    fn convert_i128(i: i128) -> (r: i128) {
        proof {
            lemma_radix_values();
            lemma_signed_unsigned(i as int, 16);
        }
        i
    }

    fn convert_isize(i: isize) -> (r: isize) {
        proof {
            lemma_word();
            lemma_radix_values();
            lemma_signed_unsigned(i as int, word());
        }
        i
    }
}

/// Big endian byte order: the most significant byte comes first.
#[derive(Debug, PartialEq, Eq, Copy, Clone)]
pub struct BigEndian;

impl Endianess for BigEndian {
    open spec fn little() -> bool {
        false
    }

    fn convert_u16(i: u16) -> (r: u16) {
        let size: usize = 2;
        proof {
            lemma_radix_values();
            lemma_reorder_bytes(i as nat, 2, false);
        }
        reversed(i as u128, size) as u16
    }

    fn convert_u32(i: u32) -> (r: u32) {
        let size: usize = 4;
        proof {
            lemma_radix_values();
            lemma_reorder_bytes(i as nat, 4, false);
        }
        reversed(i as u128, size) as u32
    }

    fn convert_u64(i: u64) -> (r: u64) {
        let size: usize = 8;
        proof {
            lemma_radix_values();
            lemma_reorder_bytes(i as nat, 8, false);
        }
        reversed(i as u128, size) as u64
    }

    fn convert_u128(i: u128) -> (r: u128) {
        let size: usize = 16;
        proof {
            lemma_radix_values();
            lemma_reorder_bytes(i as nat, 16, false);
        }
        reversed(i as u128, size) as u128
    }

    fn convert_usize(i: usize) -> (r: usize) {
        let size: usize = word_size();
        proof {
            lemma_word();
            lemma_radix_values();
            lemma_reorder_bytes(i as nat, word(), false);
        }
        reversed(i as u128, size) as usize
    }

    fn convert_i16(i: i16) -> (r: i16) {
        let size: usize = 2;
        let half: u128 = 0x8000;
        proof {
            lemma_radix_values();
            lemma_signed_unsigned(i as int, 2);
            lemma_reorder_bytes(unsigned(i as int, 2), 2, false);
            lemma_unsigned_signed(reorder(unsigned(i as int, 2), 2, false), 2);
        }
        of_pattern(reversed(pattern_of(i as i128, half), size), half) as i16
    }

    fn convert_i32(i: i32) -> (r: i32) {
        let size: usize = 4;
        let half: u128 = 0x8000_0000;
        proof {
            lemma_radix_values();
            lemma_signed_unsigned(i as int, 4);
            lemma_reorder_bytes(unsigned(i as int, 4), 4, false);
            lemma_unsigned_signed(reorder(unsigned(i as int, 4), 4, false), 4);
        }
        of_pattern(reversed(pattern_of(i as i128, half), size), half) as i32
    }

    fn convert_i64(i: i64) -> (r: i64) {
        let size: usize = 8;
        let half: u128 = 0x8000_0000_0000_0000;
        proof {
            lemma_radix_values();
            lemma_signed_unsigned(i as int, 8);
            lemma_reorder_bytes(unsigned(i as int, 8), 8, false);
            lemma_unsigned_signed(reorder(unsigned(i as int, 8), 8, false), 8);
        }
        of_pattern(reversed(pattern_of(i as i128, half), size), half) as i64
    }

    fn convert_i128(i: i128) -> (r: i128) {
        let size: usize = 16;
        let half: u128 = 0x8000_0000_0000_0000_0000_0000_0000_0000;
        proof {
            lemma_radix_values();
            lemma_signed_unsigned(i as int, 16);
            lemma_reorder_bytes(unsigned(i as int, 16), 16, false);
            lemma_unsigned_signed(reorder(unsigned(i as int, 16), 16, false), 16);
        }
        of_pattern(reversed(pattern_of(i as i128, half), size), half) as i128
    }

    fn convert_isize(i: isize) -> (r: isize) {
        let size: usize = word_size();
        let half: u128 = word_half();
        proof {
            lemma_word();
            lemma_radix_values();
            lemma_signed_unsigned(i as int, word());
            lemma_reorder_bytes(unsigned(i as int, word()), word(), false);
            lemma_unsigned_signed(reorder(unsigned(i as int, word()), word(), false), word());
        }
        of_pattern(reversed(pattern_of(i as i128, half), size), half) as isize
    }
}

/// Little endian byte order.
pub const LE: LittleEndian = LittleEndian;

/// Big endian byte order.
pub const BE: BigEndian = BigEndian;

impl<'a, C: Endianess> TryRead<'a, C> for u16 {
    open spec fn read_len(bytes: Seq<u8>, ctx: C) -> Result<nat, Error> {
        fixed_len(bytes.len(), 2)
    }

    /// The value is the number that the first bytes spell in the byte order.
    open spec fn read_from(self, bytes: Seq<u8>, ctx: C) -> bool {
        self == number(bytes.take(2 as int), C::little())
    }

    fn try_read(bytes: &'a [u8], _ctx: C) -> (r: Result<(Self, usize), Error>) {
        let size: usize = 2;
        check_len(bytes, size)?;
        let val: u128 = load(bytes, size);
        proof {
            lemma_radix_values();
            lemma_le_value_bound(bytes@.take(size as int));
            lemma_reorder_value(bytes@.take(size as int), C::little());
        }
        Ok((C::convert_u16(val as u16), size))
    }
}

impl<C: Endianess> TryWrite<C> for u16 {
    open spec fn write_len(self, room: nat, ctx: C) -> Result<nat, Error> {
        fixed_len(room, 2)
    }

    /// The bytes of the number in the byte order.
    open spec fn written(self, ctx: C) -> Seq<u8> {
        number_bytes(self as nat, 2, C::little())
    }

    fn try_write(self, bytes: &mut [u8], _ctx: C) -> (r: Result<usize, Error>)
        ensures
            r is Err ==> final(bytes)@ == old(bytes)@,
    {
        let size: usize = 2;
        check_len(bytes, size)?;
        proof {
            lemma_radix_values();
            lemma_reorder_bytes(self as nat, 2, C::little());
        }
        store(bytes, C::convert_u16(self) as u128, size);
        Ok(size)
    }
}

impl<'a, C: Endianess> TryRead<'a, C> for u32 {
    open spec fn read_len(bytes: Seq<u8>, ctx: C) -> Result<nat, Error> {
        fixed_len(bytes.len(), 4)
    }

    /// The value is the number that the first bytes spell in the byte order.
    open spec fn read_from(self, bytes: Seq<u8>, ctx: C) -> bool {
        self == number(bytes.take(4 as int), C::little())
    }

    fn try_read(bytes: &'a [u8], _ctx: C) -> (r: Result<(Self, usize), Error>) {
        let size: usize = 4;
        check_len(bytes, size)?;
        let val: u128 = load(bytes, size);
        proof {
            lemma_radix_values();
            lemma_le_value_bound(bytes@.take(size as int));
            lemma_reorder_value(bytes@.take(size as int), C::little());
        }
        Ok((C::convert_u32(val as u32), size))
    }
}

impl<C: Endianess> TryWrite<C> for u32 {
    open spec fn write_len(self, room: nat, ctx: C) -> Result<nat, Error> {
        fixed_len(room, 4)
    }

    /// The bytes of the number in the byte order.
    open spec fn written(self, ctx: C) -> Seq<u8> {
        number_bytes(self as nat, 4, C::little())
    }

    fn try_write(self, bytes: &mut [u8], _ctx: C) -> (r: Result<usize, Error>)
        ensures
            r is Err ==> final(bytes)@ == old(bytes)@,
    {
        let size: usize = 4;
        check_len(bytes, size)?;
        proof {
            lemma_radix_values();
            lemma_reorder_bytes(self as nat, 4, C::little());
        }
        store(bytes, C::convert_u32(self) as u128, size);
        Ok(size)
    }
}

impl<'a, C: Endianess> TryRead<'a, C> for u64 {
    open spec fn read_len(bytes: Seq<u8>, ctx: C) -> Result<nat, Error> {
        fixed_len(bytes.len(), 8)
    }

    /// The value is the number that the first bytes spell in the byte order.
    open spec fn read_from(self, bytes: Seq<u8>, ctx: C) -> bool {
        self == number(bytes.take(8 as int), C::little())
    }

    fn try_read(bytes: &'a [u8], _ctx: C) -> (r: Result<(Self, usize), Error>) {
        let size: usize = 8;
        check_len(bytes, size)?;
        let val: u128 = load(bytes, size);
        proof {
            lemma_radix_values();
            lemma_le_value_bound(bytes@.take(size as int));
            lemma_reorder_value(bytes@.take(size as int), C::little());
        }
        Ok((C::convert_u64(val as u64), size))
    }
}

impl<C: Endianess> TryWrite<C> for u64 {
    open spec fn write_len(self, room: nat, ctx: C) -> Result<nat, Error> {
        fixed_len(room, 8)
    }

    /// The bytes of the number in the byte order.
    open spec fn written(self, ctx: C) -> Seq<u8> {
        number_bytes(self as nat, 8, C::little())
    }

    fn try_write(self, bytes: &mut [u8], _ctx: C) -> (r: Result<usize, Error>)
        ensures
            r is Err ==> final(bytes)@ == old(bytes)@,
    {
        let size: usize = 8;
        check_len(bytes, size)?;
        proof {
            lemma_radix_values();
            lemma_reorder_bytes(self as nat, 8, C::little());
        }
        store(bytes, C::convert_u64(self) as u128, size);
        Ok(size)
    }
}

impl<'a, C: Endianess> TryRead<'a, C> for u128 {
    open spec fn read_len(bytes: Seq<u8>, ctx: C) -> Result<nat, Error> {
        fixed_len(bytes.len(), 16)
    }

    /// The value is the number that the first bytes spell in the byte order.
    open spec fn read_from(self, bytes: Seq<u8>, ctx: C) -> bool {
        self == number(bytes.take(16 as int), C::little())
    }

    fn try_read(bytes: &'a [u8], _ctx: C) -> (r: Result<(Self, usize), Error>) {
        let size: usize = 16;
        check_len(bytes, size)?;
        let val: u128 = load(bytes, size);
        proof {
            lemma_radix_values();
            lemma_le_value_bound(bytes@.take(size as int));
            lemma_reorder_value(bytes@.take(size as int), C::little());
        }
        Ok((C::convert_u128(val as u128), size))
    }
}

impl<C: Endianess> TryWrite<C> for u128 {
    open spec fn write_len(self, room: nat, ctx: C) -> Result<nat, Error> {
        fixed_len(room, 16)
    }

    /// The bytes of the number in the byte order.
    open spec fn written(self, ctx: C) -> Seq<u8> {
        number_bytes(self as nat, 16, C::little())
    }

    fn try_write(self, bytes: &mut [u8], _ctx: C) -> (r: Result<usize, Error>)
        ensures
            r is Err ==> final(bytes)@ == old(bytes)@,
    {
        let size: usize = 16;
        check_len(bytes, size)?;
        proof {
            lemma_radix_values();
            lemma_reorder_bytes(self as nat, 16, C::little());
        }
        store(bytes, C::convert_u128(self) as u128, size);
        Ok(size)
    }
}

impl<'a, C: Endianess> TryRead<'a, C> for usize {
    open spec fn read_len(bytes: Seq<u8>, ctx: C) -> Result<nat, Error> {
        fixed_len(bytes.len(), word())
    }

    /// The value is the number that the first bytes spell in the byte order.
    open spec fn read_from(self, bytes: Seq<u8>, ctx: C) -> bool {
        self == number(bytes.take(word() as int), C::little())
    }

    fn try_read(bytes: &'a [u8], _ctx: C) -> (r: Result<(Self, usize), Error>) {
        let size: usize = word_size();
        check_len(bytes, size)?;
        let val: u128 = load(bytes, size);
        proof {
            lemma_word();
            lemma_radix_values();
            lemma_le_value_bound(bytes@.take(size as int));
            lemma_reorder_value(bytes@.take(size as int), C::little());
        }
        Ok((C::convert_usize(val as usize), size))
    }
}

impl<C: Endianess> TryWrite<C> for usize {
    open spec fn write_len(self, room: nat, ctx: C) -> Result<nat, Error> {
        fixed_len(room, word())
    }

    /// The bytes of the number in the byte order.
    open spec fn written(self, ctx: C) -> Seq<u8> {
        number_bytes(self as nat, word(), C::little())
    }

    fn try_write(self, bytes: &mut [u8], _ctx: C) -> (r: Result<usize, Error>)
        ensures
            r is Err ==> final(bytes)@ == old(bytes)@,
    {
        let size: usize = word_size();
        check_len(bytes, size)?;
        proof {
            lemma_word();
            lemma_radix_values();
            lemma_reorder_bytes(self as nat, word(), C::little());
        }
        store(bytes, C::convert_usize(self) as u128, size);
        Ok(size)
    }
}

impl<'a, C: Endianess> TryRead<'a, C> for i16 {
    open spec fn read_len(bytes: Seq<u8>, ctx: C) -> Result<nat, Error> {
        fixed_len(bytes.len(), 2)
    }

    /// The value is the signed number that the first bytes, read in the byte order,
    /// stand for in two's complement.
    open spec fn read_from(self, bytes: Seq<u8>, ctx: C) -> bool {
        self == signed(number(bytes.take(2 as int), C::little()), 2)
    }

    fn try_read(bytes: &'a [u8], _ctx: C) -> (r: Result<(Self, usize), Error>) {
        let size: usize = 2;
        let half: u128 = 0x8000;
        check_len(bytes, size)?;
        let bits: u128 = load(bytes, size);
        proof {
            lemma_radix_values();
            lemma_le_value_bound(bytes@.take(size as int));
            lemma_unsigned_signed(bits as nat, 2);
            lemma_reorder_value(bytes@.take(size as int), C::little());
        }
        let val: i16 = of_pattern(bits, half) as i16;
        Ok((C::convert_i16(val), size))
    }
}

impl<C: Endianess> TryWrite<C> for i16 {
    open spec fn write_len(self, room: nat, ctx: C) -> Result<nat, Error> {
        fixed_len(room, 2)
    }

    /// The bytes of the number's two's complement pattern in the byte order.
    open spec fn written(self, ctx: C) -> Seq<u8> {
        number_bytes(unsigned(self as int, 2), 2, C::little())
    }

    fn try_write(self, bytes: &mut [u8], _ctx: C) -> (r: Result<usize, Error>)
        ensures
            r is Err ==> final(bytes)@ == old(bytes)@,
    {
        let size: usize = 2;
        let half: u128 = 0x8000;
        check_len(bytes, size)?;
        let val: i16 = C::convert_i16(self);
        proof {
            lemma_radix_values();
            lemma_signed_unsigned(self as int, 2);
            lemma_reorder_bytes(unsigned(self as int, 2), 2, C::little());
            lemma_unsigned_signed(reorder(unsigned(self as int, 2), 2, C::little()), 2);
        }
        store(bytes, pattern_of(val as i128, half), size);
        Ok(size)
    }
}

impl<'a, C: Endianess> TryRead<'a, C> for i32 {
    open spec fn read_len(bytes: Seq<u8>, ctx: C) -> Result<nat, Error> {
        fixed_len(bytes.len(), 4)
    }

    /// The value is the signed number that the first bytes, read in the byte order,
    /// stand for in two's complement.
    open spec fn read_from(self, bytes: Seq<u8>, ctx: C) -> bool {
        self == signed(number(bytes.take(4 as int), C::little()), 4)
    }

    fn try_read(bytes: &'a [u8], _ctx: C) -> (r: Result<(Self, usize), Error>) {
        let size: usize = 4;
        let half: u128 = 0x8000_0000;
        check_len(bytes, size)?;
        let bits: u128 = load(bytes, size);
        proof {
            lemma_radix_values();
            lemma_le_value_bound(bytes@.take(size as int));
            lemma_unsigned_signed(bits as nat, 4);
            lemma_reorder_value(bytes@.take(size as int), C::little());
        }
        let val: i32 = of_pattern(bits, half) as i32;
        Ok((C::convert_i32(val), size))
    }
}

impl<C: Endianess> TryWrite<C> for i32 {
    open spec fn write_len(self, room: nat, ctx: C) -> Result<nat, Error> {
        fixed_len(room, 4)
    }

    /// The bytes of the number's two's complement pattern in the byte order.
    open spec fn written(self, ctx: C) -> Seq<u8> {
        number_bytes(unsigned(self as int, 4), 4, C::little())
    }

    fn try_write(self, bytes: &mut [u8], _ctx: C) -> (r: Result<usize, Error>)
        ensures
            r is Err ==> final(bytes)@ == old(bytes)@,
    {
        let size: usize = 4;
        let half: u128 = 0x8000_0000;
        check_len(bytes, size)?;
        let val: i32 = C::convert_i32(self);
        proof {
            lemma_radix_values();
            lemma_signed_unsigned(self as int, 4);
            lemma_reorder_bytes(unsigned(self as int, 4), 4, C::little());
            lemma_unsigned_signed(reorder(unsigned(self as int, 4), 4, C::little()), 4);
        }
        store(bytes, pattern_of(val as i128, half), size);
        Ok(size)
    }
}

impl<'a, C: Endianess> TryRead<'a, C> for i64 {
    open spec fn read_len(bytes: Seq<u8>, ctx: C) -> Result<nat, Error> {
        fixed_len(bytes.len(), 8)
    }

    /// The value is the signed number that the first bytes, read in the byte order,
    /// stand for in two's complement.
    open spec fn read_from(self, bytes: Seq<u8>, ctx: C) -> bool {
        self == signed(number(bytes.take(8 as int), C::little()), 8)
    }

    fn try_read(bytes: &'a [u8], _ctx: C) -> (r: Result<(Self, usize), Error>) {
        let size: usize = 8;
        let half: u128 = 0x8000_0000_0000_0000;
        check_len(bytes, size)?;
        let bits: u128 = load(bytes, size);
        proof {
            lemma_radix_values();
            lemma_le_value_bound(bytes@.take(size as int));
            lemma_unsigned_signed(bits as nat, 8);
            lemma_reorder_value(bytes@.take(size as int), C::little());
        }
        let val: i64 = of_pattern(bits, half) as i64;
        Ok((C::convert_i64(val), size))
    }
}

impl<C: Endianess> TryWrite<C> for i64 {
    open spec fn write_len(self, room: nat, ctx: C) -> Result<nat, Error> {
        fixed_len(room, 8)
    }

    /// The bytes of the number's two's complement pattern in the byte order.
    open spec fn written(self, ctx: C) -> Seq<u8> {
        number_bytes(unsigned(self as int, 8), 8, C::little())
    }

    fn try_write(self, bytes: &mut [u8], _ctx: C) -> (r: Result<usize, Error>)
        ensures
            r is Err ==> final(bytes)@ == old(bytes)@,
    {
        let size: usize = 8;
        let half: u128 = 0x8000_0000_0000_0000;
        check_len(bytes, size)?;
        let val: i64 = C::convert_i64(self);
        proof {
            lemma_radix_values();
            lemma_signed_unsigned(self as int, 8);
            lemma_reorder_bytes(unsigned(self as int, 8), 8, C::little());
            lemma_unsigned_signed(reorder(unsigned(self as int, 8), 8, C::little()), 8);
        }
        store(bytes, pattern_of(val as i128, half), size);
        Ok(size)
    }
}

impl<'a, C: Endianess> TryRead<'a, C> for i128 {
    open spec fn read_len(bytes: Seq<u8>, ctx: C) -> Result<nat, Error> {
        fixed_len(bytes.len(), 16)
    }

    /// The value is the signed number that the first bytes, read in the byte order,
    /// stand for in two's complement.
    open spec fn read_from(self, bytes: Seq<u8>, ctx: C) -> bool {
        self == signed(number(bytes.take(16 as int), C::little()), 16)
    }

    fn try_read(bytes: &'a [u8], _ctx: C) -> (r: Result<(Self, usize), Error>) {
        let size: usize = 16;
        let half: u128 = 0x8000_0000_0000_0000_0000_0000_0000_0000;
        check_len(bytes, size)?;
        let bits: u128 = load(bytes, size);
        proof {
            lemma_radix_values();
            lemma_le_value_bound(bytes@.take(size as int));
            lemma_unsigned_signed(bits as nat, 16);
            lemma_reorder_value(bytes@.take(size as int), C::little());
        }
        let val: i128 = of_pattern(bits, half) as i128;
        Ok((C::convert_i128(val), size))
    }
}

impl<C: Endianess> TryWrite<C> for i128 {
    open spec fn write_len(self, room: nat, ctx: C) -> Result<nat, Error> {
        fixed_len(room, 16)
    }

    /// The bytes of the number's two's complement pattern in the byte order.
    open spec fn written(self, ctx: C) -> Seq<u8> {
        number_bytes(unsigned(self as int, 16), 16, C::little())
    }

    fn try_write(self, bytes: &mut [u8], _ctx: C) -> (r: Result<usize, Error>)
        ensures
            r is Err ==> final(bytes)@ == old(bytes)@,
    {
        let size: usize = 16;
        let half: u128 = 0x8000_0000_0000_0000_0000_0000_0000_0000;
        check_len(bytes, size)?;
        let val: i128 = C::convert_i128(self);
        proof {
            lemma_radix_values();
            lemma_signed_unsigned(self as int, 16);
            lemma_reorder_bytes(unsigned(self as int, 16), 16, C::little());
            lemma_unsigned_signed(reorder(unsigned(self as int, 16), 16, C::little()), 16);
        }
        store(bytes, pattern_of(val as i128, half), size);
        Ok(size)
    }
}

impl<'a, C: Endianess> TryRead<'a, C> for isize {
    open spec fn read_len(bytes: Seq<u8>, ctx: C) -> Result<nat, Error> {
        fixed_len(bytes.len(), word())
    }

    /// The value is the signed number that the first bytes, read in the byte order,
    /// stand for in two's complement.
    open spec fn read_from(self, bytes: Seq<u8>, ctx: C) -> bool {
        self == signed(number(bytes.take(word() as int), C::little()), word())
    }

    fn try_read(bytes: &'a [u8], _ctx: C) -> (r: Result<(Self, usize), Error>) {
        let size: usize = word_size();
        let half: u128 = word_half();
        check_len(bytes, size)?;
        let bits: u128 = load(bytes, size);
        proof {
            lemma_word();
            lemma_radix_values();
            lemma_le_value_bound(bytes@.take(size as int));
            lemma_unsigned_signed(bits as nat, word());
            lemma_reorder_value(bytes@.take(size as int), C::little());
        }
        let val: isize = of_pattern(bits, half) as isize;
        Ok((C::convert_isize(val), size))
    }
}

impl<C: Endianess> TryWrite<C> for isize {
    open spec fn write_len(self, room: nat, ctx: C) -> Result<nat, Error> {
        fixed_len(room, word())
    }

    /// The bytes of the number's two's complement pattern in the byte order.
    open spec fn written(self, ctx: C) -> Seq<u8> {
        number_bytes(unsigned(self as int, word()), word(), C::little())
    }

    fn try_write(self, bytes: &mut [u8], _ctx: C) -> (r: Result<usize, Error>)
        ensures
            r is Err ==> final(bytes)@ == old(bytes)@,
    {
        let size: usize = word_size();
        let half: u128 = word_half();
        check_len(bytes, size)?;
        let val: isize = C::convert_isize(self);
        proof {
            lemma_word();
            lemma_radix_values();
            lemma_signed_unsigned(self as int, word());
            lemma_reorder_bytes(unsigned(self as int, word()), word(), C::little());
            lemma_unsigned_signed(reorder(unsigned(self as int, word()), word(), C::little()), word());
        }
        store(bytes, pattern_of(val as i128, half), size);
        Ok(size)
    }
}

impl<C> TryRead<'_, C> for u8 {
    open spec fn read_len(bytes: Seq<u8>, ctx: C) -> Result<nat, Error> {
        fixed_len(bytes.len(), 1)
    }

    /// The value is the first byte.
    open spec fn read_from(self, bytes: Seq<u8>, ctx: C) -> bool {
        self == bytes[0]
    }

    fn try_read(bytes: &[u8], _ctx: C) -> (r: Result<(Self, usize), Error>) {
        check_len(bytes, 1)?;
        Ok((bytes[0], 1))
    }
}

impl<C> TryWrite<C> for u8 {
    open spec fn write_len(self, room: nat, ctx: C) -> Result<nat, Error> {
        fixed_len(room, 1)
    }

    /// The byte itself.
    open spec fn written(self, ctx: C) -> Seq<u8> {
        seq![self]
    }

    fn try_write(self, bytes: &mut [u8], _ctx: C) -> (r: Result<usize, Error>)
        ensures
            r is Err ==> final(bytes)@ == old(bytes)@,
    {
        check_len(bytes, 1)?;
        bytes[0] = self;
        assert(bytes@ =~= seq![self] + old(bytes)@.skip(1));
        Ok(1)
    }
}

impl<C> TryRead<'_, C> for i8 {
    open spec fn read_len(bytes: Seq<u8>, ctx: C) -> Result<nat, Error> {
        fixed_len(bytes.len(), 1)
    }

    /// The value is the signed number that the first byte stands for in two's complement.
    open spec fn read_from(self, bytes: Seq<u8>, ctx: C) -> bool {
        self == signed(bytes[0] as nat, 1)
    }

    fn try_read(bytes: &[u8], _ctx: C) -> (r: Result<(Self, usize), Error>) {
        check_len(bytes, 1)?;
        proof {
            lemma_radix_values();
        }
        Ok((of_pattern(bytes[0] as u128, 0x80) as i8, 1))
    }
}

impl<C> TryWrite<C> for i8 {
    open spec fn write_len(self, room: nat, ctx: C) -> Result<nat, Error> {
        fixed_len(room, 1)
    }

    /// The byte that is the number's two's complement pattern.
    open spec fn written(self, ctx: C) -> Seq<u8> {
        seq![unsigned(self as int, 1) as u8]
    }

    fn try_write(self, bytes: &mut [u8], _ctx: C) -> (r: Result<usize, Error>)
        ensures
            r is Err ==> final(bytes)@ == old(bytes)@,
    {
        check_len(bytes, 1)?;
        proof {
            lemma_radix_values();
        }
        bytes[0] = pattern_of(self as i128, 0x80) as u8;
        assert(bytes@ =~= seq![unsigned(self as int, 1) as u8] + old(bytes)@.skip(1));
        Ok(1)
    }
}

} // verus!
