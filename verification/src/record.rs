//! Records: how a type made of several fields becomes readable and writable.
//!
//! A record reads its fields one after the other through [`BytesExt`], against an offset of
//! its own that starts at zero, and hands that offset back as the number of bytes it
//! consumed; it writes them the same way. A later field may be read under a context that an
//! earlier field decides, as the name of a [`Header`] is read under the length that stands
//! before it.

use vstd::prelude::*;
use vstd::utf8::{decode_utf8, encode_utf8, valid_utf8};
use crate::ctx::radix::{lemma_radix_values, lemma_reorder_value, number, number_bytes};
use crate::ctx::{Endianess, Len};
use crate::error::Error;
use crate::ext::BytesExt;
use crate::traits::{TryRead, TryWrite};

verus! {

/// A record without fields. It takes no bytes, and reading and writing it never fail.
#[derive(Debug, Clone, Copy, PartialEq, Eq)]
pub struct Empty;

impl<'a, C> TryRead<'a, C> for Empty {
    open spec fn read_len(bytes: Seq<u8>, ctx: C) -> Result<nat, Error> {
        Ok(0nat)
    }

    open spec fn read_from(self, bytes: Seq<u8>, ctx: C) -> bool {
        true
    }

    fn try_read(bytes: &'a [u8], _ctx: C) -> (r: Result<(Self, usize), Error>) {
        Ok((Empty, 0))
    }
}

impl<C> TryWrite<C> for Empty {
    open spec fn write_len(self, room: nat, ctx: C) -> Result<nat, Error> {
        Ok(0nat)
    }

    open spec fn written(self, ctx: C) -> Seq<u8> {
        Seq::empty()
    }

    fn try_write(self, bytes: &mut [u8], _ctx: C) -> (r: Result<usize, Error>)
        ensures
            final(bytes)@ == old(bytes)@,
    {
        assert(bytes@ =~= Seq::<u8>::empty() + bytes@.skip(0));
        Ok(0)
    }
}

/// A record of a name and a flag. In bytes it is the length of the name as a 16-bit number
/// in the byte order of the context, the name in UTF-8, and the flag as a boolean.
pub struct Header<'a> {
    pub name: &'a str,
    pub enabled: bool,
}

/// The number of bytes that the name of a header takes, as the two bytes at the head of
/// `bytes` give it.
pub open spec fn header_name_len(bytes: Seq<u8>, little: bool) -> nat {
    number(bytes.take(2), little)
}

/// The number of bytes that a header at the head of `bytes` takes, or the error that
/// reading it fails with: `Incomplete` where a field runs beyond the buffer, `BadInput`
/// where the name is there and is not valid UTF-8.
pub open spec fn header_len(bytes: Seq<u8>, little: bool) -> Result<nat, Error> {
    let n = header_name_len(bytes, little);
    if bytes.len() < 2 || bytes.len() < 2 + n {
        Err(Error::Incomplete)
    } else if !valid_utf8(bytes.subrange(2, 2 + n as int)) {
        Err(Error::BadInput { err: "UTF8 Error" })
    } else if bytes.len() < 2 + n + 1 {
        Err(Error::Incomplete)
    } else {
        Ok(2 + n + 1)
    }
}

/// The bytes of a header: the length of the name, cut to 16 bits, the name and the flag.
pub open spec fn header_bytes(name: Seq<char>, enabled: bool, little: bool) -> Seq<u8> {
    number_bytes(encode_utf8(name).len() % 0x1_0000, 2, little) + encode_utf8(name) + seq![
        if enabled {
            0xffu8
        } else {
            0u8
        },
    ]
}

impl<'a, C: Endianess> TryRead<'a, C> for Header<'a> {
    open spec fn read_len(bytes: Seq<u8>, ctx: C) -> Result<nat, Error> {
        header_len(bytes, C::little())
    }

    open spec fn read_from(self, bytes: Seq<u8>, ctx: C) -> bool {
        let n = header_name_len(bytes, C::little());
        &&& self.name@ == decode_utf8(bytes.subrange(2, 2 + n as int))
        &&& self.enabled == (bytes[2 + n as int] != 0)
    }

    fn try_read(bytes: &'a [u8], endian: C) -> (r: Result<(Self, usize), Error>) {
        let mut offset: usize = 0;
        proof {
            lemma_reorder_value(bytes@.take(2), C::little());
            lemma_radix_values();
        }
        assert(bytes@.skip(0) =~= bytes@);
        let length: u16 = bytes.read_with::<u16>(&mut offset, endian)?;
        let name_len: usize = length as usize;
        proof {
            if 2 + name_len <= bytes@.len() {
                assert(bytes@.skip(2).take(name_len as int) =~= bytes@.subrange(2, 2 + name_len));
            }
        }
        let name: &str = bytes.read_with::<&str>(&mut offset, Len(name_len))?;
        let enabled: bool = bytes.read(&mut offset)?;
        Ok((Header { name, enabled }, offset))
    }
}

impl<'a, C: Endianess> TryWrite<C> for Header<'a> {
    open spec fn write_len(self, room: nat, ctx: C) -> Result<nat, Error> {
        let n = encode_utf8(self.name@).len();
        if room < 2 + n + 1 {
            Err(Error::Incomplete)
        } else {
            Ok(2 + n + 1)
        }
    }

    open spec fn written(self, ctx: C) -> Seq<u8> {
        header_bytes(self.name@, self.enabled, C::little())
    }

    fn try_write(self, bytes: &mut [u8], endian: C) -> (r: Result<usize, Error>) {
        let mut offset: usize = 0;
        let length: u16 = (self.name.len() % 0x1_0000) as u16;
        assert(number_bytes(length as nat, 2, C::little()).len() == 2);
        bytes.write_with(&mut offset, length, endian)?;
        let ghost first = bytes@;
        bytes.write(&mut offset, self.name)?;
        let ghost second = bytes@;
        bytes.write(&mut offset, self.enabled)?;
        proof {
            let n = encode_utf8(self.name@).len();
            assert(first.take(2) =~= number_bytes(length as nat, 2, C::little()));
            assert(second.take(2 + n as int) =~= first.take(2) + encode_utf8(self.name@));
            assert(bytes@ =~= self.written(endian) + old(bytes)@.skip(2 + n as int + 1));
        }
        Ok(offset)
    }
}

/// Reading what writing a header produced gives the header back and consumes all of its
/// bytes, in every byte order and whatever follows them, provided the name's length fits
/// the 16 bits that it is written in.
pub proof fn law_round_trip_header<'a, C: Endianess>(header: Header<'a>, ctx: C, rest: Seq<u8>)
    requires
        encode_utf8(header.name@).len() < 0x1_0000,
    ensures
        <Header<'a> as TryRead<'a, C>>::read_len(header.written(ctx) + rest, ctx) == Ok::<
            nat,
            Error,
        >(header.written(ctx).len()),
        forall|other: Header<'a>|
            <Header<'a> as TryRead<'a, C>>::read_from(other, header.written(ctx) + rest, ctx) <==> (
            other.name@ == header.name@ && other.enabled == header.enabled),
{
    let text = encode_utf8(header.name@);
    let n = text.len();
    let head = number_bytes(n, 2, C::little());
    let all = header.written(ctx) + rest;
    lemma_radix_values();
    crate::laws::lemma_number_round_trip(n, 2, C::little(), text + seq![
        if header.enabled {
            0xffu8
        } else {
            0u8
        },
    ] + rest);
    assert(all.take(2) =~= head);
    assert(all.subrange(2, 2 + n as int) =~= text);
    vstd::utf8::encode_utf8_valid_utf8(header.name@);
    vstd::utf8::encode_utf8_decode_utf8(header.name@);
}

} // verus!
