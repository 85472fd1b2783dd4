//! UTF-8 text: a view into the buffer of a fixed length, or up to a delimiter byte.

use vstd::prelude::*;
use vstd::utf8::{decode_utf8, encode_utf8, valid_utf8};
use crate::ctx::scan::{copy_to_head, find_byte, first_occurrence, window};
use crate::ctx::{Delimiter, DelimiterUntil, Len};
use crate::error::{check_len, fixed_len, Error};
use crate::traits::{TryRead, TryWrite};

verus! {

/// Null string delimiter
pub const NULL: u8 = 0;

/// Space string delimiter
pub const SPACE: u8 = 0x20;

/// Return string delimiter
pub const RET: u8 = 0x0a;

/// Tab string delimiter
pub const TAB: u8 = 0x09;

/// Where a text of exactly `len` bytes ends: the length of the text and the number of
/// bytes consumed, which are the same.
pub open spec fn fixed_span(bytes: Seq<u8>, len: nat) -> Result<(nat, nat), Error> {
    if bytes.len() < len {
        Err(Error::Incomplete)
    } else {
        Ok((len, len))
    }
}

/// Where a text that runs up to the leftmost `delimiter` ends: the length of the text and
/// the number of bytes consumed, which counts the delimiter. Without a delimiter the text
/// is `Incomplete`.
pub open spec fn delimited_span(bytes: Seq<u8>, delimiter: u8) -> Result<(nat, nat), Error> {
    match first_occurrence(bytes, seq![delimiter]) {
        Some(i) => Ok((i as nat, (i + 1) as nat)),
        None => Err(Error::Incomplete),
    }
}

/// Where a text that runs up to the leftmost `delimiter` among the first `max` bytes ends.
/// Without a delimiter there, the text is the first `max` bytes and nothing more is
/// consumed; it is `Incomplete` where there are fewer than `max` bytes.
pub open spec fn delimited_until_span(bytes: Seq<u8>, delimiter: u8, max: nat) -> Result<
    (nat, nat),
    Error,
> {
    match first_occurrence(window(bytes, max), seq![delimiter]) {
        Some(i) => Ok((i as nat, (i + 1) as nat)),
        None => fixed_span(bytes, max),
    }
}

/// The number of bytes that reading a text consumes, given where it ends: the text's bytes
/// have to be valid UTF-8, else the read is a `BadInput`.
pub open spec fn text_len(bytes: Seq<u8>, span: Result<(nat, nat), Error>) -> Result<nat, Error> {
    match span {
        Ok((len, consumed)) => if valid_utf8(bytes.take(len as int)) {
            Ok(consumed)
        } else {
            Err(Error::BadInput { err: "UTF8 Error" })
        },
        Err(e) => Err(e),
    }
}

/// Whether `text` is what the bytes of the span spell in UTF-8.
pub open spec fn text_from(text: Seq<char>, bytes: Seq<u8>, span: Result<(nat, nat), Error>) -> bool {
    span matches Ok((len, _)) && text == decode_utf8(bytes.take(len as int))
}

/// The text that `bytes` spell in UTF-8, or `None` where they are not valid UTF-8. This is
/// `core::str::from_utf8`, which is taken on trust to accept exactly the valid encodings
/// and to hand back a string of the very bytes it was given.
#[verifier::external_body]
fn utf8_text<'a>(bytes: &'a [u8]) -> (r: Option<&'a str>)
    ensures
        r is Some <==> valid_utf8(bytes@),
        r matches Some(s) ==> encode_utf8(s@) == bytes@,
{
    match core::str::from_utf8(bytes) {
        Ok(s) => Some(s),
        Err(_) => None,
    }
}

/// Reads the first `len` bytes of `bytes` as text, consuming `consumed` bytes.
fn text_of<'a>(bytes: &'a [u8], len: usize, consumed: usize) -> (r: Result<(&'a str, usize), Error>)
    requires
        len <= consumed <= bytes@.len(),
    ensures
        match r {
            Ok((s, n)) => {
                &&& text_len(bytes@, Ok((len as nat, consumed as nat))) == Ok::<nat, Error>(n as nat)
                &&& n == consumed
                &&& text_from(s@, bytes@, Ok((len as nat, consumed as nat)))
            },
            Err(e) => text_len(bytes@, Ok((len as nat, consumed as nat))) == Err::<nat, Error>(e),
        },
{
    match utf8_text(&bytes[0..len]) {
        Some(s) => {
            proof {
                vstd::utf8::encode_utf8_decode_utf8(s@);
            }
            Ok((s, consumed))
        },
        None => Err(Error::BadInput { err: "UTF8 Error" }),
    }
}

impl<'a> TryRead<'a, Len> for &'a str {
    open spec fn read_len(bytes: Seq<u8>, ctx: Len) -> Result<nat, Error> {
        text_len(bytes, fixed_span(bytes, ctx.0 as nat))
    }

    open spec fn read_from(self, bytes: Seq<u8>, ctx: Len) -> bool {
        text_from(self@, bytes, fixed_span(bytes, ctx.0 as nat))
    }

    fn try_read(bytes: &'a [u8], ctx: Len) -> (r: Result<(Self, usize), Error>) {
        let len: usize = check_len(bytes, ctx.0)?;
        text_of(bytes, len, len)
    }
}

impl<'a> TryRead<'a, Delimiter> for &'a str {
    open spec fn read_len(bytes: Seq<u8>, ctx: Delimiter) -> Result<nat, Error> {
        text_len(bytes, delimited_span(bytes, ctx.0))
    }

    open spec fn read_from(self, bytes: Seq<u8>, ctx: Delimiter) -> bool {
        text_from(self@, bytes, delimited_span(bytes, ctx.0))
    }

    fn try_read(bytes: &'a [u8], ctx: Delimiter) -> (r: Result<(Self, usize), Error>) {
        match find_byte(bytes, ctx.0) {
            Some(position) => {
                text_of(bytes, position, position + 1)
            },
            None => Err(Error::Incomplete),
        }
    }
}

impl<'a> TryRead<'a, DelimiterUntil> for &'a str {
    open spec fn read_len(bytes: Seq<u8>, ctx: DelimiterUntil) -> Result<nat, Error> {
        text_len(bytes, delimited_until_span(bytes, ctx.0, ctx.1 as nat))
    }

    open spec fn read_from(self, bytes: Seq<u8>, ctx: DelimiterUntil) -> bool {
        text_from(self@, bytes, delimited_until_span(bytes, ctx.0, ctx.1 as nat))
    }

    fn try_read(bytes: &'a [u8], ctx: DelimiterUntil) -> (r: Result<(Self, usize), Error>) {
        let max: usize = ctx.1;
        let limit: usize = if max <= bytes.len() {
            max
        } else {
            bytes.len()
        };
        assert(bytes@.subrange(0, limit as int) =~= window(bytes@, max as nat));
        match find_byte(&bytes[0..limit], ctx.0) {
            Some(position) => {
                text_of(bytes, position, position + 1)
            },
            None => {
                let len: usize = check_len(bytes, max)?;
                text_of(bytes, len, len)
            },
        }
    }
}

impl<'a> TryWrite for &'a str {
    open spec fn write_len(self, room: nat, ctx: ()) -> Result<nat, Error> {
        fixed_len(room, encode_utf8(self@).len())
    }

    /// The UTF-8 encoding of the text.
    open spec fn written(self, ctx: ()) -> Seq<u8> {
        encode_utf8(self@)
    }

    fn try_write(self, bytes: &mut [u8], _ctx: ()) -> (r: Result<usize, Error>)
        ensures
            r is Err ==> final(bytes)@ == old(bytes)@,
    {
        let str_bytes: &[u8] = self.as_bytes();
        check_len(bytes, str_bytes.len())?;
        copy_to_head(bytes, str_bytes);
        Ok(str_bytes.len())
    }
}

} // verus!
