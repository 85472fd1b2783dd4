//! Laws that the codecs obey, each stated over the spec functions that the contracts of the
//! codecs use, and proved.

use vstd::prelude::*;
use vstd::utf8::{encode_utf8, valid_utf8};
use crate::ctx::bytes::{pattern_len, pattern_until_len};
use crate::ctx::num::{lemma_word, word};
use crate::ctx::padding::padding_len;
use crate::ctx::radix::{
    lemma_be_round_trip, lemma_le_round_trip, lemma_radix_values, lemma_signed_unsigned, number,
    number_bytes, radix, unsigned,
};
use crate::ctx::scan::{
    first_occurrence, lemma_first_occurrence, lemma_occurs_at_byte, occurs_at, window,
};
use crate::ctx::text::{delimited_span, delimited_until_span, text_len};
use crate::ctx::{Ctx, Delimiter, DelimiterUntil, Endianess, Len};
use crate::error::{fixed_len, Error};
use crate::ext::{read_at, write_at};
use crate::traits::{TryRead, TryWrite};

verus! {

/// The bytes of a number of `n` bytes spell that number again, in either byte order.
pub proof fn lemma_number_round_trip(x: nat, n: nat, little: bool, rest: Seq<u8>)
    requires
        x < radix(n),
    ensures
        number_bytes(x, n, little).len() == n,
        (number_bytes(x, n, little) + rest).take(n as int) == number_bytes(x, n, little),
        number(number_bytes(x, n, little), little) == x,
{
    assert((number_bytes(x, n, little) + rest).take(n as int) =~= number_bytes(x, n, little));
    lemma_le_round_trip(x, n);
    lemma_be_round_trip(x, n);
}

/// Reading what writing a `u16` produced gives the number back and consumes all of its
/// bytes, in every byte order and whatever follows them.
pub proof fn law_round_trip_u16<'a, C: Endianess>(v: u16, ctx: C, rest: Seq<u8>)
    ensures
        v.written(ctx).len() == 2,
        <u16 as TryRead<'a, C>>::read_len(v.written(ctx) + rest, ctx) == Ok::<nat, Error>(2),
        forall|w: u16| <u16 as TryRead<'a, C>>::read_from(w, v.written(ctx) + rest, ctx) <==> w == v,
{
    lemma_radix_values();
    lemma_number_round_trip(v as nat, 2, C::little(), rest);
}

/// Reading what writing a `u32` produced gives the number back and consumes all of its
/// bytes, in every byte order and whatever follows them.
pub proof fn law_round_trip_u32<'a, C: Endianess>(v: u32, ctx: C, rest: Seq<u8>)
    ensures
        v.written(ctx).len() == 4,
        <u32 as TryRead<'a, C>>::read_len(v.written(ctx) + rest, ctx) == Ok::<nat, Error>(4),
        forall|w: u32| <u32 as TryRead<'a, C>>::read_from(w, v.written(ctx) + rest, ctx) <==> w == v,
{
    lemma_radix_values();
    lemma_number_round_trip(v as nat, 4, C::little(), rest);
}

/// Reading what writing a `u64` produced gives the number back and consumes all of its
/// bytes, in every byte order and whatever follows them.
pub proof fn law_round_trip_u64<'a, C: Endianess>(v: u64, ctx: C, rest: Seq<u8>)
    ensures
        v.written(ctx).len() == 8,
        <u64 as TryRead<'a, C>>::read_len(v.written(ctx) + rest, ctx) == Ok::<nat, Error>(8),
        forall|w: u64| <u64 as TryRead<'a, C>>::read_from(w, v.written(ctx) + rest, ctx) <==> w == v,
{
    lemma_radix_values();
    lemma_number_round_trip(v as nat, 8, C::little(), rest);
}

/// Reading what writing a `u128` produced gives the number back and consumes all of its
/// bytes, in every byte order and whatever follows them.
pub proof fn law_round_trip_u128<'a, C: Endianess>(v: u128, ctx: C, rest: Seq<u8>)
    ensures
        v.written(ctx).len() == 16,
        <u128 as TryRead<'a, C>>::read_len(v.written(ctx) + rest, ctx) == Ok::<nat, Error>(16),
        forall|w: u128| <u128 as TryRead<'a, C>>::read_from(w, v.written(ctx) + rest, ctx) <==> w == v,
{
    lemma_radix_values();
    lemma_number_round_trip(v as nat, 16, C::little(), rest);
}

/// Reading what writing a `usize` produced gives the number back and consumes all of its
/// bytes, in every byte order and whatever follows them.
pub proof fn law_round_trip_usize<'a, C: Endianess>(v: usize, ctx: C, rest: Seq<u8>)
    ensures
        v.written(ctx).len() == word(),
        <usize as TryRead<'a, C>>::read_len(v.written(ctx) + rest, ctx) == Ok::<nat, Error>(word()),
        forall|w: usize| <usize as TryRead<'a, C>>::read_from(w, v.written(ctx) + rest, ctx) <==> w == v,
{
    lemma_word();
    lemma_radix_values();
    lemma_number_round_trip(v as nat, word(), C::little(), rest);
}

/// Reading what writing an `i16` produced gives the number back and consumes all of its
/// bytes, in every byte order and whatever follows them.
pub proof fn law_round_trip_i16<'a, C: Endianess>(v: i16, ctx: C, rest: Seq<u8>)
    ensures
        v.written(ctx).len() == 2,
        <i16 as TryRead<'a, C>>::read_len(v.written(ctx) + rest, ctx) == Ok::<nat, Error>(2),
        forall|w: i16| <i16 as TryRead<'a, C>>::read_from(w, v.written(ctx) + rest, ctx) <==> w == v,
{
    lemma_radix_values();
    lemma_signed_unsigned(v as int, 2);
    lemma_number_round_trip(unsigned(v as int, 2), 2, C::little(), rest);
}

/// Reading what writing an `i32` produced gives the number back and consumes all of its
/// bytes, in every byte order and whatever follows them.
pub proof fn law_round_trip_i32<'a, C: Endianess>(v: i32, ctx: C, rest: Seq<u8>)
    ensures
        v.written(ctx).len() == 4,
        <i32 as TryRead<'a, C>>::read_len(v.written(ctx) + rest, ctx) == Ok::<nat, Error>(4),
        forall|w: i32| <i32 as TryRead<'a, C>>::read_from(w, v.written(ctx) + rest, ctx) <==> w == v,
{
    lemma_radix_values();
    lemma_signed_unsigned(v as int, 4);
    lemma_number_round_trip(unsigned(v as int, 4), 4, C::little(), rest);
}

/// Reading what writing an `i64` produced gives the number back and consumes all of its
/// bytes, in every byte order and whatever follows them.
pub proof fn law_round_trip_i64<'a, C: Endianess>(v: i64, ctx: C, rest: Seq<u8>)
    ensures
        v.written(ctx).len() == 8,
        <i64 as TryRead<'a, C>>::read_len(v.written(ctx) + rest, ctx) == Ok::<nat, Error>(8),
        forall|w: i64| <i64 as TryRead<'a, C>>::read_from(w, v.written(ctx) + rest, ctx) <==> w == v,
{
    lemma_radix_values();
    lemma_signed_unsigned(v as int, 8);
    lemma_number_round_trip(unsigned(v as int, 8), 8, C::little(), rest);
}

/// Reading what writing an `i128` produced gives the number back and consumes all of its
/// bytes, in every byte order and whatever follows them.
pub proof fn law_round_trip_i128<'a, C: Endianess>(v: i128, ctx: C, rest: Seq<u8>)
    ensures
        v.written(ctx).len() == 16,
        <i128 as TryRead<'a, C>>::read_len(v.written(ctx) + rest, ctx) == Ok::<nat, Error>(16),
        forall|w: i128| <i128 as TryRead<'a, C>>::read_from(w, v.written(ctx) + rest, ctx) <==> w == v,
{
    lemma_radix_values();
    lemma_signed_unsigned(v as int, 16);
    lemma_number_round_trip(unsigned(v as int, 16), 16, C::little(), rest);
}

/// Reading what writing an `isize` produced gives the number back and consumes all of its
/// bytes, in every byte order and whatever follows them.
pub proof fn law_round_trip_isize<'a, C: Endianess>(v: isize, ctx: C, rest: Seq<u8>)
    ensures
        v.written(ctx).len() == word(),
        <isize as TryRead<'a, C>>::read_len(v.written(ctx) + rest, ctx) == Ok::<nat, Error>(word()),
        forall|w: isize| <isize as TryRead<'a, C>>::read_from(w, v.written(ctx) + rest, ctx) <==> w == v,
{
    lemma_word();
    lemma_radix_values();
    lemma_signed_unsigned(v as int, word());
    lemma_number_round_trip(unsigned(v as int, word()), word(), C::little(), rest);
}

/// Reading what writing a `u8` produced gives the byte back and consumes it, under every
/// context and whatever follows it.
pub proof fn law_round_trip_u8<'a, C>(v: u8, ctx: C, rest: Seq<u8>)
    ensures
        v.written(ctx).len() == 1,
        <u8 as TryRead<'a, C>>::read_len(v.written(ctx) + rest, ctx) == Ok::<nat, Error>(1),
        forall|w: u8| <u8 as TryRead<'a, C>>::read_from(w, v.written(ctx) + rest, ctx) <==> w == v,
{
}

/// Reading what writing an `i8` produced gives the number back and consumes its byte,
/// under every context and whatever follows it.
pub proof fn law_round_trip_i8<'a, C>(v: i8, ctx: C, rest: Seq<u8>)
    ensures
        v.written(ctx).len() == 1,
        <i8 as TryRead<'a, C>>::read_len(v.written(ctx) + rest, ctx) == Ok::<nat, Error>(1),
        forall|w: i8| <i8 as TryRead<'a, C>>::read_from(w, v.written(ctx) + rest, ctx) <==> w == v,
{
    lemma_radix_values();
    lemma_signed_unsigned(v as int, 1);
}

/// `true` is written as the byte `0xff` and `false` as the byte `0x00`; every byte but zero
/// reads as `true`, and zero reads as `false`. So a boolean that was written is read back.
pub proof fn law_boolean(byte: u8, rest: Seq<u8>)
    ensures
        true.written(()) == seq![0xffu8],
        false.written(()) == seq![0x00u8],
        <bool as TryRead>::read_len(seq![byte] + rest, ()) == Ok::<nat, Error>(1),
        forall|v: bool| <bool as TryRead>::read_from(v, seq![byte] + rest, ()) <==> v == (byte != 0),
{
}

/// Reading what writing a run of bytes produced, under its length, gives the bytes back
/// and consumes all of them, whatever follows them.
pub proof fn law_round_trip_bytes<'a>(v: &'a [u8], rest: Seq<u8>)
    requires
        v@.len() <= usize::MAX,
    ensures
        v.written(()) == v@,
        <&'a [u8] as TryRead<'a, Len>>::read_len(v.written(()) + rest, Len(v@.len() as usize))
            == Ok::<nat, Error>(v@.len()),
        forall|w: &'a [u8]|
            <&'a [u8] as TryRead<'a, Len>>::read_from(
                w,
                v.written(()) + rest,
                Len(v@.len() as usize),
            ) <==> w@ == v@,
{
    assert((v@ + rest).take(v@.len() as int) =~= v@);
}

/// Reading what writing a text produced, under its length in bytes, gives the text back
/// and consumes all of its bytes, whatever follows them.
pub proof fn law_round_trip_text<'a>(v: &'a str, rest: Seq<u8>)
    requires
        encode_utf8(v@).len() <= usize::MAX,
    ensures
        v.written(()) == encode_utf8(v@),
        <&'a str as TryRead<'a, Len>>::read_len(
            v.written(()) + rest,
            Len(encode_utf8(v@).len() as usize),
        ) == Ok::<nat, Error>(encode_utf8(v@).len()),
        forall|w: &'a str|
            <&'a str as TryRead<'a, Len>>::read_from(
                w,
                v.written(()) + rest,
                Len(encode_utf8(v@).len() as usize),
            ) <==> w@ == v@,
{
    let bytes = encode_utf8(v@);
    assert((bytes + rest).take(bytes.len() as int) =~= bytes);
    vstd::utf8::encode_utf8_valid_utf8(v@);
    vstd::utf8::encode_utf8_decode_utf8(v@);
}

/// Asking a buffer for a number of bytes gives that number exactly if the buffer holds as
/// many, and is `Incomplete` if it does not.
pub proof fn law_fixed_len(room: nat, len: nat)
    ensures
        len <= room ==> fixed_len(room, len) == Ok::<nat, Error>(len),
        len > room ==> fixed_len(room, len) == Err::<nat, Error>(Error::Incomplete),
{
}

/// A number cannot be read from fewer bytes than it takes: the read is `Incomplete`, in
/// every byte order.
pub proof fn law_short_number<'a, C: Endianess>(bytes: Seq<u8>, ctx: C)
    ensures
        bytes.len() < 1 ==> <u8 as TryRead<'a, C>>::read_len(bytes, ctx) == Err::<nat, Error>(
            Error::Incomplete,
        ),
        bytes.len() < 1 ==> <i8 as TryRead<'a, C>>::read_len(bytes, ctx) == Err::<nat, Error>(
            Error::Incomplete,
        ),
        bytes.len() < 2 ==> <u16 as TryRead<'a, C>>::read_len(bytes, ctx) == Err::<nat, Error>(
            Error::Incomplete,
        ),
        bytes.len() < 4 ==> <u32 as TryRead<'a, C>>::read_len(bytes, ctx) == Err::<nat, Error>(
            Error::Incomplete,
        ),
        bytes.len() < 8 ==> <u64 as TryRead<'a, C>>::read_len(bytes, ctx) == Err::<nat, Error>(
            Error::Incomplete,
        ),
        bytes.len() < 16 ==> <u128 as TryRead<'a, C>>::read_len(bytes, ctx) == Err::<nat, Error>(
            Error::Incomplete,
        ),
        bytes.len() < word() ==> <usize as TryRead<'a, C>>::read_len(bytes, ctx) == Err::<nat, Error>(
            Error::Incomplete,
        ),
        bytes.len() < 2 ==> <i16 as TryRead<'a, C>>::read_len(bytes, ctx) == Err::<nat, Error>(
            Error::Incomplete,
        ),
        bytes.len() < 4 ==> <i32 as TryRead<'a, C>>::read_len(bytes, ctx) == Err::<nat, Error>(
            Error::Incomplete,
        ),
        bytes.len() < 8 ==> <i64 as TryRead<'a, C>>::read_len(bytes, ctx) == Err::<nat, Error>(
            Error::Incomplete,
        ),
        bytes.len() < 16 ==> <i128 as TryRead<'a, C>>::read_len(bytes, ctx) == Err::<nat, Error>(
            Error::Incomplete,
        ),
        bytes.len() < word() ==> <isize as TryRead<'a, C>>::read_len(bytes, ctx) == Err::<nat, Error>(
            Error::Incomplete,
        ),
{
}

/// A boolean cannot be read from an empty buffer: the read is `Incomplete`.
pub proof fn law_short_boolean(bytes: Seq<u8>)
    ensures
        bytes.len() < 1 ==> <bool as TryRead>::read_len(bytes, ()) == Err::<nat, Error>(
            Error::Incomplete,
        ),
{
}

/// A value of a fixed length cannot be read from fewer bytes: the read is `Incomplete`,
/// for text whatever the bytes hold.
pub proof fn law_short_len<'a>(bytes: Seq<u8>, ctx: Len)
    ensures
        bytes.len() < ctx.0 ==> <&'a [u8] as TryRead<'a, Len>>::read_len(bytes, ctx) == Err::<
            nat,
            Error,
        >(Error::Incomplete),
        bytes.len() < ctx.0 ==> <&'a str as TryRead<'a, Len>>::read_len(bytes, ctx) == Err::<
            nat,
            Error,
        >(Error::Incomplete),
{
}

/// A run of bytes that a pattern ends cannot be read from fewer bytes than the pattern has:
/// the read is `Incomplete`. With a bound this holds where the pattern is no longer than
/// the bound.
pub proof fn law_short_pattern(bytes: Seq<u8>, pattern: Seq<u8>, max: nat)
    requires
        0 < pattern.len(),
        bytes.len() < pattern.len(),
    ensures
        pattern_len(bytes, pattern) == Err::<nat, Error>(Error::Incomplete),
        pattern.len() <= max ==> pattern_until_len(bytes, pattern, max) == Err::<nat, Error>(
            Error::Incomplete,
        ),
{
    lemma_first_occurrence(bytes, pattern);
    lemma_first_occurrence(window(bytes, max), pattern);
}

/// A text that a delimiter ends cannot be read from an empty buffer: the read is
/// `Incomplete`. With a bound this holds where the bound is not zero.
pub proof fn law_short_delimiter<'a>(delimiter: u8, max: usize)
    ensures
        <&'a str as TryRead<'a, Delimiter>>::read_len(Seq::<u8>::empty(), Delimiter(delimiter))
            == Err::<nat, Error>(Error::Incomplete),
        max > 0 ==> <&'a str as TryRead<'a, DelimiterUntil>>::read_len(
            Seq::<u8>::empty(),
            DelimiterUntil(delimiter, max),
        ) == Err::<nat, Error>(Error::Incomplete),
{
    let none = Seq::<u8>::empty();
    lemma_first_occurrence(none, seq![delimiter]);
    lemma_first_occurrence(window(none, max as nat), seq![delimiter]);
}

/// A bounded read that finds nothing to end it needs as many bytes as the bound says: with
/// fewer it is `Incomplete`.
pub proof fn law_short_bound(bytes: Seq<u8>, pattern: Seq<u8>, delimiter: u8, max: nat)
    requires
        bytes.len() < max,
    ensures
        0 < pattern.len() <= max && (forall|i: int| !occurs_at(bytes, pattern, i))
            ==> pattern_until_len(bytes, pattern, max) == Err::<nat, Error>(Error::Incomplete),
        !bytes.contains(delimiter) ==> delimited_until_span(bytes, delimiter, max) == Err::<
            (nat, nat),
            Error,
        >(Error::Incomplete),
{
    lemma_first_occurrence(bytes, pattern);
    lemma_first_occurrence(bytes, seq![delimiter]);
    if !bytes.contains(delimiter) {
        if let Some(i) = first_occurrence(bytes, seq![delimiter]) {
            lemma_occurs_at_byte(bytes, delimiter, i);
        }
    }
}

/// An empty pattern is a `BadInput`, whatever the buffer holds and whatever the bound is;
/// so is a pattern that is longer than its bound.
pub proof fn law_bad_pattern(bytes: Seq<u8>, pattern: Seq<u8>, max: nat)
    ensures
        pattern.len() == 0 ==> pattern_len(bytes, pattern) == Err::<nat, Error>(
            Error::BadInput { err: "Pattern is empty" },
        ),
        pattern.len() == 0 ==> pattern_until_len(bytes, pattern, max) == Err::<nat, Error>(
            Error::BadInput { err: "Pattern is empty" },
        ),
        pattern.len() > max ==> pattern_until_len(bytes, pattern, max) is Err
            && pattern_until_len(bytes, pattern, max)->Err_0 is BadInput,
{
}

/// A read that a pattern ends consumes the shortest head of the buffer that ends with the
/// pattern: the consumed bytes end with it, and no occurrence of it ends before they do.
pub proof fn law_pattern_shortest(bytes: Seq<u8>, pattern: Seq<u8>)
    ensures
        match pattern_len(bytes, pattern) {
            Ok(n) => {
                &&& pattern.len() <= n <= bytes.len()
                &&& bytes.subrange(n - pattern.len(), n as int) == pattern
                &&& forall|i: int| #[trigger] occurs_at(bytes, pattern, i) ==> n <= i + pattern.len()
            },
            Err(e) => e == Error::Incomplete ==> forall|i: int| !occurs_at(bytes, pattern, i),
        },
{
    lemma_first_occurrence(bytes, pattern);

}

/// A bounded read that a pattern ends never consumes more than the bound. Where it
/// consumes less, the consumed bytes are the shortest head of the buffer that ends with
/// the pattern. No occurrence of the pattern ends before the consumed bytes do.
pub proof fn law_pattern_until(bytes: Seq<u8>, pattern: Seq<u8>, max: nat)
    ensures
        match pattern_until_len(bytes, pattern, max) {
            Ok(n) => {
                &&& pattern.len() <= n <= max
                &&& n <= bytes.len()
                &&& n < max ==> bytes.subrange(n - pattern.len(), n as int) == pattern
                &&& forall|i: int| #[trigger] occurs_at(bytes, pattern, i) ==> n <= i + pattern.len()
            },
            Err(_) => true,
        },
{
    let w = window(bytes, max);
    lemma_first_occurrence(w, pattern);
    if let Ok(n) = pattern_until_len(bytes, pattern, max) {
        assert forall|i: int| #[trigger] occurs_at(bytes, pattern, i) implies n <= i
            + pattern.len() by {
            if i + pattern.len() < n {
                assert(w.subrange(i, i + pattern.len()) =~= bytes.subrange(i, i + pattern.len()));
                assert(occurs_at(w, pattern, i));
            }
        }
        if let Some(i) = first_occurrence(w, pattern) {
            assert(w.subrange(i, i + pattern.len()) =~= bytes.subrange(i, i + pattern.len()));
        }
    }
}

/// A text that a delimiter ends runs up to the leftmost delimiter: the byte behind the
/// text is the delimiter, no byte of the text is, and the delimiter is consumed with it.
pub proof fn law_delimiter_leftmost(bytes: Seq<u8>, delimiter: u8)
    ensures
        match delimited_span(bytes, delimiter) {
            Ok((len, consumed)) => {
                &&& consumed == len + 1
                &&& consumed <= bytes.len()
                &&& bytes[len as int] == delimiter
                &&& forall|j: int| 0 <= j < len ==> bytes[j] != delimiter
            },
            Err(e) => e == Error::Incomplete && !bytes.contains(delimiter),
        },
{
    lemma_first_occurrence(bytes, seq![delimiter]);
    match delimited_span(bytes, delimiter) {
        Ok((len, consumed)) => {
            lemma_occurs_at_byte(bytes, delimiter, len as int);
            assert forall|j: int| 0 <= j < len implies bytes[j] != delimiter by {
                lemma_occurs_at_byte(bytes, delimiter, j);
            }
        },
        Err(e) => {
            if bytes.contains(delimiter) {
                let j = choose|j: int| 0 <= j < bytes.len() && bytes[j] == delimiter;
                lemma_occurs_at_byte(bytes, delimiter, j);
            }
        },
    }
}

/// A bounded text that a delimiter ends runs up to the leftmost delimiter among the first
/// bytes, as many as the bound says, and the delimiter is consumed with it; without a
/// delimiter there, the text is exactly those bytes and nothing more is consumed.
pub proof fn law_delimiter_until(bytes: Seq<u8>, delimiter: u8, max: nat)
    ensures
        match delimited_until_span(bytes, delimiter, max) {
            Ok((len, consumed)) => {
                &&& consumed <= bytes.len()
                &&& forall|j: int| 0 <= j < len ==> bytes[j] != delimiter
                &&& if len < max && len < bytes.len() && bytes[len as int] == delimiter {
                    consumed == len + 1
                } else {
                    consumed == len == max
                }
            },
            Err(e) => e == Error::Incomplete && bytes.len() < max && !bytes.contains(delimiter),
        },
{
    let w = window(bytes, max);
    lemma_first_occurrence(w, seq![delimiter]);
    match delimited_until_span(bytes, delimiter, max) {
        Ok((len, consumed)) => {
            lemma_occurs_at_byte(w, delimiter, len as int);
            assert forall|j: int| 0 <= j < len implies bytes[j] != delimiter by {
                lemma_occurs_at_byte(w, delimiter, j);
            }
        },
        Err(e) => {
            if bytes.contains(delimiter) {
                let j = choose|j: int| 0 <= j < bytes.len() && bytes[j] == delimiter;
                lemma_occurs_at_byte(w, delimiter, j);
            }
        },
    }
}

/// A read of text never consumes more than the buffer holds, whatever ends the text.
pub proof fn law_text_within<'a>(bytes: Seq<u8>, len: Len, one: Delimiter, until: DelimiterUntil)
    ensures
        <&'a str as TryRead<'a, Len>>::read_len(bytes, len) matches Ok(n) ==> n <= bytes.len(),
        <&'a str as TryRead<'a, Delimiter>>::read_len(bytes, one) matches Ok(n) ==> n
            <= bytes.len(),
        <&'a str as TryRead<'a, DelimiterUntil>>::read_len(bytes, until) matches Ok(n) ==> n
            <= bytes.len(),
{
    law_delimiter_leftmost(bytes, one.0);
    law_delimiter_until(bytes, until.0, until.1 as nat);
}

/// Text is read only from valid UTF-8: where the bytes of the span are not, the read is a
/// `BadInput`, and where they are, it consumes what the span says.
pub proof fn law_text_utf8(bytes: Seq<u8>, len: nat, consumed: nat)
    ensures
        text_len(bytes, Ok((len, consumed))) == if valid_utf8(bytes.take(len as int)) {
            Ok::<nat, Error>(consumed)
        } else {
            Err::<nat, Error>(Error::BadInput { err: "UTF8 Error" })
        },
{
}

/// Padding runs through the leftmost occurrence of what ends it and never beyond the
/// buffer; a buffer that is shorter than what ends the padding leaves it `Incomplete`, and
/// padding fails in no other way.
pub proof fn law_padding(bytes: Seq<u8>, ctx: Ctx)
    ensures
        padding_len(bytes, ctx) matches Ok(n) ==> n <= bytes.len(),
        padding_len(bytes, ctx) matches Err(e) ==> e == Error::Incomplete,
        ctx matches Ctx::UntilByte(_) && bytes.len() < 1 ==> padding_len(bytes, ctx) is Err,
        ctx matches Ctx::UntilSlice(slice) && bytes.len() < slice@.len() ==> padding_len(
            bytes,
            ctx,
        ) is Err,
{
    match ctx {
        Ctx::UntilByte(byte) => lemma_first_occurrence(bytes, seq![byte]),
        Ctx::UntilSlice(slice) => lemma_first_occurrence(bytes, slice@),
    }
}

/// A read at an offset ends where it started plus what it consumed: never before the
/// offset, and behind it exactly if it consumed something. An offset beyond the end of the
/// buffer is a `BadOffset`, and no read reports a `BadOffset` otherwise.
pub proof fn law_read_offset<'a, T: TryRead<'a, C>, C>(bytes: Seq<u8>, at: usize, ctx: C)
    ensures
        match read_at::<T, C>(bytes, at, ctx) {
            Ok(end) => {
                &&& at <= bytes.len()
                &&& T::read_len(bytes.skip(at as int), ctx) == Ok::<nat, Error>((end - at) as nat)
                &&& at <= end
                &&& at < end <==> T::read_len(bytes.skip(at as int), ctx) != Ok::<nat, Error>(0)
            },
            Err(e) => e is BadOffset <==> at > bytes.len(),
        },
{
}

/// A write at an offset ends where it started plus what it wrote: never before the offset,
/// and behind it exactly if it wrote something. An offset beyond the end of the buffer is a
/// `BadOffset`, and no write reports a `BadOffset` otherwise.
pub proof fn law_write_offset<T: TryWrite<C>, C>(len: nat, at: usize, t: T, ctx: C)
    ensures
        match write_at(len, at, t, ctx) {
            Ok(end) => {
                &&& at <= len
                &&& t.write_len((len - at) as nat, ctx) == Ok::<nat, Error>((end - at) as nat)
                &&& at <= end
                &&& at < end <==> t.write_len((len - at) as nat, ctx) != Ok::<nat, Error>(0)
            },
            Err(e) => e is BadOffset <==> at > len,
        },
{
}

} // verus!
