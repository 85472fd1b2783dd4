//! Padding: bytes that are skipped, up to and including a byte or a run of bytes.

use vstd::prelude::*;
use crate::ctx::scan::{find, find_byte, first_occurrence};
use crate::error::Error;
use crate::traits::TryRead;

verus! {

/// A run of bytes that carries nothing.
#[derive(Debug, Default, Copy, Clone, Eq, PartialEq)]
pub struct Padding;

/// Where padding ends.
pub enum Ctx {
    /// Behind the leftmost occurrence of this byte.
    UntilByte(u8),
    /// Behind the leftmost occurrence of this run of bytes.
    UntilSlice(&'static [u8]),
}

/// The length of the padding at the head of `bytes`: it runs through the leftmost
/// occurrence of what ends it, and is `Incomplete` without one.
pub open spec fn padding_len(bytes: Seq<u8>, ctx: Ctx) -> Result<nat, Error> {
    let end = match ctx {
        Ctx::UntilByte(byte) => seq![byte],
        Ctx::UntilSlice(slice) => slice@,
    };
    match first_occurrence(bytes, end) {
        Some(i) => Ok((i + end.len()) as nat),
        None => Err(Error::Incomplete),
    }
}

impl<'a> TryRead<'a, Ctx> for Padding {
    open spec fn read_len(bytes: Seq<u8>, ctx: Ctx) -> Result<nat, Error> {
        padding_len(bytes, ctx)
    }

    open spec fn read_from(self, bytes: Seq<u8>, ctx: Ctx) -> bool {
        true
    }

    fn try_read(bytes: &'a [u8], ctx: Ctx) -> (r: Result<(Self, usize), Error>) {
        let found: Option<usize> = match ctx {
            Ctx::UntilByte(byte) => match find_byte(bytes, byte) {
                Some(i) => Some(i + 1),
                None => None,
            },
            Ctx::UntilSlice(slice) => match find(bytes, slice) {
                Some(i) => Some(i + slice.len()),
                None => None,
            },
        };
        match found {
            Some(len) => Ok((Padding, len)),
            None => Err(Error::Incomplete),
        }
    }
}

} // verus!
