//! The two traits that make a type readable from, and writable to, a byte slice.
//!
//! Each trait pairs its executable method with spec functions that say what the method
//! must do. An implementation defines the spec functions and proves its method against them;
//! generic code, such as the offset-tracking methods of [`crate::BytesExt`], reasons about
//! any implementation through them.
//!
//! The spec functions are left unspecified where an implementation does not define them.
//! Nothing can then be proved of what it reads or writes, so a verified implementation
//! defines them; one that is compiled and not verified needs only the executable method.

use vstd::prelude::*;
use crate::error::Error;

verus! {

/// A type that can be decoded from the head of a byte slice, as directed by a context `C`.
pub trait TryRead<'a, C = ()>: Sized {
    /// The number of bytes that decoding `bytes` under `ctx` consumes, or the error that
    /// the decoding fails with.
    open spec fn read_len(bytes: Seq<u8>, ctx: C) -> Result<nat, Error> {
        arbitrary()
    }

    /// Whether `self` is the value that `bytes` decode to under `ctx`. Only asked where
    /// `read_len(bytes, ctx)` is `Ok`.
    open spec fn read_from(self, bytes: Seq<u8>, ctx: C) -> bool {
        arbitrary()
    }

    /// Decodes a value from the head of `bytes`. On success it returns the value together
    /// with the number of bytes consumed, which never exceeds what `bytes` holds.
    fn try_read(bytes: &'a [u8], ctx: C) -> (r: Result<(Self, usize), Error>)
        ensures
            match r {
                Ok((v, n)) => {
                    &&& Self::read_len(bytes@, ctx) == Ok::<nat, Error>(n as nat)
                    &&& n <= bytes@.len()
                    &&& v.read_from(bytes@, ctx)
                },
                Err(e) => Self::read_len(bytes@, ctx) == Err::<nat, Error>(e),
            },
    ;
}

/// A type that can be encoded into the head of a byte slice, as directed by a context `C`.
pub trait TryWrite<C = ()>: Sized {
    /// The number of bytes that encoding `self` under `ctx` writes into a buffer of `room`
    /// bytes, or the error that the encoding fails with.
    open spec fn write_len(self, room: nat, ctx: C) -> Result<nat, Error> {
        arbitrary()
    }

    /// The bytes that `self` encodes to under `ctx`.
    open spec fn written(self, ctx: C) -> Seq<u8> {
        arbitrary()
    }

    /// Encodes `self` into the head of `bytes`. On success it returns the number of bytes
    /// written; these are the encoding of `self`, and the bytes behind them are untouched.
    fn try_write(self, bytes: &mut [u8], ctx: C) -> (r: Result<usize, Error>)
        ensures
            final(bytes)@.len() == old(bytes)@.len(),
            match r {
                Ok(n) => {
                    &&& self.write_len(old(bytes)@.len(), ctx) == Ok::<nat, Error>(n as nat)
                    &&& n == self.written(ctx).len()
                    &&& n <= old(bytes)@.len()
                    &&& final(bytes)@ == self.written(ctx) + old(bytes)@.skip(n as int)
                },
                Err(e) => self.write_len(old(bytes)@.len(), ctx) == Err::<nat, Error>(e),
            },
    ;
}

} // verus!
