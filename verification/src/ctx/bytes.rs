//! Byte runs: a view into the buffer of a fixed length, or up to and including a pattern.

use vstd::prelude::*;
use crate::ctx::scan::{copy_to_head, find, first_occurrence, window};
use crate::ctx::{Len, Pattern, PatternUntil};
use crate::error::{check_len, fixed_len, Error};
use crate::traits::{TryRead, TryWrite};

verus! {

/// The length of the shortest head of `bytes` that ends with `pattern`. An empty pattern is
/// a `BadInput`, whatever the bytes; a pattern that does not occur leaves the value
/// `Incomplete`.
pub open spec fn pattern_len(bytes: Seq<u8>, pattern: Seq<u8>) -> Result<nat, Error> {
    if pattern.len() == 0 {
        Err(Error::BadInput { err: "Pattern is empty" })
    } else {
        match first_occurrence(bytes, pattern) {
            Some(i) => Ok((i + pattern.len()) as nat),
            None => Err(Error::Incomplete),
        }
    }
}

/// The length of the shortest head of `bytes` that ends with `pattern` and is no longer
/// than `max`; `max`, where there is no such head and `bytes` holds `max` bytes. A pattern
/// that is empty or longer than `max` is a `BadInput`, whatever the bytes.
pub open spec fn pattern_until_len(bytes: Seq<u8>, pattern: Seq<u8>, max: nat) -> Result<
    nat,
    Error,
> {
    if pattern.len() == 0 {
        Err(Error::BadInput { err: "Pattern is empty" })
    } else if pattern.len() > max {
        Err(Error::BadInput { err: "Pattern is longer than restricted length" })
    } else {
        match first_occurrence(window(bytes, max), pattern) {
            Some(i) => Ok((i + pattern.len()) as nat),
            None => fixed_len(bytes.len(), max),
        }
    }
}

impl<'a> TryRead<'a, Len> for &'a [u8] {
    open spec fn read_len(bytes: Seq<u8>, ctx: Len) -> Result<nat, Error> {
        fixed_len(bytes.len(), ctx.0 as nat)
    }

    /// The value is the bytes consumed.
    open spec fn read_from(self, bytes: Seq<u8>, ctx: Len) -> bool {
        self@ == bytes.take(ctx.0 as int)
    }

    fn try_read(bytes: &'a [u8], ctx: Len) -> (r: Result<(Self, usize), Error>) {
        let len: usize = ctx.0;
        check_len(bytes, len)?;
        Ok((&bytes[0..len], len))
    }
}

impl<'a> TryRead<'a, Pattern> for &'a [u8] {
    open spec fn read_len(bytes: Seq<u8>, ctx: Pattern) -> Result<nat, Error> {
        pattern_len(bytes, ctx.0@)
    }

    /// The value is the bytes consumed, the pattern among them.
    open spec fn read_from(self, bytes: Seq<u8>, ctx: Pattern) -> bool {
        pattern_len(bytes, ctx.0@) matches Ok(n) && self@ == bytes.take(n as int)
    }

    fn try_read(bytes: &'a [u8], ctx: Pattern) -> (r: Result<(Self, usize), Error>) {
        let pattern: &[u8] = ctx.0;
        if pattern.len() == 0 {
            return Err(Error::BadInput { err: "Pattern is empty" });
        }
        match find(bytes, pattern) {
            Some(i) => {
                let len: usize = i + pattern.len();
                Ok((&bytes[0..len], len))
            },
            None => Err(Error::Incomplete),
        }
    }
}

impl<'a> TryRead<'a, PatternUntil> for &'a [u8] {
    open spec fn read_len(bytes: Seq<u8>, ctx: PatternUntil) -> Result<nat, Error> {
        pattern_until_len(bytes, ctx.0@, ctx.1 as nat)
    }

    /// The value is the bytes consumed.
    open spec fn read_from(self, bytes: Seq<u8>, ctx: PatternUntil) -> bool {
        pattern_until_len(bytes, ctx.0@, ctx.1 as nat) matches Ok(n) && self@ == bytes.take(
            n as int,
        )
    }

    fn try_read(bytes: &'a [u8], ctx: PatternUntil) -> (r: Result<(Self, usize), Error>) {
        let pattern: &[u8] = ctx.0;
        let max: usize = ctx.1;
        if pattern.len() == 0 {
            return Err(Error::BadInput { err: "Pattern is empty" });
        }
        if pattern.len() > max {
            return Err(Error::BadInput { err: "Pattern is longer than restricted length" });
        }
        let limit: usize = if max <= bytes.len() {
            max
        } else {
            bytes.len()
        };
        assert(bytes@.subrange(0, limit as int) =~= window(bytes@, max as nat));
        let len: usize = match find(&bytes[0..limit], pattern) {
            Some(i) => i + pattern.len(),
            None => check_len(bytes, max)?,
        };
        Ok((&bytes[0..len], len))
    }
}

impl<'a> TryWrite for &'a [u8] {
    open spec fn write_len(self, room: nat, ctx: ()) -> Result<nat, Error> {
        fixed_len(room, self@.len())
    }

    /// The bytes themselves.
    open spec fn written(self, ctx: ()) -> Seq<u8> {
        self@
    }

    fn try_write(self, bytes: &mut [u8], _ctx: ()) -> (r: Result<usize, Error>)
        ensures
            r is Err ==> final(bytes)@ == old(bytes)@,
    {
        check_len(bytes, self.len())?;
        copy_to_head(bytes, self);
        Ok(self.len())
    }
}

} // verus!
