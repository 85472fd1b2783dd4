//! Booleans: one byte, zero for `false`.

use vstd::prelude::*;
use crate::error::{check_len, Error};
use crate::traits::{TryRead, TryWrite};

verus! {

impl<'a> TryRead<'a> for bool {
    open spec fn read_len(bytes: Seq<u8>, ctx: ()) -> Result<nat, Error> {
        if bytes.len() < 1 {
            Err(Error::Incomplete)
        } else {
            Ok(1nat)
        }
    }

    /// The value is `false` exactly if the byte is zero.
    open spec fn read_from(self, bytes: Seq<u8>, ctx: ()) -> bool {
        self == (bytes[0] != 0)
    }

    fn try_read(bytes: &'a [u8], _ctx: ()) -> (r: Result<(Self, usize), Error>) {
        check_len(bytes, 1)?;
        Ok((bytes[0] != 0, 1))
    }
}

impl TryWrite for bool {
    open spec fn write_len(self, room: nat, ctx: ()) -> Result<nat, Error> {
        if room < 1 {
            Err(Error::Incomplete)
        } else {
            Ok(1nat)
        }
    }

    /// `true` is written as the largest byte, `false` as zero.
    open spec fn written(self, ctx: ()) -> Seq<u8> {
        seq![if self { 0xffu8 } else { 0u8 }]
    }

    fn try_write(self, bytes: &mut [u8], _ctx: ()) -> (r: Result<usize, Error>)
        ensures
            r is Err ==> final(bytes)@ == old(bytes)@,
    {
        check_len(bytes, 1)?;
        bytes[0] = if self { u8::MAX } else { 0 };
        assert(bytes@ =~= self.written(()) + old(bytes)@.skip(1));
        Ok(1)
    }
}

} // verus!
