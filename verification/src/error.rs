//! The error type shared by every read and write, and the length check they start with.

use vstd::prelude::*;

verus! {

/// Why a read or a write failed. A failure carries no partial result.
#[derive(Debug, PartialEq, Eq, Copy, Clone)]
pub enum Error {
    /// The buffer holds fewer bytes than the operation needs.
    Incomplete,
    /// The offset handed in lies beyond the end of the buffer.
    BadOffset(usize),
    /// The bytes are there, but their content is not acceptable.
    BadInput { err: &'static str },
}

/// What a buffer of `room` bytes answers when `len` bytes are asked of it: `len` where it
/// holds as many, `Incomplete` where it holds fewer.
pub open spec fn fixed_len(room: nat, len: nat) -> Result<nat, Error> {
    if room < len {
        Err(Error::Incomplete)
    } else {
        Ok(len)
    }
}

/// `Ok(len)` when `bytes` holds at least `len` bytes, `Err(Error::Incomplete)` when it does not.
pub fn check_len(bytes: &[u8], len: usize) -> (r: Result<usize, Error>)
    ensures
        r == if bytes@.len() < len {
            Err::<usize, Error>(Error::Incomplete)
        } else {
            Ok::<usize, Error>(len)
        },
{
    if bytes.len() < len {
        Err(Error::Incomplete)
    } else {
        Ok(len)
    }
}

} // verus!
