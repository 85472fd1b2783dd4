//! Offset-tracking reads and writes on byte slices.
//!
//! The offset is owned by the caller. A successful operation starts at the offset and
//! advances it by the number of bytes it consumed; a failed one leaves it as it was.

use vstd::prelude::*;
use core::marker::PhantomData;
use crate::error::Error;
use crate::traits::{TryRead, TryWrite};

verus! {

/// The offset that a read of a `T` from `bytes` at offset `at` under `ctx` ends at, or the
/// error that it fails with. An offset beyond the end of the buffer is a `BadOffset`; a
/// `BadOffset` from the decoding itself is reported as `Incomplete`.
pub open spec fn read_at<'a, T: TryRead<'a, C>, C>(bytes: Seq<u8>, at: usize, ctx: C) -> Result<
    nat,
    Error,
> {
    if at > bytes.len() {
        Err(Error::BadOffset(at))
    } else {
        match T::read_len(bytes.skip(at as int), ctx) {
            Ok(n) => Ok(at as nat + n),
            Err(Error::BadOffset(_)) => Err(Error::Incomplete),
            Err(e) => Err(e),
        }
    }
}

/// The offset that a write of `t` at offset `at` under `ctx` into a buffer of `len` bytes
/// ends at, or the error that it fails with.
pub open spec fn write_at<T: TryWrite<C>, C>(len: nat, at: usize, t: T, ctx: C) -> Result<
    nat,
    Error,
> {
    if at > len {
        Err(Error::BadOffset(at))
    } else {
        match t.write_len((len - at) as nat, ctx) {
            Ok(n) => Ok(at as nat + n),
            Err(Error::BadOffset(_)) => Err(Error::Incomplete),
            Err(e) => Err(e),
        }
    }
}

/// Whether the result `r` and the offset `end` are what a read of a `T` from `bytes` at
/// offset `at` under `ctx` leaves: on success the value that the bytes at `at` decode to and
/// the offset behind it, which lies within the buffer; on failure the error and the offset
/// as it was.
pub open spec fn read_done<'a, T: TryRead<'a, C>, C>(
    bytes: Seq<u8>,
    at: usize,
    ctx: C,
    r: Result<T, Error>,
    end: usize,
) -> bool {
    match r {
        Ok(v) => {
            &&& read_at::<T, C>(bytes, at, ctx) == Ok::<nat, Error>(end as nat)
            &&& at <= end <= bytes.len()
            &&& v.read_from(bytes.skip(at as int), ctx)
        },
        Err(e) => {
            &&& read_at::<T, C>(bytes, at, ctx) == Err::<nat, Error>(e)
            &&& end == at
        },
    }
}

/// Whether the result `r`, the offset `end` and the buffer `after` are what a write of `t`
/// at offset `at` under `ctx` into the buffer `before` leaves: on success the offset behind
/// the encoding of `t`, which stands between the two offsets in a buffer that is otherwise
/// unchanged; on failure the error and the offset as it was. A buffer never changes its
/// length, and a write never touches the bytes before its offset.
pub open spec fn write_done<T: TryWrite<C>, C>(
    before: Seq<u8>,
    after: Seq<u8>,
    at: usize,
    t: T,
    ctx: C,
    r: Result<(), Error>,
    end: usize,
) -> bool {
    &&& after.len() == before.len()
    &&& after.take(at as int) == before.take(at as int)
    &&& match r {
        Ok(_) => {
            &&& write_at(before.len(), at, t, ctx) == Ok::<nat, Error>(end as nat)
            &&& at <= end <= before.len()
            &&& after == before.take(at as int) + t.written(ctx) + before.skip(end as int)
        },
        Err(e) => {
            &&& write_at(before.len(), at, t, ctx) == Err::<nat, Error>(e)
            &&& end == at
        },
    }
}

/// Extension methods for byte slices.
///
/// The offset is the first parameter of each method. It tells where the operation starts,
/// and a successful operation advances it by the number of bytes that it consumed.
pub trait BytesExt<C> {
    /// The bytes of the buffer.
    spec fn bytes(&self) -> Seq<u8>;

    /// Reads a value at `offset` under the default context.
    fn read<'a, T>(&'a self, offset: &mut usize) -> (r: Result<T, Error>) where
        T: TryRead<'a, C>,
        C: Default,

        ensures
            exists|ctx: C| #[trigger]
                call_ensures(C::default, (), ctx) && read_done(
                    self.bytes(),
                    *old(offset),
                    ctx,
                    r,
                    *final(offset),
                ),
    {
        self.read_with(offset, Default::default())
    }

    /// Reads a value at `offset` under `ctx`. On success the offset has advanced by the
    /// number of bytes that the value took; on failure it is unchanged.
    fn read_with<'a, T>(&'a self, offset: &mut usize, ctx: C) -> (r: Result<T, Error>) where
        T: TryRead<'a, C>,

        ensures
            read_done(self.bytes(), *old(offset), ctx, r, *final(offset)),
    ;

    /// Starts reading values of one type, one after the other, from `offset` on. The offset
    /// stays borrowed while the iterator lives, and is where the iterator left it afterwards.
    fn read_iter<'a, 'i, T>(&'a self, offset: &'i mut usize, ctx: C) -> (it: Iter<'a, 'i, T, C>) where
        T: TryRead<'a, C>,
        C: Clone,

        ensures
            it.bytes@ == self.bytes(),
            it.ctx == ctx,
            *it.offset == *old(offset),
            *final(offset) == *final(it.offset),
    ;

    /// Writes a value at `offset` under the default context.
    fn write<T>(&mut self, offset: &mut usize, t: T) -> (r: Result<(), Error>) where
        T: TryWrite<C>,
        C: Default,

        ensures
            exists|ctx: C| #[trigger]
                call_ensures(C::default, (), ctx) && write_done(
                    old(self).bytes(),
                    final(self).bytes(),
                    *old(offset),
                    t,
                    ctx,
                    r,
                    *final(offset),
                ),
    {
        self.write_with(offset, t, Default::default())
    }

    /// Writes a value at `offset` under `ctx`. On success the offset has advanced by the
    /// number of bytes written, and the buffer holds the value's encoding between the old
    /// and the new offset and is otherwise unchanged. On failure the offset is unchanged,
    /// and so are the bytes before it.
    fn write_with<T>(&mut self, offset: &mut usize, t: T, ctx: C) -> (r: Result<(), Error>) where
        T: TryWrite<C>,

        ensures
            write_done(
                old(self).bytes(),
                final(self).bytes(),
                *old(offset),
                t,
                ctx,
                r,
                *final(offset),
            ),
    ;
}

impl<C> BytesExt<C> for [u8] {
    open spec fn bytes(&self) -> Seq<u8> {
        self@
    }

    fn read_with<'a, T>(&'a self, offset: &mut usize, ctx: C) -> (r: Result<T, Error>) where
        T: TryRead<'a, C>,
     {
        if *offset > self.len() {
            return Err(Error::BadOffset(*offset));
        }
        match T::try_read(&self[*offset..self.len()], ctx) {
            Ok((t, size)) => {
                *offset += size;
                Ok(t)
            },
            Err(Error::BadOffset(_)) => Err(Error::Incomplete),
            Err(err) => Err(err),
        }
    }

    fn read_iter<'a, 'i, T>(&'a self, offset: &'i mut usize, ctx: C) -> (it: Iter<'a, 'i, T, C>) where
        T: TryRead<'a, C>,
        C: Clone,
     {
        Iter { bytes: self, offset, ctx, phantom: PhantomData }
    }

    fn write_with<T>(&mut self, offset: &mut usize, t: T, ctx: C) -> (r: Result<(), Error>) where
        T: TryWrite<C>,
     {
        if *offset > self.len() {
            return Err(Error::BadOffset(*offset));
        }
        let at: usize = *offset;
        let (_, tail) = self.split_at_mut(at);
        let done = t.try_write(tail, ctx);
        assert(self@.take(at as int) =~= old(self)@.take(at as int));
        match done {
            Ok(size) => {
                *offset = at + size;
                assert(self@ =~= old(self)@.take(at as int) + t.written(ctx) + old(self)@.skip(
                    at + size,
                ));
                Ok(())
            },
            Err(Error::BadOffset(_)) => Err(Error::Incomplete),
            Err(err) => Err(err),
        }
    }
}

/// Reads values of one type, one after the other, advancing a borrowed offset. It stops at
/// the first value that cannot be read, and reports no error.
#[must_use]
pub struct Iter<'a, 'i, T, C> where T: TryRead<'a, C>, C: Clone {
    /// The buffer that is read.
    pub bytes: &'a [u8],
    /// Where the next value starts.
    pub offset: &'i mut usize,
    /// The context that each value is read under.
    pub ctx: C,
    /// The type of the values.
    pub phantom: PhantomData<T>,
}

impl<'a, 'i, T, C> Iter<'a, 'i, T, C> where T: TryRead<'a, C>, C: Clone {
    /// Reads the next value under a clone of the context. Returns the value and advances
    /// the offset if there is one; returns `None` and leaves the offset alone if not.
    pub fn next(&mut self) -> (r: Option<T>)
        ensures
            final(self).bytes == old(self).bytes,
            final(self).ctx == old(self).ctx,
            *final(final(self).offset) == *final(old(self).offset),
            exists|ctx: C| #[trigger]
                cloned(old(self).ctx, ctx) && match read_at::<T, C>(
                    old(self).bytes@,
                    *old(self).offset,
                    ctx,
                ) {
                    Ok(end) => {
                        &&& r matches Some(v) && v.read_from(
                            old(self).bytes@.skip(*old(self).offset as int),
                            ctx,
                        )
                        &&& *final(self).offset == end
                        &&& *old(self).offset <= end <= old(self).bytes@.len()
                    },
                    Err(_) => r is None && *final(self).offset == *old(self).offset,
                },
    {
        let at: usize = *self.offset;
        let ctx = self.ctx.clone();
        assert(cloned(self.ctx, ctx));
        if at > self.bytes.len() {
            return None;
        }
        match T::try_read(&self.bytes[at..self.bytes.len()], ctx) {
            Ok((t, size)) => {
                *self.offset = at + size;
                Some(t)
            },
            Err(_) => None,
        }
    }

    /// Bounds on the number of values left: nothing is known of it.
    pub fn size_hint(&self) -> (r: (usize, Option<usize>))
        ensures
            r == (0usize, None::<usize>),
    {
        (0, None)
    }
}

} // verus!
