//! A low-level, zero-copy and panic-free binary serializer and deserializer.
//!
//! Two traits, [`TryRead`] and [`TryWrite`], say how a type is decoded from and encoded into
//! the head of a byte slice. [`BytesExt`] layers offset tracking over them: a read or a
//! write starts at a caller-owned offset and advances it by the number of bytes it consumed,
//! and leaves it alone when it fails.
//!
//! How a value is laid out is chosen by a context value handed to each call: a byte order
//! for numbers, a length, a delimiter or a pattern for text and byte runs. The contexts
//! live in [`ctx`], together with the codecs of the primitive types.
//!
//! Every function carries a contract that Verus proves: what is read is stated over the
//! bytes of the buffer, what is written over the value, and no function panics. [`record`]
//! shows how a type of several fields is built on the traits, and [`laws`] holds what
//! follows from the contracts, such as that a number that was written is read back.

pub mod ctx;
pub mod error;
pub mod ext;
pub mod laws;
pub mod record;
pub mod traits;

pub use crate::ctx::{BE, LE};
pub use crate::error::{check_len, Error};
pub use crate::ext::{BytesExt, Iter};
pub use crate::record::{Empty, Header};
pub use crate::traits::{TryRead, TryWrite};
