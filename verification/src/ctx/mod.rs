//! Contexts: the values that choose how a primitive is laid out in bytes.

use vstd::prelude::*;

pub mod boolean;
pub mod bytes;
pub mod num;
pub mod padding;
pub mod radix;
pub mod scan;
pub mod text;

pub use self::num::{BigEndian, Endianess, LittleEndian, BE, LE};
pub use self::padding::{Ctx, Padding};
pub use self::text::{NULL, RET, SPACE, TAB};

verus! {

/// No context.
pub const NONE: () = ();

/// A fixed length: the value takes exactly this many bytes.
#[derive(Debug, PartialEq, Eq, Copy, Clone)]
pub struct Len(pub usize);

/// A pattern that ends the value: the value runs through the leftmost occurrence of the
/// pattern, which is part of it.
#[derive(Debug, PartialEq, Eq, Copy, Clone)]
pub struct Pattern(pub &'static [u8]);

/// A pattern that ends the value, and a length at which the value ends if no occurrence of
/// the pattern ends earlier.
#[derive(Debug, PartialEq, Eq, Copy, Clone)]
pub struct PatternUntil(pub &'static [u8], pub usize);

/// A delimiter byte that ends the value: the value runs up to the leftmost occurrence of the
/// delimiter, which is consumed but is no part of it.
#[derive(Debug, PartialEq, Eq, Copy, Clone)]
pub struct Delimiter(pub u8);

/// A delimiter byte that ends the value, and a length at which the value ends if no
/// delimiter stands before it.
#[derive(Debug, PartialEq, Eq, Copy, Clone)]
pub struct DelimiterUntil(pub u8, pub usize);

} // verus!
