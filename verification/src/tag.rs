//! The bytes that open an encoded term and each of its parts.

use vstd::prelude::*;

verus! {

/// The version of the format: the first byte of every encoded term.
pub const VERSION: u8 = 131;

/// The header of a message between nodes, which this codec does not read.
pub const DISTRIBUTION_HEADER: u8 = 68;

/// A float in eight bytes.
pub const NEW_FLOAT_EXT: u8 = 70;

/// A binary that need not end on a byte boundary.
pub const BIT_BINARY_EXT: u8 = 77;

/// A term in a zlib stream.
pub const COMPRESSED_TERM: u8 = 80;

/// An atom by its place in a cache, which this codec does not read.
pub const ATOM_CACHE_REF: u8 = 82;

/// An integer in one byte.
pub const SMALL_INTEGER_EXT: u8 = 97;

/// An integer in four bytes.
pub const INTEGER_EXT: u8 = 98;

/// A float as a decimal text of 31 bytes.
pub const FLOAT_EXT: u8 = 99;

/// An atom in Latin-1, with its length in two bytes.
pub const ATOM_EXT: u8 = 100;

/// A reference of one word.
pub const REFERENCE_EXT: u8 = 101;

/// A port.
pub const PORT_EXT: u8 = 102;

/// A process identifier.
pub const PID_EXT: u8 = 103;

/// A tuple, with its arity in one byte.
pub const SMALL_TUPLE_EXT: u8 = 104;

/// A tuple, with its arity in four bytes.
pub const LARGE_TUPLE_EXT: u8 = 105;

/// The empty list.
pub const NIL_EXT: u8 = 106;

/// A list of bytes.
pub const STRING_EXT: u8 = 107;

/// A list with its tail.
pub const LIST_EXT: u8 = 108;

/// A binary.
pub const BINARY_EXT: u8 = 109;

/// An integer of any size, with the count of its bytes in one byte.
pub const SMALL_BIG_EXT: u8 = 110;

/// An integer of any size, with the count of its bytes in four bytes.
pub const LARGE_BIG_EXT: u8 = 111;

/// A function with its environment, in the newer shape.
pub const NEW_FUN_EXT: u8 = 112;

/// A function that a module exports.
pub const EXPORT_EXT: u8 = 113;

/// A reference of any number of words.
pub const NEW_REFERENCE_EXT: u8 = 114;

/// An atom in Latin-1, with its length in one byte.
pub const SMALL_ATOM_EXT: u8 = 115;

/// A map.
pub const MAP_EXT: u8 = 116;

/// A function with its environment, in the older shape.
pub const FUN_EXT: u8 = 117;

/// An atom in UTF-8, with its length in two bytes.
pub const ATOM_UTF8_EXT: u8 = 118;

/// An atom in UTF-8, with its length in one byte.
pub const SMALL_ATOM_UTF8_EXT: u8 = 119;

} // verus!
