//! A codec for the external term format of the Erlang runtime: the bytes in
//! which its nodes hand terms to each other and to the world.
//!
//! [`Encoder`] writes a [`Term`] as bytes and [`Decoder`] reads bytes as a
//! term. What each of them returns is stated over the views of the terms:
//! `wire` says which bytes a term is written as and which terms are refused,
//! `grammar` says what every input is read as, and `laws` relates the two, so
//! that a term that was written is read back as it was.
//!
//! The codec holds a float as its 64 bits and does no arithmetic on floats.
//! A float in the older text form is a decimal number: the decoder asks for
//! its conversion with [`DecodeError::UnconvertedFloat`], and takes the
//! conversions that its caller made with [`Decoder::with_floats`].

pub mod aux;
pub mod bigint;
pub mod copy;
pub mod decoded;
pub mod decoder;
pub mod encoder;
pub mod endian;
pub mod error;
pub mod grammar;
pub mod laws;
pub mod roundtrip;
pub mod tag;
pub mod term;
pub mod text;
pub mod wellformed;
pub mod wire;
pub mod zlib;

pub use crate::aux::{
    latin1_bytes_to_string, term_into_atom, term_into_fix_integer, term_into_pid,
    term_into_ranged_integer,
};
pub use crate::bigint::{byte_to_sign, sign_to_byte};
pub use crate::decoder::{Decoder, FloatText};
pub use crate::encoder::Encoder;
pub use crate::error::{
    invalid_data_error, other_error, DecodeError, DecodeResult, EncodeError, EncodeResult,
    IoError, IoErrorKind,
};
pub use crate::text::float_decimal;
pub use crate::term::{
    Atom, BigInteger, Binary, BitBinary, ExternalFun, FixInteger, Float, ImproperList,
    InternalFun, List, Mapping, Pid, Port, Reference, Sign, Term, Tuple,
};
