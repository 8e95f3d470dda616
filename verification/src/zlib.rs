//! The compressed form of a term.

use crate::error::{IoError, IoErrorKind, IoErrorView};
use std::io::Read;
use vstd::prelude::*;

verus! {

/// What the `libflate` crate inflates the zlib stream at the start of `data`
/// to, or the error that it reports. Nothing more is said of it here.
pub uninterp spec fn inflated(data: Seq<u8>) -> Result<Seq<u8>, IoErrorView>;

/// Calls `libflate::zlib::Decoder::new` on `data`, and `read_to_end` on the
/// decoder that it made: all the bytes that the zlib stream at the start of
/// `data` holds, or the error that the crate reports before the stream's
/// end, with its message and its kind, which is `Other` unless it has a name
/// of its own here. Not proved here: that the same bytes give the same
/// result every time, which is what giving the result a name says.
#[verifier::external_body]
pub(crate) fn inflate(data: &[u8]) -> (r: Result<Vec<u8>, IoError>)
    ensures
        match r {
            Ok(bytes) => inflated(data@) == Ok::<Seq<u8>, IoErrorView>(bytes@),
            Err(e) => inflated(data@) == Err::<Seq<u8>, IoErrorView>(e@),
        },
{
    let mut bytes: Vec<u8> = Vec::new();
    let read = match libflate::zlib::Decoder::new(data) {
        Ok(mut decoder) => decoder.read_to_end(&mut bytes),
        Err(e) => Err(e),
    };
    let e = match read {
        Ok(_) => return Ok(bytes),
        Err(e) => e,
    };
    let kind = match e.kind() {
        std::io::ErrorKind::UnexpectedEof => IoErrorKind::UnexpectedEof,
        std::io::ErrorKind::InvalidData => IoErrorKind::InvalidData,
        _ => IoErrorKind::Other,
    };
    Err(IoError { kind, message: e.to_string() })
}

} // verus!
