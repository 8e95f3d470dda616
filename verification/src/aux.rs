//! The checks that the decoder makes on the fields of a term.

use crate::error::{other_error, DecodeError, DecodeErrorView, IoError, IoErrorKind, IoErrorView};
use crate::grammar::{into_atom, into_fix_integer, into_pid, into_ranged_integer, utf8_message};
use crate::term::{Atom, FixInteger, Pid, PidView, Term};
use crate::text::from_utf8;
use std::ops::Range;
use vstd::prelude::*;
use vstd::string::StringSliceAdditionalSpecFns;
use vstd::utf8::{decode_utf8, valid_utf8};

verus! {

/// The atom that a field holds; a term of another type is handed back in
/// the error.
pub fn term_into_atom(t: Term) -> (r: Result<Atom, DecodeError>)
    ensures
        match r {
            Ok(x) => into_atom(t@) == Ok::<Seq<char>, DecodeErrorView>(x@),
            Err(e) => into_atom(t@) == Err::<Seq<char>, DecodeErrorView>(e@),
        },
{
    match t {
        Term::Atom(x) => Ok(x),
        t => Err(DecodeError::UnexpectedType { value: t, expected: "Atom".to_owned() }),
    }
}

/// The process identifier that a field holds; a term of another type is
/// handed back in the error.
pub fn term_into_pid(t: Term) -> (r: Result<Pid, DecodeError>)
    ensures
        match r {
            Ok(x) => into_pid(t@) == Ok::<PidView, DecodeErrorView>(x@),
            Err(e) => into_pid(t@) == Err::<PidView, DecodeErrorView>(e@),
        },
{
    match t {
        Term::Pid(x) => Ok(x),
        t => Err(DecodeError::UnexpectedType { value: t, expected: "Pid".to_owned() }),
    }
}

/// The small integer that a field holds; a term of another type is handed
/// back in the error.
pub fn term_into_fix_integer(t: Term) -> (r: Result<FixInteger, DecodeError>)
    ensures
        match r {
            Ok(x) => into_fix_integer(t@) == Ok::<i32, DecodeErrorView>(x.value),
            Err(e) => into_fix_integer(t@) == Err::<i32, DecodeErrorView>(e@),
        },
{
    match t {
        Term::FixInteger(x) => Ok(x),
        t => Err(DecodeError::UnexpectedType { value: t, expected: "FixInteger".to_owned() }),
    }
}

/// The small integer that a field holds, where it lies in
/// `range.start ..= range.end`.
pub fn term_into_ranged_integer(t: Term, range: Range<i32>) -> (r: Result<i32, DecodeError>)
    ensures
        match r {
            Ok(n) => into_ranged_integer(t@, range.start, range.end) == Ok::<i32, DecodeErrorView>(
                n,
            ),
            Err(e) => into_ranged_integer(t@, range.start, range.end) == Err::<
                i32,
                DecodeErrorView,
            >(e@),
        },
{
    match term_into_fix_integer(t) {
        Ok(i) => {
            let n = i.value;
            if range.start <= n && n <= range.end {
                Ok(n)
            } else {
                Err(DecodeError::OutOfRange { value: n, range })
            }
        },
        Err(e) => Err(e),
    }
}

/// The name of an atom of the Latin-1 form, which this codec reads where it
/// is UTF-8 as well, and refuses where it is not.
pub fn latin1_bytes_to_string(buf: &[u8]) -> (r: Result<String, IoError>)
    ensures
        match r {
            Ok(name) => valid_utf8(buf@) && name@ == decode_utf8(buf@),
            Err(e) => !valid_utf8(buf@) && e@ == (IoErrorView {
                kind: IoErrorKind::Other,
                message: utf8_message(),
            }),
        },
{
    match from_utf8(buf) {
        Some(text) => {
            proof {
                vstd::utf8::encode_utf8_decode_utf8(text@);
            }
            Ok(text.to_owned())
        },
        None => other_error("invalid utf-8 sequence".to_owned()),
    }
}

} // verus!
