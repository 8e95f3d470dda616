//! How bytes are read as a term: what the decoder returns for each input.

use crate::endian::{be16_at, be32_at, be64_at, signed32};
use crate::error::{invalid_data, unexpected_eof, DecodeErrorView, IoErrorKind, IoErrorView};
use crate::tag::{
    ATOM_EXT, ATOM_UTF8_EXT, BINARY_EXT, BIT_BINARY_EXT, COMPRESSED_TERM, EXPORT_EXT, FLOAT_EXT,
    FUN_EXT, INTEGER_EXT, LARGE_BIG_EXT, LARGE_TUPLE_EXT, LIST_EXT, MAP_EXT, NEW_FLOAT_EXT,
    NEW_FUN_EXT, NEW_REFERENCE_EXT, NIL_EXT, PID_EXT, PORT_EXT, REFERENCE_EXT, SMALL_ATOM_EXT,
    SMALL_ATOM_UTF8_EXT, SMALL_BIG_EXT, SMALL_INTEGER_EXT, SMALL_TUPLE_EXT, STRING_EXT, VERSION,
};
use crate::term::{
    canonical, finite, BitBinaryView, ExternalFunView, ImproperListView, InternalFunView, PidView,
    PortView, ReferenceView, Sign, TermView,
};
use crate::text::digits;
use crate::wire::lowered;
use crate::zlib::inflated;
use vstd::prelude::*;
use vstd::utf8::{decode_utf8, valid_utf8};

verus! {

/// What reading a part gives: the part and the place behind it, or why it
/// could not be read.
pub type Parsed<T> = Result<(T, int), DecodeErrorView>;

/// A float in the text form, with the bits that its text was converted to;
/// `bits` is `None` where the text is no number.
pub struct FloatTextView {
    pub text: Seq<u8>,
    pub bits: Option<u64>,
}

/// What the first entry for `text` converts it to, if there is an entry.
pub open spec fn converted(floats: Seq<FloatTextView>, text: Seq<u8>) -> Option<Option<u64>>
    decreases floats.len(),
{
    if floats.len() == 0 {
        None
    } else if floats[0].text == text {
        Some(floats[0].bits)
    } else {
        converted(floats.drop_first(), text)
    }
}

/// The number of bytes from `at` on.
pub open spec fn left(s: Seq<u8>, at: int) -> nat {
    if at <= s.len() {
        (s.len() - at) as nat
    } else {
        0
    }
}

/// The message of the failure on a name that is not UTF-8.
pub open spec fn utf8_message() -> Seq<char> {
    "invalid utf-8 sequence"@
}

/// The message of the failure on a float whose text is no number.
pub open spec fn float_message() -> Seq<char> {
    "invalid float literal"@
}

/// The message of the failure on a bit binary whose last byte is said to
/// hold no bit or more than eight.
pub open spec fn tail_bits_message() -> Seq<char> {
    "A tail bits size must be 1 to 8"@
}

/// The message of the failure on a sign byte that is neither 0 nor 1: it
/// ends in the byte that was found, in decimal digits.
pub open spec fn sign_message(found: u8) -> Seq<char> {
    "A sign value must be 0 or 1: value="@ + digits(found as nat)
}

/// The byte at `at`.
pub open spec fn take_u8(s: Seq<u8>, at: int) -> Parsed<u8> {
    if 0 <= at && at + 1 <= s.len() {
        Ok((s[at], at + 1))
    } else {
        Err(unexpected_eof())
    }
}

/// The big-endian integer in the two bytes from `at` on.
pub open spec fn take_u16(s: Seq<u8>, at: int) -> Parsed<u16> {
    if 0 <= at && at + 2 <= s.len() {
        Ok((be16_at(s, at), at + 2))
    } else {
        Err(unexpected_eof())
    }
}

/// The big-endian integer in the four bytes from `at` on.
pub open spec fn take_u32(s: Seq<u8>, at: int) -> Parsed<u32> {
    if 0 <= at && at + 4 <= s.len() {
        Ok((be32_at(s, at), at + 4))
    } else {
        Err(unexpected_eof())
    }
}

/// The big-endian signed integer in the four bytes from `at` on.
pub open spec fn take_i32(s: Seq<u8>, at: int) -> Parsed<i32> {
    if 0 <= at && at + 4 <= s.len() {
        Ok((signed32(be32_at(s, at)), at + 4))
    } else {
        Err(unexpected_eof())
    }
}

/// The big-endian integer in the eight bytes from `at` on.
pub open spec fn take_u64(s: Seq<u8>, at: int) -> Parsed<u64> {
    if 0 <= at && at + 8 <= s.len() {
        Ok((be64_at(s, at), at + 8))
    } else {
        Err(unexpected_eof())
    }
}

/// The `n` bytes from `at` on.
pub open spec fn take_bytes(s: Seq<u8>, at: int, n: int) -> Parsed<Seq<u8>> {
    if 0 <= at && 0 <= n && at + n <= s.len() {
        Ok((s.subrange(at, at + n), at + n))
    } else {
        Err(unexpected_eof())
    }
}

/// A count of one byte, or of two where `wide`.
pub open spec fn take_short(s: Seq<u8>, at: int, wide: bool) -> Parsed<int> {
    if wide {
        match take_u16(s, at) {
            Ok((n, p)) => Ok((n as int, p)),
            Err(e) => Err(e),
        }
    } else {
        match take_u8(s, at) {
            Ok((n, p)) => Ok((n as int, p)),
            Err(e) => Err(e),
        }
    }
}

/// A count of one byte, or of four where `wide`.
pub open spec fn take_long(s: Seq<u8>, at: int, wide: bool) -> Parsed<int> {
    if wide {
        match take_u32(s, at) {
            Ok((n, p)) => Ok((n as int, p)),
            Err(e) => Err(e),
        }
    } else {
        match take_u8(s, at) {
            Ok((n, p)) => Ok((n as int, p)),
            Err(e) => Err(e),
        }
    }
}

/// A part that was read from behind `floor` ends behind `floor`, as each
/// part takes a byte at least. This turns nothing down that was read; it
/// is what shows that reading comes to an end.
pub open spec fn step<T>(floor: int, r: Parsed<T>) -> Parsed<T> {
    match r {
        Ok((_, p)) => if p > floor {
            r
        } else {
            Err(unexpected_eof())
        },
        Err(_) => r,
    }
}

/// The atom that a field holds.
pub open spec fn into_atom(t: TermView) -> Result<Seq<char>, DecodeErrorView> {
    match t {
        TermView::Atom(name) => Ok(name),
        _ => Err(DecodeErrorView::UnexpectedType { value: t, expected: "Atom"@ }),
    }
}

/// The process identifier that a field holds.
pub open spec fn into_pid(t: TermView) -> Result<PidView, DecodeErrorView> {
    match t {
        TermView::Pid(x) => Ok(x),
        _ => Err(DecodeErrorView::UnexpectedType { value: t, expected: "Pid"@ }),
    }
}

/// The small integer that a field holds.
pub open spec fn into_fix_integer(t: TermView) -> Result<i32, DecodeErrorView> {
    match t {
        TermView::FixInteger(value) => Ok(value),
        _ => Err(DecodeErrorView::UnexpectedType { value: t, expected: "FixInteger"@ }),
    }
}

/// The small integer that a field holds, which is to lie in `start ..= end`.
pub open spec fn into_ranged_integer(t: TermView, start: i32, end: i32) -> Result<
    i32,
    DecodeErrorView,
> {
    match into_fix_integer(t) {
        Ok(value) => if start <= value <= end {
            Ok(value)
        } else {
            Err(DecodeErrorView::OutOfRange { value, start, end })
        },
        Err(e) => Err(e),
    }
}

/// A term that was read for a field that is to hold an atom.
pub open spec fn atom_of(r: Parsed<TermView>) -> Parsed<Seq<char>> {
    match r {
        Ok((t, p)) => match into_atom(t) {
            Ok(name) => Ok((name, p)),
            Err(e) => Err(e),
        },
        Err(e) => Err(e),
    }
}

/// A term that was read for a field that is to hold a process identifier.
pub open spec fn pid_of(r: Parsed<TermView>) -> Parsed<PidView> {
    match r {
        Ok((t, p)) => match into_pid(t) {
            Ok(x) => Ok((x, p)),
            Err(e) => Err(e),
        },
        Err(e) => Err(e),
    }
}

/// A term that was read for a field that is to hold a small integer.
pub open spec fn fix_of(r: Parsed<TermView>) -> Parsed<i32> {
    match r {
        Ok((t, p)) => match into_fix_integer(t) {
            Ok(value) => Ok((value, p)),
            Err(e) => Err(e),
        },
        Err(e) => Err(e),
    }
}

/// A term that was read for a field that is to hold an arity: a small
/// integer in 0..=255.
pub open spec fn arity_of(r: Parsed<TermView>) -> Parsed<u8> {
    match r {
        Ok((t, p)) => match into_ranged_integer(t, 0, 0xff) {
            Ok(value) => Ok((value as u8, p)),
            Err(e) => Err(e),
        },
        Err(e) => Err(e),
    }
}

/// A float of 64 bits: eight bytes, which are to stand for a number.
#[verifier::opaque]
pub open spec fn parse_new_float(s: Seq<u8>, at: int) -> Parsed<TermView> {
    match take_u64(s, at) {
        Ok((bits, p)) => if finite(bits) {
            Ok((TermView::Float(bits), p))
        } else {
            Err(DecodeErrorView::NonFiniteFloat)
        },
        Err(e) => Err(e),
    }
}

/// A float in the text form: 31 bytes, and what `floats` converts them to.
#[verifier::opaque]
pub open spec fn parse_float(s: Seq<u8>, at: int, floats: Seq<FloatTextView>) -> Parsed<
    TermView,
> {
    match take_bytes(s, at, 31) {
        Ok((text, p)) => match converted(floats, text) {
            None => Err(DecodeErrorView::UnconvertedFloat { text }),
            Some(None) => Err(invalid_data(float_message())),
            Some(Some(bits)) => if finite(bits) {
                Ok((TermView::Float(bits), p))
            } else {
                Err(DecodeErrorView::NonFiniteFloat)
            },
        },
        Err(e) => Err(e),
    }
}

/// A bit binary: the count of its bytes, the number of bits of the last
/// byte that belong to it, and the bytes, of which the last holds those
/// bits at its top.
#[verifier::opaque]
pub open spec fn parse_bit_binary(s: Seq<u8>, at: int) -> Parsed<TermView> {
    match take_u32(s, at) {
        Ok((size, p)) => match take_u8(s, p) {
            Ok((bits, p)) => match take_bytes(s, p, size as int) {
                Ok((bytes, p)) => if 1 <= bits <= 8 {
                    Ok(
                        (
                            TermView::BitBinary(
                                BitBinaryView {
                                    bytes: if size == 0 {
                                        bytes
                                    } else {
                                        bytes.drop_last().push(lowered(bytes.last(), bits))
                                    },
                                    tail_bits_size: bits,
                                },
                            ),
                            p,
                        ),
                    )
                } else {
                    Err(invalid_data(tail_bits_message()))
                },
                Err(e) => Err(e),
            },
            Err(e) => Err(e),
        },
        Err(e) => Err(e),
    }
}

/// A small integer of one byte.
#[verifier::opaque]
pub open spec fn parse_small_integer(s: Seq<u8>, at: int) -> Parsed<TermView> {
    match take_u8(s, at) {
        Ok((value, p)) => Ok((TermView::FixInteger(value as i32), p)),
        Err(e) => Err(e),
    }
}

/// A small integer of four bytes, in two's complement.
#[verifier::opaque]
pub open spec fn parse_integer(s: Seq<u8>, at: int) -> Parsed<TermView> {
    match take_i32(s, at) {
        Ok((value, p)) => Ok((TermView::FixInteger(value), p)),
        Err(e) => Err(e),
    }
}

/// An atom: the length of its name, in two bytes where `wide` and else in
/// one, and the name, which is to be UTF-8; where it is not, the failure is
/// of the kind `kind`.
#[verifier::opaque]
pub open spec fn parse_atom(s: Seq<u8>, at: int, wide: bool, kind: IoErrorKind) -> Parsed<
    TermView,
> {
    match take_short(s, at, wide) {
        Ok((len, p)) => match take_bytes(s, p, len) {
            Ok((bytes, p)) => if valid_utf8(bytes) {
                Ok((TermView::Atom(decode_utf8(bytes)), p))
            } else {
                Err(DecodeErrorView::Io(IoErrorView { kind, message: utf8_message() }))
            },
            Err(e) => Err(e),
        },
        Err(e) => Err(e),
    }
}

/// A string: its length in two bytes, and a byte for each element.
#[verifier::opaque]
pub open spec fn parse_string(s: Seq<u8>, at: int) -> Parsed<TermView> {
    match take_u16(s, at) {
        Ok((size, p)) => match take_bytes(s, p, size as int) {
            Ok((bytes, p)) => Ok(
                (
                    TermView::List(
                        Seq::new(bytes.len(), |i: int| TermView::FixInteger(bytes[i] as i32)),
                    ),
                    p,
                ),
            ),
            Err(e) => Err(e),
        },
        Err(e) => Err(e),
    }
}

/// A binary: the count of its bytes in four bytes, and the bytes.
#[verifier::opaque]
pub open spec fn parse_binary(s: Seq<u8>, at: int) -> Parsed<TermView> {
    match take_u32(s, at) {
        Ok((size, p)) => match take_bytes(s, p, size as int) {
            Ok((bytes, p)) => Ok((TermView::Binary(bytes), p)),
            Err(e) => Err(e),
        },
        Err(e) => Err(e),
    }
}

/// An integer of any size: the count of its magnitude's bytes, in four
/// bytes where `wide` and else in one; the sign, which is to be 0 or 1; the
/// magnitude, least significant byte first.
#[verifier::opaque]
pub open spec fn parse_big(s: Seq<u8>, at: int, wide: bool) -> Parsed<TermView> {
    match take_long(s, at, wide) {
        Ok((count, p)) => match take_u8(s, p) {
            Ok((sign, p)) => match take_bytes(s, p, count) {
                Ok((bytes, p)) => if sign == 0 {
                    Ok((TermView::BigInteger(canonical(Sign::Plus, bytes)), p))
                } else if sign == 1 {
                    Ok((TermView::BigInteger(canonical(Sign::Minus, bytes)), p))
                } else {
                    Err(invalid_data(sign_message(sign)))
                },
                Err(e) => Err(e),
            },
            Err(e) => Err(e),
        },
        Err(e) => Err(e),
    }
}

/// What follows the node of a reference in the older form: one word and the
/// creation.
pub open spec fn reference_after(s: Seq<u8>, node: Parsed<Seq<char>>) -> Parsed<TermView> {
    match node {
        Ok((node, p)) => match take_u32(s, p) {
            Ok((id, p)) => match take_u8(s, p) {
                Ok((creation, p)) => Ok(
                    (TermView::Reference(ReferenceView { node, id: seq![id], creation }), p),
                ),
                Err(e) => Err(e),
            },
            Err(e) => Err(e),
        },
        Err(e) => Err(e),
    }
}

/// What follows the node of a port.
pub open spec fn port_after(s: Seq<u8>, node: Parsed<Seq<char>>) -> Parsed<TermView> {
    match node {
        Ok((node, p)) => match take_u32(s, p) {
            Ok((id, p)) => match take_u8(s, p) {
                Ok((creation, p)) => Ok((TermView::Port(PortView { node, id, creation }), p)),
                Err(e) => Err(e),
            },
            Err(e) => Err(e),
        },
        Err(e) => Err(e),
    }
}

/// What follows the node of a process identifier.
pub open spec fn pid_after(s: Seq<u8>, node: Parsed<Seq<char>>) -> Parsed<TermView> {
    match node {
        Ok((node, p)) => match take_u32(s, p) {
            Ok((id, p)) => match take_u32(s, p) {
                Ok((serial, p)) => match take_u8(s, p) {
                    Ok((creation, p)) => Ok(
                        (TermView::Pid(PidView { node, id, serial, creation }), p),
                    ),
                    Err(e) => Err(e),
                },
                Err(e) => Err(e),
            },
            Err(e) => Err(e),
        },
        Err(e) => Err(e),
    }
}

/// The `n` words from `at` on, four bytes each.
pub open spec fn take_words(s: Seq<u8>, at: int, n: int) -> Parsed<Seq<u32>> {
    if 0 <= at && 0 <= n && at + 4 * n <= s.len() {
        Ok((Seq::new(n as nat, |i: int| be32_at(s, at + 4 * i)), at + 4 * n))
    } else {
        Err(unexpected_eof())
    }
}

/// What follows the node of a reference in the newer form: the creation and
/// the `count` words.
pub open spec fn new_reference_after(s: Seq<u8>, count: int, node: Parsed<Seq<char>>) -> Parsed<
    TermView,
> {
    match node {
        Ok((node, p)) => match take_u8(s, p) {
            Ok((creation, p)) => match take_words(s, p, count) {
                Ok((id, p)) => Ok((TermView::Reference(ReferenceView { node, id, creation }), p)),
                Err(e) => Err(e),
            },
            Err(e) => Err(e),
        },
        Err(e) => Err(e),
    }
}

/// The tuple of the terms that were read.
pub open spec fn tuple_of(r: Parsed<Seq<TermView>>) -> Parsed<TermView> {
    match r {
        Ok((elements, p)) => Ok((TermView::Tuple(elements), p)),
        Err(e) => Err(e),
    }
}

/// The map of the entries that were read.
pub open spec fn map_of(r: Parsed<Seq<(TermView, TermView)>>) -> Parsed<TermView> {
    match r {
        Ok((entries, p)) => Ok((TermView::Mapping(entries), p)),
        Err(e) => Err(e),
    }
}

/// The list with the given elements and tail: a proper list where the tail
/// is the empty list, and an improper one where it is anything else.
pub open spec fn list_of(elements: Seq<TermView>, last: TermView) -> TermView {
    if last == TermView::nil() {
        TermView::List(elements)
    } else {
        TermView::ImproperList(ImproperListView { elements, last: Box::new(last) })
    }
}

/// The `n` terms from `at` on.
pub open spec fn parse_terms(s: Seq<u8>, at: int, n: nat, floats: Seq<FloatTextView>) -> Parsed<
    Seq<TermView>,
>
    decreases left(s, at), n + 1,
{
    if n == 0 {
        Ok((Seq::empty(), at))
    } else {
        match parse_terms(s, at, (n - 1) as nat, floats) {
            Ok((terms, p)) => if p >= at {
                match parse_term(s, p, floats) {
                    Ok((t, p)) => Ok((terms.push(t), p)),
                    Err(e) => Err(e),
                }
            } else {
                Err(unexpected_eof())
            },
            Err(e) => Err(e),
        }
    }
}

/// The `n` entries from `at` on: each a key and its value.
pub open spec fn parse_entries(
    s: Seq<u8>,
    at: int,
    n: nat,
    floats: Seq<FloatTextView>,
) -> Parsed<Seq<(TermView, TermView)>>
    decreases left(s, at), n + 1,
{
    if n == 0 {
        Ok((Seq::empty(), at))
    } else {
        match parse_entries(s, at, (n - 1) as nat, floats) {
            Ok((entries, p)) => if p >= at {
                match step(p, parse_term(s, p, floats)) {
                    Ok((k, p)) => match parse_term(s, p, floats) {
                        Ok((v, p)) => Ok((entries.push((k, v)), p)),
                        Err(e) => Err(e),
                    },
                    Err(e) => Err(e),
                }
            } else {
                Err(unexpected_eof())
            },
            Err(e) => Err(e),
        }
    }
}

/// A list: the count of its elements, the elements, and its tail.
pub open spec fn parse_list(s: Seq<u8>, at: int, floats: Seq<FloatTextView>) -> Parsed<TermView>
    decreases left(s, at), 1nat,
{
    match take_u32(s, at) {
        Ok((count, p)) => match step(at, parse_terms(s, p, count as nat, floats)) {
            Ok((elements, p)) => match parse_term(s, p, floats) {
                Ok((last, p)) => Ok((list_of(elements, last), p)),
                Err(e) => Err(e),
            },
            Err(e) => Err(e),
        },
        Err(e) => Err(e),
    }
}

/// An exported function: its module and its name, which are to be atoms,
/// and its arity, which is to be a small integer in 0..=255.
pub open spec fn parse_export(s: Seq<u8>, at: int, floats: Seq<FloatTextView>) -> Parsed<
    TermView,
>
    decreases left(s, at), 1nat,
{
    match step(at, atom_of(parse_term(s, at, floats))) {
        Ok((module, p)) => match step(at, atom_of(parse_term(s, p, floats))) {
            Ok((function, p)) => match arity_of(parse_term(s, p, floats)) {
                Ok((arity, p)) => Ok(
                    (TermView::ExternalFun(ExternalFunView { module, function, arity }), p),
                ),
                Err(e) => Err(e),
            },
            Err(e) => Err(e),
        },
        Err(e) => Err(e),
    }
}

/// The four fields of a function of the older shape that are terms: its
/// process, its module, its index and its unique number.
pub open spec fn parse_fun_fields(s: Seq<u8>, at: int, floats: Seq<FloatTextView>) -> Parsed<
    (PidView, Seq<char>, i32, i32),
>
    decreases left(s, at), 1nat,
{
    match step(at, pid_of(parse_term(s, at, floats))) {
        Ok((pid, p)) => match step(at, atom_of(parse_term(s, p, floats))) {
            Ok((module, p)) => match step(at, fix_of(parse_term(s, p, floats))) {
                Ok((index, p)) => match fix_of(parse_term(s, p, floats)) {
                    Ok((uniq, p)) => Ok(((pid, module, index, uniq), p)),
                    Err(e) => Err(e),
                },
                Err(e) => Err(e),
            },
            Err(e) => Err(e),
        },
        Err(e) => Err(e),
    }
}

/// A function of the older shape: the count of its free variables, its
/// process, its module, its index, its unique number, the free variables.
pub open spec fn parse_fun(s: Seq<u8>, at: int, floats: Seq<FloatTextView>) -> Parsed<TermView>
    decreases left(s, at), 2nat,
{
    match take_u32(s, at) {
        Ok((count, p)) => match step(at, parse_fun_fields(s, p, floats)) {
            Ok(((pid, module, index, uniq), p)) => match parse_terms(s, p, count as nat, floats) {
                Ok((free_vars, p)) => Ok(
                    (
                        TermView::InternalFun(
                            InternalFunView::Old { module, pid, free_vars, index, uniq },
                        ),
                        p,
                    ),
                ),
                Err(e) => Err(e),
            },
            Err(e) => Err(e),
        },
        Err(e) => Err(e),
    }
}

/// The fixed fields that open a function of the newer shape: its size, which
/// is read and not looked at, its arity, its unique number of 16 bytes, its
/// index and the count of its free variables.
pub open spec fn new_fun_head(s: Seq<u8>, at: int) -> Parsed<(u8, Seq<u8>, u32, u32)> {
    match take_u32(s, at) {
        Ok((_, p)) => match take_u8(s, p) {
            Ok((arity, p)) => match take_bytes(s, p, 16) {
                Ok((uniq, p)) => match take_u32(s, p) {
                    Ok((index, p)) => match take_u32(s, p) {
                        Ok((count, p)) => Ok(((arity, uniq, index, count), p)),
                        Err(e) => Err(e),
                    },
                    Err(e) => Err(e),
                },
                Err(e) => Err(e),
            },
            Err(e) => Err(e),
        },
        Err(e) => Err(e),
    }
}

/// The four fields of a function of the newer shape that are terms: its
/// module, its older index and unique number, and its process.
pub open spec fn parse_new_fun_fields(s: Seq<u8>, at: int, floats: Seq<FloatTextView>) -> Parsed<
    (Seq<char>, i32, i32, PidView),
>
    decreases left(s, at), 1nat,
{
    match step(at, atom_of(parse_term(s, at, floats))) {
        Ok((module, p)) => match step(at, fix_of(parse_term(s, p, floats))) {
            Ok((old_index, p)) => match step(at, fix_of(parse_term(s, p, floats))) {
                Ok((old_uniq, p)) => match pid_of(parse_term(s, p, floats)) {
                    Ok((pid, p)) => Ok(((module, old_index, old_uniq, pid), p)),
                    Err(e) => Err(e),
                },
                Err(e) => Err(e),
            },
            Err(e) => Err(e),
        },
        Err(e) => Err(e),
    }
}

/// A function of the newer shape: its fixed fields, its module, its older
/// index and unique number, its process, the free variables.
pub open spec fn parse_new_fun(s: Seq<u8>, at: int, floats: Seq<FloatTextView>) -> Parsed<
    TermView,
>
    decreases left(s, at), 2nat,
{
    match step(at, new_fun_head(s, at)) {
        Ok(((arity, uniq, index, count), p)) => match step(
            at,
            parse_new_fun_fields(s, p, floats),
        ) {
            Ok(((module, old_index, old_uniq, pid), p)) => match parse_terms(
                s,
                p,
                count as nat,
                floats,
            ) {
                Ok((free_vars, p)) => Ok(
                    (
                        TermView::InternalFun(
                            InternalFunView::New {
                                module,
                                arity,
                                pid,
                                free_vars,
                                index,
                                uniq,
                                old_index,
                                old_uniq,
                            },
                        ),
                        p,
                    ),
                ),
                Err(e) => Err(e),
            },
            Err(e) => Err(e),
        },
        Err(e) => Err(e),
    }
}

/// A reference in the older form: its node, which is to be an atom, one
/// word and the creation.
pub open spec fn parse_reference(s: Seq<u8>, at: int, floats: Seq<FloatTextView>) -> Parsed<
    TermView,
>
    decreases left(s, at), 1nat,
{
    reference_after(s, atom_of(parse_term(s, at, floats)))
}

/// A port: its node, which is to be an atom, its number and the creation.
pub open spec fn parse_port(s: Seq<u8>, at: int, floats: Seq<FloatTextView>) -> Parsed<TermView>
    decreases left(s, at), 1nat,
{
    port_after(s, atom_of(parse_term(s, at, floats)))
}

/// A process identifier: its node, which is to be an atom, its number, its
/// serial number and the creation.
pub open spec fn parse_pid(s: Seq<u8>, at: int, floats: Seq<FloatTextView>) -> Parsed<TermView>
    decreases left(s, at), 1nat,
{
    pid_after(s, atom_of(parse_term(s, at, floats)))
}

/// A reference in the newer form: the count of its words in two bytes, its
/// node, which is to be an atom, the creation and the words.
pub open spec fn parse_new_reference(s: Seq<u8>, at: int, floats: Seq<FloatTextView>) -> Parsed<
    TermView,
>
    decreases left(s, at), 1nat,
{
    match take_u16(s, at) {
        Ok((count, p)) => new_reference_after(s, count as int, atom_of(parse_term(s, p, floats))),
        Err(e) => Err(e),
    }
}

/// A tuple: its arity, in four bytes where `wide` and else in one, and its
/// elements.
pub open spec fn parse_tuple(
    s: Seq<u8>,
    at: int,
    wide: bool,
    floats: Seq<FloatTextView>,
) -> Parsed<TermView>
    decreases left(s, at), 1nat,
{
    match take_long(s, at, wide) {
        Ok((count, p)) => tuple_of(parse_terms(s, p, count as nat, floats)),
        Err(e) => Err(e),
    }
}

/// A map: the count of its entries in four bytes, and the entries.
pub open spec fn parse_map(s: Seq<u8>, at: int, floats: Seq<FloatTextView>) -> Parsed<TermView>
    decreases left(s, at), 1nat,
{
    match take_u32(s, at) {
        Ok((count, p)) => map_of(parse_entries(s, p, count as nat, floats)),
        Err(e) => Err(e),
    }
}

/// The term that starts at `at`, and the place behind it.
pub open spec fn parse_term(s: Seq<u8>, at: int, floats: Seq<FloatTextView>) -> Parsed<TermView>
    decreases left(s, at), 0nat,
{
    if !(0 <= at < s.len()) {
        Err(unexpected_eof())
    } else {
        let tag = s[at];
        let next = at + 1;
        if tag == NEW_FLOAT_EXT {
            parse_new_float(s, next)
        } else if tag == BIT_BINARY_EXT {
            parse_bit_binary(s, next)
        } else if tag == SMALL_INTEGER_EXT {
            parse_small_integer(s, next)
        } else if tag == INTEGER_EXT {
            parse_integer(s, next)
        } else if tag == FLOAT_EXT {
            parse_float(s, next, floats)
        } else if tag == ATOM_EXT {
            parse_atom(s, next, true, IoErrorKind::Other)
        } else if tag == SMALL_ATOM_EXT {
            parse_atom(s, next, false, IoErrorKind::Other)
        } else if tag == ATOM_UTF8_EXT {
            parse_atom(s, next, true, IoErrorKind::InvalidData)
        } else if tag == SMALL_ATOM_UTF8_EXT {
            parse_atom(s, next, false, IoErrorKind::InvalidData)
        } else if tag == REFERENCE_EXT {
            parse_reference(s, next, floats)
        } else if tag == PORT_EXT {
            parse_port(s, next, floats)
        } else if tag == PID_EXT {
            parse_pid(s, next, floats)
        } else if tag == NEW_REFERENCE_EXT {
            parse_new_reference(s, next, floats)
        } else if tag == SMALL_TUPLE_EXT {
            parse_tuple(s, next, false, floats)
        } else if tag == LARGE_TUPLE_EXT {
            parse_tuple(s, next, true, floats)
        } else if tag == NIL_EXT {
            Ok((TermView::nil(), next))
        } else if tag == STRING_EXT {
            parse_string(s, next)
        } else if tag == LIST_EXT {
            parse_list(s, next, floats)
        } else if tag == BINARY_EXT {
            parse_binary(s, next)
        } else if tag == SMALL_BIG_EXT {
            parse_big(s, next, false)
        } else if tag == LARGE_BIG_EXT {
            parse_big(s, next, true)
        } else if tag == NEW_FUN_EXT {
            parse_new_fun(s, next, floats)
        } else if tag == EXPORT_EXT {
            parse_export(s, next, floats)
        } else if tag == MAP_EXT {
            parse_map(s, next, floats)
        } else if tag == FUN_EXT {
            parse_fun(s, next, floats)
        } else {
            Err(DecodeErrorView::UnknownTag { tag })
        }
    }
}

/// What the decoder returns for the input `s`: the version byte is to come
/// first; then a term, or the mark of the compressed form, four bytes that
/// are not looked at, and a zlib stream that holds a term. Where the stream
/// cannot be inflated, the failure is the one that inflating reports.
pub open spec fn parse(s: Seq<u8>, floats: Seq<FloatTextView>) -> Result<
    TermView,
    DecodeErrorView,
> {
    match take_u8(s, 0) {
        Ok((version, _)) => if version != VERSION {
            Err(DecodeErrorView::UnsupportedVersion { version })
        } else {
            match take_u8(s, 1) {
                Ok((tag, _)) => if tag == COMPRESSED_TERM {
                    match take_u32(s, 2) {
                        Ok(_) => match inflated(s.skip(6)) {
                            Ok(data) => value_of(parse_term(data, 0, floats)),
                            Err(e) => Err(DecodeErrorView::Io(e)),
                        },
                        Err(e) => Err(e),
                    }
                } else {
                    value_of(parse_term(s, 1, floats))
                },
                Err(e) => Err(e),
            }
        },
        Err(e) => Err(e),
    }
}

/// The part without the place behind it.
pub open spec fn value_of<T>(r: Parsed<T>) -> Result<T, DecodeErrorView> {
    match r {
        Ok((value, _)) => Ok(value),
        Err(e) => Err(e),
    }
}

} // verus!
