//! Reading a term from bytes.

use crate::aux::{
    latin1_bytes_to_string, term_into_atom, term_into_fix_integer, term_into_pid,
    term_into_ranged_integer,
};
use crate::bigint::byte_to_sign;
use crate::decoded::writable;
use crate::endian::{be32_at, be64_at, read_i32, read_u16, read_u32, read_u64};
use crate::error::{
    eof_error, invalid_data, invalid_data_error, DecodeError, DecodeErrorView, DecodeResult,
    IoErrorKind,
};
use crate::grammar::{
    arity_of, atom_of, converted, fix_of, left, new_fun_head, parse, parse_atom, parse_big,
    parse_binary, parse_bit_binary, parse_entries, parse_export, parse_float, parse_fun,
    parse_fun_fields, parse_integer, parse_list, parse_map, parse_new_float, parse_new_fun,
    parse_new_fun_fields, parse_new_reference, parse_pid, parse_port, parse_reference,
    parse_small_integer, parse_string, parse_term, parse_terms, parse_tuple, pid_of, step,
    take_bytes, take_i32, take_u16, take_u32, take_u64, take_u8, take_words, value_of,
    FloatTextView, Parsed,
};
use crate::tag::{
    ATOM_EXT, ATOM_UTF8_EXT, BINARY_EXT, BIT_BINARY_EXT, COMPRESSED_TERM, EXPORT_EXT, FLOAT_EXT,
    FUN_EXT, INTEGER_EXT, LARGE_BIG_EXT, LARGE_TUPLE_EXT, LIST_EXT, MAP_EXT, NEW_FLOAT_EXT,
    NEW_FUN_EXT, NEW_REFERENCE_EXT, NIL_EXT, PID_EXT, PORT_EXT, REFERENCE_EXT, SMALL_ATOM_EXT,
    SMALL_ATOM_UTF8_EXT, SMALL_BIG_EXT, SMALL_INTEGER_EXT, SMALL_TUPLE_EXT, STRING_EXT, VERSION,
};
use crate::term::{
    entries_exact, entries_view, finite, low_bits, terms_exact, terms_view, Atom, BigInteger,
    Binary, BitBinary, ExternalFun, FixInteger, Float, ImproperList, InternalFun, InternalFunView,
    List, Mapping, Pid, PidView, Port, Reference, Term, TermView, Tuple,
};
use crate::text::from_utf8;
use crate::wire::term_defect;
use crate::zlib::inflate;
use std::ops::Range;
use vstd::prelude::*;
use vstd::slice::{slice_subrange, slice_to_vec};

verus! {

/// A float in the text form, with the bits that its text was converted to;
/// `bits` is `None` where the text is no number.
#[derive(Debug, PartialEq, Eq, Hash)]
pub struct FloatText {
    pub text: Vec<u8>,
    pub bits: Option<u64>,
}

impl View for FloatText {
    type V = FloatTextView;

    open spec fn view(&self) -> FloatTextView {
        FloatTextView { text: self.text@, bits: self.bits }
    }
}

impl Clone for FloatText {
    fn clone(&self) -> (r: Self)
        ensures
            r@ == self@,
    {
        FloatText { text: slice_to_vec(self.text.as_slice()), bits: self.bits }
    }
}

/// The views of the conversions, in their order.
pub open spec fn floats_view(floats: Seq<FloatText>) -> Seq<FloatTextView> {
    Seq::new(floats.len(), |i: int| floats[i]@)
}

/// What a step of the decoder gives, as the grammar states it: the value
/// with the place behind it, or the failure.
spec fn plain<T>(r: Result<T, DecodeError>, end: int) -> Parsed<T> {
    match r {
        Ok(value) => Ok((value, end)),
        Err(e) => Err(e@),
    }
}

/// What a step of the decoder gives, as the grammar states it: the view of
/// the value with the place behind it, or the failure.
spec fn viewed<T: View>(r: Result<T, DecodeError>, end: int) -> Parsed<T::V> {
    match r {
        Ok(value) => Ok((value@, end)),
        Err(e) => Err(e@),
    }
}

/// What a step of the decoder that reads terms gives, as the grammar states
/// it.
spec fn viewed_terms(r: Result<Vec<Term>, DecodeError>, end: int) -> Parsed<
    Seq<TermView>,
> {
    match r {
        Ok(terms) => Ok((terms_view(terms@), end)),
        Err(e) => Err(e@),
    }
}

/// The view of what decoding returns.
pub open spec fn result_view(r: DecodeResult) -> Result<TermView, DecodeErrorView> {
    match r {
        Ok(term) => Ok(term@),
        Err(e) => Err(e@),
    }
}

/// The failure on bytes that the format does not allow.
fn invalid(message: &str) -> (r: DecodeResult)
    ensures
        r matches Err(e) && e@ == invalid_data(message@),
{
    match invalid_data_error::<Term>(message.to_owned()) {
        Ok(term) => Ok(term),
        Err(e) => Err(DecodeError::Io(e)),
    }
}

/// Whether two runs of bytes are the same.
fn same_bytes(a: &[u8], b: &[u8]) -> (r: bool)
    ensures
        r == (a@ == b@),
{
    if a.len() != b.len() {
        return false;
    }
    let mut i: usize = 0;
    while i < a.len()
        invariant
            i <= a@.len(),
            a@.len() == b@.len(),
            forall|j: int| 0 <= j < i ==> a@[j] == b@[j],
        decreases a@.len() - i,
    {
        if a[i] != b[i] {
            return false;
        }
        i += 1;
    }
    assert(a@ =~= b@);
    true
}

/// A decoder of terms.
pub struct Decoder<'a> {
    reader: &'a [u8],
    position: usize,
    floats: Vec<FloatText>,
}

impl<'a> Decoder<'a> {
    /// The bytes that the decoder reads.
    pub closed spec fn input(&self) -> Seq<u8> {
        self.reader@
    }

    /// The conversions of floats in the text form that the decoder was given.
    pub closed spec fn conversions(&self) -> Seq<FloatTextView> {
        floats_view(self.floats@)
    }

    /// The place of the next byte.
    spec fn at(&self) -> int {
        self.position as int
    }

    spec fn wf(&self) -> bool {
        self.position <= self.reader@.len()
    }

    /// The decoder reads the same input with the same conversions as
    /// `before`, and has not gone back.
    spec fn follows(&self, before: &Self) -> bool {
        &&& self.reader == before.reader
        &&& self.floats == before.floats
        &&& self.wf()
        &&& before.position <= self.position
    }

    /// A decoder of the term that `reader` starts with.
    pub fn new(reader: &'a [u8]) -> (r: Self)
        ensures
            r.input() == reader@,
            r.conversions() == Seq::<FloatTextView>::empty(),
    {
        let r = Decoder { reader, position: 0, floats: Vec::new() };
        assert(r.conversions() =~= Seq::<FloatTextView>::empty());
        r
    }

    /// The same decoder, with `floats` for the floats in the text form that
    /// it may meet.
    pub fn with_floats(self, floats: Vec<FloatText>) -> (r: Self)
        ensures
            r.input() == self.input(),
            r.conversions() == floats_view(floats@),
    {
        Decoder { reader: self.reader, position: 0, floats }
    }

    fn remaining(&self) -> (n: usize)
        requires
            self.wf(),
        ensures
            n == self.input().len() - self.at(),
            self.input().len() <= usize::MAX,
    {
        self.reader.len() - self.position
    }

    fn read_u8(&mut self) -> (r: Result<u8, DecodeError>)
        requires
            old(self).wf(),
        ensures
            final(self).follows(old(self)),
            plain(r, final(self).at()) == take_u8(old(self).input(), old(self).at()),
    {
        if self.remaining() < 1 {
            return Err(eof_error());
        }
        let value = self.reader[self.position];
        self.position += 1;
        Ok(value)
    }

    fn read_u16(&mut self) -> (r: Result<u16, DecodeError>)
        requires
            old(self).wf(),
        ensures
            final(self).follows(old(self)),
            plain(r, final(self).at()) == take_u16(old(self).input(), old(self).at()),
    {
        if self.remaining() < 2 {
            return Err(eof_error());
        }
        let value = read_u16(self.reader, self.position);
        self.position += 2;
        Ok(value)
    }

    fn read_u32(&mut self) -> (r: Result<u32, DecodeError>)
        requires
            old(self).wf(),
        ensures
            final(self).follows(old(self)),
            plain(r, final(self).at()) == take_u32(old(self).input(), old(self).at()),
    {
        if self.remaining() < 4 {
            return Err(eof_error());
        }
        let value = read_u32(self.reader, self.position);
        self.position += 4;
        Ok(value)
    }

    fn read_i32(&mut self) -> (r: Result<i32, DecodeError>)
        requires
            old(self).wf(),
        ensures
            final(self).follows(old(self)),
            plain(r, final(self).at()) == take_i32(old(self).input(), old(self).at()),
    {
        if self.remaining() < 4 {
            return Err(eof_error());
        }
        let value = read_i32(self.reader, self.position);
        self.position += 4;
        Ok(value)
    }

    fn read_u64(&mut self) -> (r: Result<u64, DecodeError>)
        requires
            old(self).wf(),
        ensures
            final(self).follows(old(self)),
            plain(r, final(self).at()) == take_u64(old(self).input(), old(self).at()),
    {
        if self.remaining() < 8 {
            return Err(eof_error());
        }
        let value = read_u64(self.reader, self.position);
        self.position += 8;
        Ok(value)
    }

    /// The next `n` bytes, in place.
    fn read_slice(&mut self, n: usize) -> (r: Result<&'a [u8], DecodeError>)
        requires
            old(self).wf(),
        ensures
            final(self).follows(old(self)),
            match r {
                Ok(bytes) => take_bytes(old(self).input(), old(self).at(), n as int) == Ok::<
                    (Seq<u8>, int),
                    DecodeErrorView,
                >((bytes@, final(self).at())),
                Err(e) => take_bytes(old(self).input(), old(self).at(), n as int) == Err::<
                    (Seq<u8>, int),
                    DecodeErrorView,
                >(e@),
            },
    {
        if self.remaining() < n {
            return Err(eof_error());
        }
        let bytes = slice_subrange(self.reader, self.position, self.position + n);
        self.position += n;
        Ok(bytes)
    }

    /// The next `n` bytes.
    fn read_exact(&mut self, n: usize) -> (r: Result<Vec<u8>, DecodeError>)
        requires
            old(self).wf(),
        ensures
            final(self).follows(old(self)),
            viewed(r, final(self).at()) == take_bytes(old(self).input(), old(self).at(), n as int),
    {
        let bytes = self.read_slice(n)?;
        Ok(slice_to_vec(bytes))
    }

    /// What the first conversion of `text` gives, if there is one.
    fn convert(&self, text: &[u8]) -> (r: Option<Option<u64>>)
        ensures
            r == converted(self.conversions(), text@),
    {
        let ghost all = self.conversions();
        let mut i: usize = 0;
        assert(all.skip(0) =~= all);
        while i < self.floats.len()
            invariant
                i <= self.floats@.len(),
                all == floats_view(self.floats@),
                converted(all, text@) == converted(all.skip(i as int), text@),
            decreases self.floats@.len() - i,
        {
            assert(all.skip(i as int)[0] == self.floats@[i as int]@);
            assert(all.skip(i as int).drop_first() =~= all.skip(i + 1));
            if same_bytes(self.floats[i].text.as_slice(), text) {
                return Some(self.floats[i].bits);
            }
            i += 1;
        }
        None
    }

    fn decode_nil_ext(&mut self) -> (r: DecodeResult)
        requires
            old(self).wf(),
        ensures
            r matches Ok(term) ==> term.exact(),
            *final(self) == *old(self),
            r is Ok,
            r->Ok_0@ == TermView::nil(),
    {
        let elements: Vec<Term> = Vec::new();
        assert(terms_view(elements@) =~= Seq::<TermView>::empty());
        assert(terms_exact(elements@));
        Ok(Term::List(List { elements }))
    }

    fn decode_new_float_ext(&mut self) -> (r: DecodeResult)
        requires
            old(self).wf(),
        ensures
            r matches Ok(term) ==> term.exact(),
            final(self).follows(old(self)),
            viewed(r, final(self).at()) == parse_new_float(old(self).input(), old(self).at()),
    {
        proof {
            reveal(parse_new_float);
        }
        let bits = self.read_u64()?;
        Ok(Term::Float(Float::from_bits(bits)?))
    }

    fn decode_float_ext(&mut self) -> (r: DecodeResult)
        requires
            old(self).wf(),
        ensures
            r matches Ok(term) ==> term.exact(),
            final(self).follows(old(self)),
            viewed(r, final(self).at()) == parse_float(
                old(self).input(),
                old(self).at(),
                old(self).conversions(),
            ),
    {
        proof {
            reveal(parse_float);
        }
        let text = self.read_slice(31)?;
        match self.convert(text) {
            None => Err(DecodeError::UnconvertedFloat { text: slice_to_vec(text) }),
            Some(None) => invalid("invalid float literal"),
            Some(Some(bits)) => Ok(Term::Float(Float::from_bits(bits)?)),
        }
    }

    fn decode_small_integer_ext(&mut self) -> (r: DecodeResult)
        requires
            old(self).wf(),
        ensures
            r matches Ok(term) ==> term.exact(),
            final(self).follows(old(self)),
            viewed(r, final(self).at()) == parse_small_integer(old(self).input(), old(self).at()),
    {
        proof {
            reveal(parse_small_integer);
        }
        let value = self.read_u8()?;
        Ok(Term::FixInteger(FixInteger { value: value as i32 }))
    }

    fn decode_integer_ext(&mut self) -> (r: DecodeResult)
        requires
            old(self).wf(),
        ensures
            r matches Ok(term) ==> term.exact(),
            final(self).follows(old(self)),
            viewed(r, final(self).at()) == parse_integer(old(self).input(), old(self).at()),
    {
        proof {
            reveal(parse_integer);
        }
        let value = self.read_i32()?;
        Ok(Term::FixInteger(FixInteger { value }))
    }

    /// An atom: the length of its name, in two bytes where `wide` and else
    /// in one, and the name.
    fn decode_atom(&mut self, wide: bool, latin1: bool) -> (r: DecodeResult)
        requires
            old(self).wf(),
        ensures
            r matches Ok(term) ==> term.exact(),
            final(self).follows(old(self)),
            viewed(r, final(self).at()) == parse_atom(
                old(self).input(),
                old(self).at(),
                wide,
                if latin1 {
                    IoErrorKind::Other
                } else {
                    IoErrorKind::InvalidData
                },
            ),
    {
        proof {
            reveal(parse_atom);
        }
        let len: usize = if wide {
            self.read_u16()? as usize
        } else {
            self.read_u8()? as usize
        };
        let bytes = self.read_slice(len)?;
        if latin1 {
            match latin1_bytes_to_string(bytes) {
                Ok(name) => Ok(Term::Atom(Atom { name })),
                Err(e) => Err(DecodeError::Io(e)),
            }
        } else {
            match from_utf8(bytes) {
                Some(text) => {
                    proof {
                        vstd::utf8::encode_utf8_decode_utf8(text@);
                    }
                    Ok(Term::Atom(Atom { name: text.to_owned() }))
                },
                None => invalid("invalid utf-8 sequence"),
            }
        }
    }

    fn decode_atom_ext(&mut self) -> (r: DecodeResult)
        requires
            old(self).wf(),
        ensures
            r matches Ok(term) ==> term.exact(),
            final(self).follows(old(self)),
            viewed(r, final(self).at()) == parse_atom(
                old(self).input(),
                old(self).at(),
                true,
                IoErrorKind::Other,
            ),
    {
        self.decode_atom(true, true)
    }

    fn decode_small_atom_ext(&mut self) -> (r: DecodeResult)
        requires
            old(self).wf(),
        ensures
            r matches Ok(term) ==> term.exact(),
            final(self).follows(old(self)),
            viewed(r, final(self).at()) == parse_atom(
                old(self).input(),
                old(self).at(),
                false,
                IoErrorKind::Other,
            ),
    {
        self.decode_atom(false, true)
    }

    fn decode_atom_utf8_ext(&mut self) -> (r: DecodeResult)
        requires
            old(self).wf(),
        ensures
            r matches Ok(term) ==> term.exact(),
            final(self).follows(old(self)),
            viewed(r, final(self).at()) == parse_atom(
                old(self).input(),
                old(self).at(),
                true,
                IoErrorKind::InvalidData,
            ),
    {
        self.decode_atom(true, false)
    }

    fn decode_small_atom_utf8_ext(&mut self) -> (r: DecodeResult)
        requires
            old(self).wf(),
        ensures
            r matches Ok(term) ==> term.exact(),
            final(self).follows(old(self)),
            viewed(r, final(self).at()) == parse_atom(
                old(self).input(),
                old(self).at(),
                false,
                IoErrorKind::InvalidData,
            ),
    {
        self.decode_atom(false, false)
    }

    fn decode_string_ext(&mut self) -> (r: DecodeResult)
        requires
            old(self).wf(),
        ensures
            r matches Ok(term) ==> term.exact(),
            final(self).follows(old(self)),
            viewed(r, final(self).at()) == parse_string(old(self).input(), old(self).at()),
    {
        proof {
            reveal(parse_string);
        }
        let size = self.read_u16()? as usize;
        let bytes = self.read_slice(size)?;
        let mut elements: Vec<Term> = Vec::new();
        let mut i: usize = 0;
        while i < size
            invariant
                i <= size,
                size == bytes@.len(),
                elements@.len() == i,
                forall|j: int|
                    0 <= j < i ==> (#[trigger] elements@[j])@ == TermView::FixInteger(
                        bytes@[j] as i32,
                    ),
                forall|j: int| 0 <= j < i ==> (#[trigger] elements@[j]) is FixInteger,
            decreases size - i,
        {
            elements.push(Term::FixInteger(FixInteger { value: bytes[i] as i32 }));
            i += 1;
        }
        assert(terms_view(elements@) =~= Seq::new(
            bytes@.len(),
            |i: int| TermView::FixInteger(bytes@[i] as i32),
        ));
        assert(terms_exact(elements@));
        Ok(Term::List(List { elements }))
    }

    fn decode_binary_ext(&mut self) -> (r: DecodeResult)
        requires
            old(self).wf(),
        ensures
            r matches Ok(term) ==> term.exact(),
            final(self).follows(old(self)),
            viewed(r, final(self).at()) == parse_binary(old(self).input(), old(self).at()),
    {
        proof {
            reveal(parse_binary);
        }
        let size = self.read_u32()? as usize;
        let bytes = self.read_exact(size)?;
        Ok(Term::Binary(Binary { bytes }))
    }

    fn decode_bit_binary_ext(&mut self) -> (r: DecodeResult)
        requires
            old(self).wf(),
        ensures
            r matches Ok(term) ==> term.exact(),
            final(self).follows(old(self)),
            viewed(r, final(self).at()) == parse_bit_binary(old(self).input(), old(self).at()),
    {
        proof {
            reveal(parse_bit_binary);
        }
        let size = self.read_u32()? as usize;
        let tail_bits_size = self.read_u8()?;
        let mut bytes = self.read_exact(size)?;
        if tail_bits_size < 1 || tail_bits_size > 8 {
            return invalid("A tail bits size must be 1 to 8");
        }
        let ghost read = bytes@;
        if size > 0 {
            let shift: u8 = 8 - tail_bits_size;
            let wire = bytes[size - 1];
            let last = wire >> shift;
            assert(((last << shift) >> shift) == last) by (bit_vector)
                requires
                    last == wire >> shift,
                    shift < 8,
            ;
            assert(low_bits(last, tail_bits_size) == last);
            bytes[size - 1] = last;
            assert(bytes@.drop_last().push(last) =~= bytes@);
            assert(bytes@.drop_last() =~= read.drop_last());
        }
        Ok(Term::BitBinary(BitBinary { bytes, tail_bits_size }))
    }

    /// An integer of any size: the count of its magnitude's bytes, in four
    /// bytes where `wide` and else in one; its sign; its magnitude.
    fn decode_big(&mut self, wide: bool) -> (r: DecodeResult)
        requires
            old(self).wf(),
        ensures
            r matches Ok(term) ==> term.exact(),
            final(self).follows(old(self)),
            viewed(r, final(self).at()) == parse_big(old(self).input(), old(self).at(), wide),
    {
        proof {
            reveal(parse_big);
        }
        let count: usize = if wide {
            self.read_u32()? as usize
        } else {
            self.read_u8()? as usize
        };
        let sign = self.read_u8()?;
        let bytes = self.read_slice(count)?;
        match byte_to_sign(sign) {
            Ok(sign) => Ok(Term::BigInteger(BigInteger::from_bytes_le(sign, bytes))),
            Err(e) => Err(DecodeError::Io(e)),
        }
    }

    fn decode_small_big_ext(&mut self) -> (r: DecodeResult)
        requires
            old(self).wf(),
        ensures
            r matches Ok(term) ==> term.exact(),
            final(self).follows(old(self)),
            viewed(r, final(self).at()) == parse_big(old(self).input(), old(self).at(), false),
    {
        self.decode_big(false)
    }

    fn decode_large_big_ext(&mut self) -> (r: DecodeResult)
        requires
            old(self).wf(),
        ensures
            r matches Ok(term) ==> term.exact(),
            final(self).follows(old(self)),
            viewed(r, final(self).at()) == parse_big(old(self).input(), old(self).at(), true),
    {
        self.decode_big(true)
    }

    /// A field that is to hold an atom.
    fn decode_atom_field(&mut self) -> (r: Result<Atom, DecodeError>)
        requires
            old(self).wf(),
        ensures
            final(self).follows(old(self)),
            viewed(r, final(self).at()) == atom_of(
                parse_term(old(self).input(), old(self).at(), old(self).conversions()),
            ),
            r is Ok ==> final(self).at() > old(self).at(),
        decreases left(old(self).input(), old(self).at()), 1nat,
    {
        term_into_atom(self.decode_term()?)
    }

    /// A field that is to hold a process identifier.
    fn decode_pid_field(&mut self) -> (r: Result<Pid, DecodeError>)
        requires
            old(self).wf(),
        ensures
            final(self).follows(old(self)),
            viewed(r, final(self).at()) == pid_of(
                parse_term(old(self).input(), old(self).at(), old(self).conversions()),
            ),
            r is Ok ==> final(self).at() > old(self).at(),
        decreases left(old(self).input(), old(self).at()), 1nat,
    {
        term_into_pid(self.decode_term()?)
    }

    /// A field that is to hold a small integer.
    fn decode_fix_field(&mut self) -> (r: Result<i32, DecodeError>)
        requires
            old(self).wf(),
        ensures
            final(self).follows(old(self)),
            plain(r, final(self).at()) == fix_of(
                parse_term(old(self).input(), old(self).at(), old(self).conversions()),
            ),
            r is Ok ==> final(self).at() > old(self).at(),
        decreases left(old(self).input(), old(self).at()), 1nat,
    {
        Ok(term_into_fix_integer(self.decode_term()?)?.value)
    }

    /// A field that is to hold an arity.
    fn decode_arity_field(&mut self) -> (r: Result<u8, DecodeError>)
        requires
            old(self).wf(),
        ensures
            final(self).follows(old(self)),
            plain(r, final(self).at()) == arity_of(
                parse_term(old(self).input(), old(self).at(), old(self).conversions()),
            ),
            r is Ok ==> final(self).at() > old(self).at(),
        decreases left(old(self).input(), old(self).at()), 1nat,
    {
        let arity = term_into_ranged_integer(self.decode_term()?, Range { start: 0, end: 0xff })?;
        Ok(arity as u8)
    }

    fn decode_pid_ext(&mut self) -> (r: DecodeResult)
        requires
            old(self).wf(),
        ensures
            r matches Ok(term) ==> term.exact(),
            final(self).follows(old(self)),
            viewed(r, final(self).at()) == parse_pid(
                old(self).input(),
                old(self).at(),
                old(self).conversions(),
            ),
        decreases left(old(self).input(), old(self).at()), 2nat,
    {
        let node = self.decode_atom_field()?;
        let id = self.read_u32()?;
        let serial = self.read_u32()?;
        let creation = self.read_u8()?;
        Ok(Term::Pid(Pid { node, id, serial, creation }))
    }

    fn decode_port_ext(&mut self) -> (r: DecodeResult)
        requires
            old(self).wf(),
        ensures
            r matches Ok(term) ==> term.exact(),
            final(self).follows(old(self)),
            viewed(r, final(self).at()) == parse_port(
                old(self).input(),
                old(self).at(),
                old(self).conversions(),
            ),
        decreases left(old(self).input(), old(self).at()), 2nat,
    {
        let node = self.decode_atom_field()?;
        let id = self.read_u32()?;
        let creation = self.read_u8()?;
        Ok(Term::Port(Port { node, id, creation }))
    }

    fn decode_reference_ext(&mut self) -> (r: DecodeResult)
        requires
            old(self).wf(),
        ensures
            r matches Ok(term) ==> term.exact(),
            final(self).follows(old(self)),
            viewed(r, final(self).at()) == parse_reference(
                old(self).input(),
                old(self).at(),
                old(self).conversions(),
            ),
        decreases left(old(self).input(), old(self).at()), 2nat,
    {
        let node = self.decode_atom_field()?;
        let word = self.read_u32()?;
        let creation = self.read_u8()?;
        let mut id: Vec<u32> = Vec::new();
        id.push(word);
        assert(id@ =~= seq![word]);
        Ok(Term::Reference(Reference { node, id, creation }))
    }

    /// The next `count` words, four bytes each.
    fn read_words(&mut self, count: usize) -> (r: Result<Vec<u32>, DecodeError>)
        requires
            old(self).wf(),
            count <= 0xffff,
        ensures
            final(self).follows(old(self)),
            viewed(r, final(self).at()) == take_words(
                old(self).input(),
                old(self).at(),
                count as int,
            ),
    {
        if self.remaining() < 4 * count {
            return Err(eof_error());
        }
        let ghost s = self.reader@;
        let ghost start = self.position as int;
        let mut id: Vec<u32> = Vec::new();
        let mut i: usize = 0;
        while i < count
            invariant
                i <= count,
                count <= 0xffff,
                self.reader@ == s,
                self.position == start + 4 * i,
                start + 4 * count <= s.len(),
                s.len() <= usize::MAX,
                self.follows(old(self)),
                id@.len() == i,
                forall|j: int| 0 <= j < i ==> id@[j] == be32_at(s, start + 4 * j),
            decreases count - i,
        {
            let word = read_u32(self.reader, self.position);
            self.position += 4;
            id.push(word);
            i += 1;
        }
        assert(id@ =~= Seq::new(count as nat, |j: int| be32_at(s, start + 4 * j)));
        Ok(id)
    }

    fn decode_new_reference_ext(&mut self) -> (r: DecodeResult)
        requires
            old(self).wf(),
        ensures
            r matches Ok(term) ==> term.exact(),
            final(self).follows(old(self)),
            viewed(r, final(self).at()) == parse_new_reference(
                old(self).input(),
                old(self).at(),
                old(self).conversions(),
            ),
        decreases left(old(self).input(), old(self).at()), 2nat,
    {
        let id_count = self.read_u16()? as usize;
        let node = self.decode_atom_field()?;
        let creation = self.read_u8()?;
        let id = self.read_words(id_count)?;
        Ok(Term::Reference(Reference { node, id, creation }))
    }

    /// The next `count` terms.
    fn decode_terms(&mut self, count: usize) -> (r: Result<Vec<Term>, DecodeError>)
        requires
            old(self).wf(),
        ensures
            r matches Ok(terms) ==> terms_exact(terms@),
            final(self).follows(old(self)),
            viewed_terms(r, final(self).at()) == parse_terms(
                old(self).input(),
                old(self).at(),
                count as nat,
                old(self).conversions(),
            ),
        decreases left(old(self).input(), old(self).at()), count + 1,
    {
        let ghost s = self.input();
        let ghost start = self.at();
        let ghost floats = self.conversions();
        let mut elements: Vec<Term> = Vec::new();
        let mut i: usize = 0;
        assert(terms_view(elements@) =~= Seq::<TermView>::empty());
        while i < count
            invariant
                i <= count,
                self.follows(old(self)),
                s == old(self).input(),
                start == old(self).at(),
                floats == old(self).conversions(),
                parse_terms(s, start, i as nat, floats) == Ok::<
                    (Seq<TermView>, int),
                    DecodeErrorView,
                >((terms_view(elements@), self.at())),
                terms_exact(elements@),
            decreases count - i,
        {
            let ghost before = terms_view(elements@);
            match self.decode_term() {
                Ok(term) => {
                    elements.push(term);
                    assert(terms_view(elements@) =~= before.push(term@));
                },
                Err(e) => {
                    proof {
                        lemma_parse_terms_fails(s, start, (i + 1) as nat, count as nat, floats);
                    }
                    return Err(e);
                },
            }
            i += 1;
        }
        Ok(elements)
    }

    /// The next `count` entries: each a key and its value.
    fn decode_entries(&mut self, count: usize) -> (r: Result<Vec<(Term, Term)>, DecodeError>)
        requires
            old(self).wf(),
        ensures
            r matches Ok(entries) ==> entries_exact(entries@),
            final(self).follows(old(self)),
            match r {
                Ok(entries) => parse_entries(
                    old(self).input(),
                    old(self).at(),
                    count as nat,
                    old(self).conversions(),
                ) == Ok::<(Seq<(TermView, TermView)>, int), DecodeErrorView>(
                    (entries_view(entries@), final(self).at()),
                ),
                Err(e) => parse_entries(
                    old(self).input(),
                    old(self).at(),
                    count as nat,
                    old(self).conversions(),
                ) == Err::<(Seq<(TermView, TermView)>, int), DecodeErrorView>(e@),
            },
        decreases left(old(self).input(), old(self).at()), count + 1,
    {
        let ghost s = self.input();
        let ghost start = self.at();
        let ghost floats = self.conversions();
        let mut entries: Vec<(Term, Term)> = Vec::new();
        let mut i: usize = 0;
        assert(entries_view(entries@) =~= Seq::<(TermView, TermView)>::empty());
        while i < count
            invariant
                i <= count,
                self.follows(old(self)),
                s == old(self).input(),
                start == old(self).at(),
                floats == old(self).conversions(),
                parse_entries(s, start, i as nat, floats) == Ok::<
                    (Seq<(TermView, TermView)>, int),
                    DecodeErrorView,
                >((entries_view(entries@), self.at())),
                entries_exact(entries@),
            decreases count - i,
        {
            let ghost before = entries_view(entries@);
            let k = match self.decode_term() {
                Ok(k) => k,
                Err(e) => {
                    proof {
                        lemma_parse_entries_fails(s, start, (i + 1) as nat, count as nat, floats);
                    }
                    return Err(e);
                },
            };
            let v = match self.decode_term() {
                Ok(v) => v,
                Err(e) => {
                    proof {
                        lemma_parse_entries_fails(s, start, (i + 1) as nat, count as nat, floats);
                    }
                    return Err(e);
                },
            };
            let ghost entry = (k@, v@);
            entries.push((k, v));
            assert(entries_view(entries@) =~= before.push(entry));
            i += 1;
        }
        Ok(entries)
    }

    /// A tuple: its arity, in four bytes where `wide` and else in one, and
    /// its elements.
    fn decode_tuple(&mut self, wide: bool) -> (r: DecodeResult)
        requires
            old(self).wf(),
        ensures
            r matches Ok(term) ==> term.exact(),
            final(self).follows(old(self)),
            viewed(r, final(self).at()) == parse_tuple(
                old(self).input(),
                old(self).at(),
                wide,
                old(self).conversions(),
            ),
        decreases left(old(self).input(), old(self).at()), 1nat,
    {
        let count: usize = if wide {
            self.read_u32()? as usize
        } else {
            self.read_u8()? as usize
        };
        let elements = self.decode_terms(count)?;
        Ok(Term::Tuple(Tuple { elements }))
    }

    fn decode_small_tuple_ext(&mut self) -> (r: DecodeResult)
        requires
            old(self).wf(),
        ensures
            r matches Ok(term) ==> term.exact(),
            final(self).follows(old(self)),
            viewed(r, final(self).at()) == parse_tuple(
                old(self).input(),
                old(self).at(),
                false,
                old(self).conversions(),
            ),
        decreases left(old(self).input(), old(self).at()), 2nat,
    {
        self.decode_tuple(false)
    }

    fn decode_large_tuple_ext(&mut self) -> (r: DecodeResult)
        requires
            old(self).wf(),
        ensures
            r matches Ok(term) ==> term.exact(),
            final(self).follows(old(self)),
            viewed(r, final(self).at()) == parse_tuple(
                old(self).input(),
                old(self).at(),
                true,
                old(self).conversions(),
            ),
        decreases left(old(self).input(), old(self).at()), 2nat,
    {
        self.decode_tuple(true)
    }

    fn decode_map_ext(&mut self) -> (r: DecodeResult)
        requires
            old(self).wf(),
        ensures
            r matches Ok(term) ==> term.exact(),
            final(self).follows(old(self)),
            viewed(r, final(self).at()) == parse_map(
                old(self).input(),
                old(self).at(),
                old(self).conversions(),
            ),
        decreases left(old(self).input(), old(self).at()), 2nat,
    {
        let count = self.read_u32()? as usize;
        let entries = self.decode_entries(count)?;
        Ok(Term::Mapping(Mapping { entries }))
    }

    fn decode_list_ext(&mut self) -> (r: DecodeResult)
        requires
            old(self).wf(),
        ensures
            r matches Ok(term) ==> term.exact(),
            final(self).follows(old(self)),
            viewed(r, final(self).at()) == parse_list(
                old(self).input(),
                old(self).at(),
                old(self).conversions(),
            ),
        decreases left(old(self).input(), old(self).at()), 2nat,
    {
        let count = self.read_u32()? as usize;
        let elements = self.decode_terms(count)?;
        let last = self.decode_term()?;
        let proper = match &last {
            Term::List(l) => l.elements.len() == 0,
            _ => false,
        };
        assert(proper == (last@ == TermView::nil())) by {
            if last is List {
                assert(last@ == TermView::List(terms_view(last->List_0.elements@)));
                if proper {
                    assert(terms_view(last->List_0.elements@) =~= Seq::<TermView>::empty());
                } else {
                    assert(terms_view(last->List_0.elements@).len() > 0);
                }
            }
        }
        if proper {
            Ok(Term::List(List { elements }))
        } else {
            Ok(Term::ImproperList(ImproperList { elements, last: Box::new(last) }))
        }
    }

    fn decode_export_ext(&mut self) -> (r: DecodeResult)
        requires
            old(self).wf(),
        ensures
            r matches Ok(term) ==> term.exact(),
            final(self).follows(old(self)),
            viewed(r, final(self).at()) == parse_export(
                old(self).input(),
                old(self).at(),
                old(self).conversions(),
            ),
        decreases left(old(self).input(), old(self).at()), 2nat,
    {
        let module = self.decode_atom_field()?;
        let function = self.decode_atom_field()?;
        let arity = self.decode_arity_field()?;
        Ok(Term::ExternalFun(ExternalFun { module, function, arity }))
    }

    /// The four fields of a function of the older shape that are terms.
    fn decode_fun_fields(&mut self) -> (r: Result<(Pid, Atom, i32, i32), DecodeError>)
        requires
            old(self).wf(),
        ensures
            final(self).follows(old(self)),
            match r {
                Ok((pid, module, index, uniq)) => parse_fun_fields(
                    old(self).input(),
                    old(self).at(),
                    old(self).conversions(),
                ) == Ok::<((PidView, Seq<char>, i32, i32), int), DecodeErrorView>(
                    ((pid@, module@, index, uniq), final(self).at()),
                ),
                Err(e) => parse_fun_fields(
                    old(self).input(),
                    old(self).at(),
                    old(self).conversions(),
                ) == Err::<((PidView, Seq<char>, i32, i32), int), DecodeErrorView>(e@),
            },
            r is Ok ==> final(self).at() > old(self).at(),
        decreases left(old(self).input(), old(self).at()), 2nat,
    {
        let pid = self.decode_pid_field()?;
        let module = self.decode_atom_field()?;
        let index = self.decode_fix_field()?;
        let uniq = self.decode_fix_field()?;
        Ok((pid, module, index, uniq))
    }

    fn decode_fun_ext(&mut self) -> (r: DecodeResult)
        requires
            old(self).wf(),
        ensures
            r matches Ok(term) ==> term.exact(),
            final(self).follows(old(self)),
            viewed(r, final(self).at()) == parse_fun(
                old(self).input(),
                old(self).at(),
                old(self).conversions(),
            ),
        decreases left(old(self).input(), old(self).at()), 3nat,
    {
        let num_free = self.read_u32()? as usize;
        let (pid, module, index, uniq) = self.decode_fun_fields()?;
        let free_vars = self.decode_terms(num_free)?;
        let ghost view = InternalFunView::Old {
            module: module@,
            pid: pid@,
            free_vars: terms_view(free_vars@),
            index,
            uniq,
        };
        let fun = InternalFun::Old { module, pid, free_vars, index, uniq };
        assert(fun@ == view);
        Ok(Term::InternalFun(fun))
    }

    /// The fixed fields that open a function of the newer shape.
    fn read_new_fun_head(&mut self) -> (r: Result<(u8, [u8; 16], u32, u32), DecodeError>)
        requires
            old(self).wf(),
        ensures
            final(self).follows(old(self)),
            match r {
                Ok((arity, uniq, index, count)) => new_fun_head(old(self).input(), old(self).at())
                    == Ok::<((u8, Seq<u8>, u32, u32), int), DecodeErrorView>(
                    ((arity, uniq@, index, count), final(self).at()),
                ),
                Err(e) => new_fun_head(old(self).input(), old(self).at()) == Err::<
                    ((u8, Seq<u8>, u32, u32), int),
                    DecodeErrorView,
                >(e@),
            },
            r is Ok ==> final(self).at() > old(self).at(),
    {
        let _size = self.read_u32()?;
        let arity = self.read_u8()?;
        let bytes = self.read_slice(16)?;
        let mut uniq: [u8; 16] = [0; 16];
        let mut i: usize = 0;
        while i < 16
            invariant
                i <= 16,
                bytes@.len() == 16,
                forall|j: int| 0 <= j < i ==> uniq@[j] == bytes@[j],
            decreases 16 - i,
        {
            uniq[i] = bytes[i];
            i += 1;
        }
        assert(uniq@ =~= bytes@);
        let index = self.read_u32()?;
        let num_free = self.read_u32()?;
        Ok((arity, uniq, index, num_free))
    }

    /// The four fields of a function of the newer shape that are terms.
    fn decode_new_fun_fields(&mut self) -> (r: Result<(Atom, i32, i32, Pid), DecodeError>)
        requires
            old(self).wf(),
        ensures
            final(self).follows(old(self)),
            match r {
                Ok((module, old_index, old_uniq, pid)) => parse_new_fun_fields(
                    old(self).input(),
                    old(self).at(),
                    old(self).conversions(),
                ) == Ok::<((Seq<char>, i32, i32, PidView), int), DecodeErrorView>(
                    ((module@, old_index, old_uniq, pid@), final(self).at()),
                ),
                Err(e) => parse_new_fun_fields(
                    old(self).input(),
                    old(self).at(),
                    old(self).conversions(),
                ) == Err::<((Seq<char>, i32, i32, PidView), int), DecodeErrorView>(e@),
            },
            r is Ok ==> final(self).at() > old(self).at(),
        decreases left(old(self).input(), old(self).at()), 2nat,
    {
        let module = self.decode_atom_field()?;
        let old_index = self.decode_fix_field()?;
        let old_uniq = self.decode_fix_field()?;
        let pid = self.decode_pid_field()?;
        Ok((module, old_index, old_uniq, pid))
    }

    fn decode_new_fun_ext(&mut self) -> (r: DecodeResult)
        requires
            old(self).wf(),
        ensures
            r matches Ok(term) ==> term.exact(),
            final(self).follows(old(self)),
            viewed(r, final(self).at()) == parse_new_fun(
                old(self).input(),
                old(self).at(),
                old(self).conversions(),
            ),
        decreases left(old(self).input(), old(self).at()), 3nat,
    {
        let (arity, uniq, index, num_free) = self.read_new_fun_head()?;
        let (module, old_index, old_uniq, pid) = self.decode_new_fun_fields()?;
        let free_vars = self.decode_terms(num_free as usize)?;
        let ghost view = InternalFunView::New {
            module: module@,
            arity,
            pid: pid@,
            free_vars: terms_view(free_vars@),
            index,
            uniq: uniq@,
            old_index,
            old_uniq,
        };
        let fun = InternalFun::New {
            module,
            arity,
            pid,
            free_vars,
            index,
            uniq,
            old_index,
            old_uniq,
        };
        assert(fun@ == view);
        Ok(Term::InternalFun(fun))
    }

    /// The term that starts at the next byte.
    fn decode_term(&mut self) -> (r: DecodeResult)
        requires
            old(self).wf(),
        ensures
            r matches Ok(term) ==> term.exact(),
            final(self).follows(old(self)),
            viewed(r, final(self).at()) == parse_term(
                old(self).input(),
                old(self).at(),
                old(self).conversions(),
            ),
            r is Ok ==> final(self).at() > old(self).at(),
        decreases left(old(self).input(), old(self).at()), 0nat,
    {
        let tag = self.read_u8()?;
        self.decode_term_with_tag(tag)
    }

    /// The term whose tag was the last byte read.
    fn decode_term_with_tag(&mut self, tag: u8) -> (r: DecodeResult)
        requires
            old(self).wf(),
            old(self).at() >= 1,
            old(self).input()[old(self).at() - 1] == tag,
        ensures
            r matches Ok(term) ==> term.exact(),
            final(self).follows(old(self)),
            viewed(r, final(self).at()) == parse_term(
                old(self).input(),
                old(self).at() - 1,
                old(self).conversions(),
            ),
        decreases left(old(self).input(), old(self).at()), 4nat,
    {
        match tag {
            NEW_FLOAT_EXT => self.decode_new_float_ext(),
            BIT_BINARY_EXT => self.decode_bit_binary_ext(),
            SMALL_INTEGER_EXT => self.decode_small_integer_ext(),
            INTEGER_EXT => self.decode_integer_ext(),
            FLOAT_EXT => self.decode_float_ext(),
            ATOM_EXT => self.decode_atom_ext(),
            REFERENCE_EXT => self.decode_reference_ext(),
            PORT_EXT => self.decode_port_ext(),
            PID_EXT => self.decode_pid_ext(),
            SMALL_TUPLE_EXT => self.decode_small_tuple_ext(),
            LARGE_TUPLE_EXT => self.decode_large_tuple_ext(),
            NIL_EXT => self.decode_nil_ext(),
            STRING_EXT => self.decode_string_ext(),
            LIST_EXT => self.decode_list_ext(),
            BINARY_EXT => self.decode_binary_ext(),
            SMALL_BIG_EXT => self.decode_small_big_ext(),
            LARGE_BIG_EXT => self.decode_large_big_ext(),
            NEW_FUN_EXT => self.decode_new_fun_ext(),
            EXPORT_EXT => self.decode_export_ext(),
            NEW_REFERENCE_EXT => self.decode_new_reference_ext(),
            SMALL_ATOM_EXT => self.decode_small_atom_ext(),
            MAP_EXT => self.decode_map_ext(),
            FUN_EXT => self.decode_fun_ext(),
            ATOM_UTF8_EXT => self.decode_atom_utf8_ext(),
            SMALL_ATOM_UTF8_EXT => self.decode_small_atom_utf8_ext(),
            _ => Err(DecodeError::UnknownTag { tag }),
        }
    }

    /// What follows the mark of the compressed form: four bytes that are
    /// not looked at, and a zlib stream that holds a term.
    fn decode_compressed_term(self) -> (r: DecodeResult)
        requires
            self.wf(),
            self.at() == 2,
        ensures
            r matches Ok(term) ==> term.exact(),
            match take_u32(self.input(), 2) {
                Ok(_) => match crate::zlib::inflated(self.input().skip(6)) {
                    Ok(data) => result_view(r) == value_of(
                        parse_term(data, 0, self.conversions()),
                    ),
                    Err(e) => result_view(r) == Err::<TermView, DecodeErrorView>(
                        DecodeErrorView::Io(e),
                    ),
                },
                Err(e) => result_view(r) == Err::<TermView, DecodeErrorView>(e),
            },
    {
        let mut outer = self;
        let _uncompressed_size = outer.read_u32()?;
        let rest = slice_subrange(outer.reader, outer.position, outer.reader.len());
        assert(rest@ =~= self.input().skip(6));
        match inflate(rest) {
            Ok(data) => Decoder::new(data.as_slice()).with_floats(outer.floats).decode_body(),
            Err(e) => Err(DecodeError::Io(e)),
        }
    }

    /// Reads a term that stands without a version byte before it, as a term
    /// does inside a compressed one, and leaves unread what follows it. The
    /// term that comes back holds in its fields what its view shows.
    pub fn decode_body(self) -> (r: DecodeResult)
        ensures
            result_view(r) == value_of(parse_term(self.input(), 0, self.conversions())),
            r matches Ok(term) ==> term@.wf() && writable(term_defect(term@)),
            r matches Ok(term) ==> term.exact(),
            r matches Err(e) ==> !(e is UnsupportedVersion),
            self.input().len() >= 9 && self.input()[0] == 70 ==> (if finite(
                be64_at(self.input(), 1),
            ) {
                r matches Ok(Term::Float(x)) && x.bits == be64_at(self.input(), 1)
            } else {
                r matches Err(DecodeError::NonFiniteFloat)
            }),
    {
        proof {
            crate::decoded::lemma_term_sound(self.input(), 0, self.conversions());
            reveal(parse_new_float);
        }
        let mut decoder = Decoder { reader: self.reader, position: 0, floats: self.floats };
        decoder.decode_term()
    }

    /// Reads the version byte and the term behind it, and leaves unread
    /// what follows the term. The version is refused exactly where the
    /// first byte is not 131. The term that comes back is well formed, and
    /// the encoder accepts it unless it holds an improper list without an
    /// element before its tail. A float of 64 bits comes back with the bits
    /// that the input holds, unless they stand for an infinity or a NaN,
    /// which is refused. The term holds in its fields what its view shows:
    /// the magnitude of a large integer ends in no zero byte, and the last
    /// byte of a bit string holds only the bits that count.
    pub fn decode(self) -> (r: DecodeResult)
        ensures
            result_view(r) == parse(self.input(), self.conversions()),
            r matches Ok(term) ==> term@.wf() && writable(term_defect(term@)),
            r matches Ok(term) ==> term.exact(),
            r matches Err(DecodeError::UnconvertedFloat { text }) ==> converted(
                self.conversions(),
                text@,
            ) is None,
            (r matches Err(e) && e is UnsupportedVersion) <==> (self.input().len() > 0
                && self.input()[0] != 131),
            self.input().len() >= 10 && self.input()[0] == 131 && self.input()[1] == 70 ==> (
            if finite(be64_at(self.input(), 2)) {
                r matches Ok(Term::Float(x)) && x.bits == be64_at(self.input(), 2)
            } else {
                r matches Err(DecodeError::NonFiniteFloat)
            }),
    {
        proof {
            crate::decoded::lemma_decoded_wf(self.input(), self.conversions());
            reveal(parse_new_float);
        }
        let mut decoder = Decoder { reader: self.reader, position: 0, floats: self.floats };
        let version = decoder.read_u8()?;
        if version != VERSION {
            return Err(DecodeError::UnsupportedVersion { version });
        }
        let tag = decoder.read_u8()?;
        if tag == COMPRESSED_TERM {
            decoder.decode_compressed_term()
        } else {
            decoder.decode_term_with_tag(tag)
        }
    }
}

/// Once a term of a run cannot be read, no longer run can.
pub proof fn lemma_parse_terms_fails(
    s: Seq<u8>,
    at: int,
    m: nat,
    n: nat,
    floats: Seq<FloatTextView>,
)
    requires
        m <= n,
        parse_terms(s, at, m, floats) is Err,
    ensures
        parse_terms(s, at, n, floats) == parse_terms(s, at, m, floats),
    decreases n,
{
    if m < n {
        lemma_parse_terms_fails(s, at, m, (n - 1) as nat, floats);
    }
}

/// Once an entry of a run cannot be read, no longer run can.
pub proof fn lemma_parse_entries_fails(
    s: Seq<u8>,
    at: int,
    m: nat,
    n: nat,
    floats: Seq<FloatTextView>,
)
    requires
        m <= n,
        parse_entries(s, at, m, floats) is Err,
    ensures
        parse_entries(s, at, n, floats) == parse_entries(s, at, m, floats),
    decreases n,
{
    if m < n {
        lemma_parse_entries_fails(s, at, m, (n - 1) as nat, floats);
    }
}

} // verus!
