//! Writing a term as bytes.

use crate::bigint::{normalize, sign_to_byte};
use crate::endian::{append, i32_bytes, u16_bytes, u32_bytes, u64_bytes};
use crate::endian::{be16, be32, be64, unsigned32};
use crate::error::{EncodeError, EncodeErrorView, EncodeResult};
use crate::tag::{
    ATOM_EXT, ATOM_UTF8_EXT, BINARY_EXT, BIT_BINARY_EXT, EXPORT_EXT, FUN_EXT, INTEGER_EXT,
    LARGE_BIG_EXT, LARGE_TUPLE_EXT, LIST_EXT, MAP_EXT, NEW_FLOAT_EXT, NEW_FUN_EXT,
    NEW_REFERENCE_EXT, NIL_EXT, PID_EXT, PORT_EXT, SMALL_BIG_EXT, SMALL_INTEGER_EXT,
    SMALL_TUPLE_EXT, STRING_EXT, VERSION,
};
use crate::term::{
    all_wf, entries_view, low_bits, max_len, terms_view, Atom, BigInteger, Binary, BitBinary,
    ExternalFun, FixInteger, Float, ImproperList, InternalFun, InternalFunView, List, Mapping, Pid,
    Port, Reference, Term, TermView, Tuple,
};
use crate::wire::{
    as_byte, atom_defect, atom_wire, big_defect, big_wire, binary_wire, bit_binary_wire, encoding,
    entries_defect, entries_wire, external_fun_wire, first, fix_wire, float_wire, fun_defect,
    fun_wire, improper_list_wire, is_ascii, is_string, list_wire, map_wire, new_fun_body, pid_wire,
    port_wire, raised, reference_defect, reference_wire, string_bytes, term_defect, term_wire,
    terms_defect, terms_wire, tuple_wire, words_wire,
};
use vstd::prelude::*;

verus! {

/// What a step of the encoder owes: where the term has a defect it returns
/// it, and else it has written the term's bytes behind what was there.
spec fn wrote(
    before: Seq<u8>,
    after: Seq<u8>,
    r: Result<(), EncodeError>,
    bytes: Seq<u8>,
    defect: Option<EncodeErrorView>,
) -> bool {
    match r {
        Ok(_) => defect is None && after == before + bytes,
        Err(e) => defect == Some(e@),
    }
}

/// An encoder of terms, which writes behind the bytes that it is made with.
pub struct Encoder {
    writer: Vec<u8>,
}

/// Whether all the bytes are below 128.
fn all_ascii(bytes: &[u8]) -> (r: bool)
    ensures
        r == is_ascii(bytes@),
{
    let mut i: usize = 0;
    while i < bytes.len()
        invariant
            i <= bytes@.len(),
            forall|j: int| 0 <= j < i ==> bytes@[j] < 0x80,
        decreases bytes@.len() - i,
    {
        if bytes[i] >= 0x80 {
            return false;
        }
        i += 1;
    }
    true
}

/// The byte that a term is written as inside a string, if it is one.
fn to_byte(term: &Term) -> (r: Option<u8>)
    ensures
        r == as_byte(term@),
{
    match term {
        Term::FixInteger(x) => {
            if 0 <= x.value && x.value <= 0xff {
                Some(x.value as u8)
            } else {
                None
            }
        },
        _ => None,
    }
}

/// Whether a list is written as a string.
fn string_form(elements: &Vec<Term>) -> (r: bool)
    ensures
        r == is_string(terms_view(elements@)),
{
    let ghost terms = terms_view(elements@);
    if elements.len() == 0 || elements.len() > 0xffff {
        return false;
    }
    let mut i: usize = 0;
    while i < elements.len()
        invariant
            i <= elements@.len(),
            terms == terms_view(elements@),
            forall|j: int| 0 <= j < i ==> as_byte(#[trigger] terms[j]) is Some,
        decreases elements@.len() - i,
    {
        if to_byte(&elements[i]).is_none() {
            assert(as_byte(terms[i as int]) is None);
            return false;
        }
        i += 1;
    }
    true
}

/// The size that a function of the newer shape states, for a body of `len`
/// bytes.
fn size_field(len: usize) -> (r: u32)
    ensures
        r == (4 + len) % 0x1_0000_0000,
{
    let low: u64 = len as u64 % 0x1_0000_0000;
    let size: u64 = (low + 4) % 0x1_0000_0000;
    assert(size == (4 + len) % 0x1_0000_0000) by {
        vstd::arithmetic::div_mod::lemma_add_mod_noop(len as int, 4, 0x1_0000_0000);
        vstd::arithmetic::div_mod::lemma_small_mod(4, 0x1_0000_0000);
    }
    size as u32
}

impl Encoder {
    /// The bytes that the encoder holds.
    pub closed spec fn written(&self) -> Seq<u8> {
        self.writer@
    }

    /// An encoder that writes behind the bytes of `writer`.
    pub fn new(writer: Vec<u8>) -> (r: Self)
        ensures
            r.written() == writer@,
    {
        Encoder { writer }
    }

    /// Writes the version byte and the term, and returns all that the
    /// encoder then holds; or returns why the term cannot be written. An
    /// improper list without an element before its tail is not written.
    ///
    /// The shorter form is taken wherever there are two: an integer in
    /// 0..=255 is written in one byte, a tuple of fewer than 256 elements
    /// with its arity in one byte, and a list of 1 to 65535 such integers as
    /// a string of bytes.
    pub fn encode(self, term: &Term) -> (r: EncodeResult)
        requires
            term@.wf(),
        ensures
            match r {
                Ok(bytes) => term_defect(term@) is None && bytes@ == self.written() + encoding(
                    term@,
                ),
                Err(e) => term_defect(term@) == Some(e@),
            },
            r matches Ok(bytes) ==> bytes@[self.written().len() as int] == VERSION,
            term matches Term::ImproperList(x) ==> (x.elements@.len() == 0 ==> (r matches Err(
                EncodeError::EmptyImproperList(y),
            ) && y@ == x@)),
            term@ matches TermView::FixInteger(v) ==> (0 <= v <= 255 ==> (r matches Ok(bytes)
                && bytes@ == self.written() + seq![131u8, 97u8, v as u8])),
            term@ matches TermView::Tuple(elements) ==> (elements.len() < 256 ==> (r matches Ok(
                bytes,
            ) ==> bytes@ == self.written() + seq![131u8, 104u8, elements.len() as u8]
                + terms_wire(elements, elements.len()))),
            term@ matches TermView::List(elements) ==> (is_string(elements) ==> (r matches Ok(
                bytes,
            ) && bytes@ == self.written() + seq![131u8, 107u8] + be16(elements.len() as u16)
                + string_bytes(elements))),
    {
        proof {
            reveal(fix_wire);
            if term is ImproperList {
                let elements = term->ImproperList_0.elements@;
                assert(terms_view(elements).len() == elements.len());
            }
            match term@ {
                TermView::FixInteger(v) => {
                    if 0 <= v <= 255 {
                        assert(seq![VERSION] + seq![97u8, v as u8] =~= seq![131u8, 97u8, v as u8]);
                    }
                },
                TermView::Tuple(elements) => {
                    if elements.len() < 256 {
                        assert(seq![VERSION] + (seq![104u8, elements.len() as u8] + terms_wire(
                            elements,
                            elements.len(),
                        )) =~= seq![131u8, 104u8, elements.len() as u8] + terms_wire(
                            elements,
                            elements.len(),
                        ));
                    }
                },
                TermView::List(elements) => {
                    if is_string(elements) {
                        assert(seq![VERSION] + (seq![107u8] + be16(elements.len() as u16)
                            + string_bytes(elements)) =~= seq![131u8, 107u8] + be16(
                            elements.len() as u16,
                        ) + string_bytes(elements));
                    }
                },
                _ => {},
            }
        }
        let mut encoder = self;
        encoder.put_u8(VERSION);
        match encoder.encode_term(term) {
            Ok(()) => {
                assert(encoder.writer@ =~= self.written() + encoding(term@));
                Ok(encoder.writer)
            },
            Err(e) => Err(e),
        }
    }

    /// Writes the term as [`Encoder::encode`] does, where the term is well
    /// formed, and returns nothing where it is not.
    pub fn try_encode(self, term: &Term) -> (r: Option<EncodeResult>)
        ensures
            match r {
                Some(Ok(bytes)) => term@.wf() && term_defect(term@) is None && bytes@
                    == self.written() + encoding(term@),
                Some(Err(e)) => term@.wf() && term_defect(term@) == Some(e@),
                None => !term@.wf(),
            },
    {
        if term.is_wf() {
            Some(self.encode(term))
        } else {
            None
        }
    }

    fn put_u8(&mut self, byte: u8)
        ensures
            final(self).written() == old(self).written().push(byte),
    {
        self.writer.push(byte);
    }

    fn put_u16(&mut self, n: u16)
        ensures
            final(self).written() == old(self).written() + be16(n),
    {
        let bytes = u16_bytes(n);
        append(&mut self.writer, bytes.as_slice());
    }

    fn put_u32(&mut self, n: u32)
        ensures
            final(self).written() == old(self).written() + be32(n),
    {
        let bytes = u32_bytes(n);
        append(&mut self.writer, bytes.as_slice());
    }

    fn put_i32(&mut self, v: i32)
        ensures
            final(self).written() == old(self).written() + be32(unsigned32(v)),
    {
        let bytes = i32_bytes(v);
        append(&mut self.writer, bytes.as_slice());
    }

    fn put_u64(&mut self, n: u64)
        ensures
            final(self).written() == old(self).written() + be64(n),
    {
        let bytes = u64_bytes(n);
        append(&mut self.writer, bytes.as_slice());
    }

    fn put_all(&mut self, bytes: &[u8])
        ensures
            final(self).written() == old(self).written() + bytes@,
    {
        append(&mut self.writer, bytes);
    }

    fn encode_nil(&mut self) -> (r: Result<(), EncodeError>)
        ensures
            r is Ok,
            final(self).written() == old(self).written().push(NIL_EXT),
    {
        self.put_u8(NIL_EXT);
        Ok(())
    }

    fn encode_fix_integer(&mut self, x: &FixInteger) -> (r: Result<(), EncodeError>)
        ensures
            wrote(old(self).written(), final(self).written(), r, fix_wire(x.value), None),
    {
        proof {
            reveal(fix_wire);
        }
        if 0 <= x.value && x.value <= 0xff {
            self.put_u8(SMALL_INTEGER_EXT);
            self.put_u8(x.value as u8);
        } else {
            self.put_u8(INTEGER_EXT);
            self.put_i32(x.value);
        }
        assert(self.writer@ =~= old(self).written() + fix_wire(x.value));
        Ok(())
    }

    fn encode_float(&mut self, x: &Float) -> (r: Result<(), EncodeError>)
        ensures
            wrote(old(self).written(), final(self).written(), r, float_wire(x.bits), None),
    {
        proof {
            reveal(float_wire);
        }
        self.put_u8(NEW_FLOAT_EXT);
        self.put_u64(x.bits);
        assert(self.writer@ =~= old(self).written() + float_wire(x.bits));
        Ok(())
    }

    fn encode_atom(&mut self, x: &Atom) -> (r: Result<(), EncodeError>)
        ensures
            wrote(old(self).written(), final(self).written(), r, atom_wire(x@), atom_defect(x@)),
    {
        proof {
            reveal(atom_wire);
        }
        let bytes = x.name.as_str().as_bytes();
        if bytes.len() > 0xffff {
            return Err(EncodeError::TooLongAtomName(x.clone()));
        }
        if all_ascii(bytes) {
            self.put_u8(ATOM_EXT);
        } else {
            self.put_u8(ATOM_UTF8_EXT);
        }
        self.put_u16(bytes.len() as u16);
        self.put_all(bytes);
        assert(self.writer@ =~= old(self).written() + atom_wire(x@));
        Ok(())
    }

    fn encode_big_integer(&mut self, x: &BigInteger) -> (r: Result<(), EncodeError>)
        ensures
            wrote(old(self).written(), final(self).written(), r, big_wire(x@), big_defect(x@)),
    {
        proof {
            reveal(big_wire);
        }
        let (sign, bytes) = normalize(x.sign, x.magnitude.as_slice());
        if bytes.len() <= 0xff {
            self.put_u8(SMALL_BIG_EXT);
            self.put_u8(bytes.len() as u8);
        } else if bytes.len() <= 0xffff_ffff {
            self.put_u8(LARGE_BIG_EXT);
            self.put_u32(bytes.len() as u32);
        } else {
            return Err(EncodeError::TooLargeInteger(x.clone()));
        }
        self.put_u8(sign_to_byte(sign));
        self.put_all(bytes.as_slice());
        assert(self.writer@ =~= old(self).written() + big_wire(x@));
        Ok(())
    }

    fn encode_pid(&mut self, x: &Pid) -> (r: Result<(), EncodeError>)
        ensures
            wrote(
                old(self).written(),
                final(self).written(),
                r,
                pid_wire(x@),
                atom_defect(x.node@),
            ),
    {
        proof {
            reveal(pid_wire);
        }
        self.put_u8(PID_EXT);
        self.encode_atom(&x.node)?;
        self.put_u32(x.id);
        self.put_u32(x.serial);
        self.put_u8(x.creation);
        assert(self.writer@ =~= old(self).written() + pid_wire(x@));
        Ok(())
    }

    fn encode_port(&mut self, x: &Port) -> (r: Result<(), EncodeError>)
        ensures
            wrote(
                old(self).written(),
                final(self).written(),
                r,
                port_wire(x@),
                atom_defect(x.node@),
            ),
    {
        proof {
            reveal(port_wire);
        }
        self.put_u8(PORT_EXT);
        self.encode_atom(&x.node)?;
        self.put_u32(x.id);
        self.put_u8(x.creation);
        assert(self.writer@ =~= old(self).written() + port_wire(x@));
        Ok(())
    }

    fn encode_reference(&mut self, x: &Reference) -> (r: Result<(), EncodeError>)
        ensures
            wrote(
                old(self).written(),
                final(self).written(),
                r,
                reference_wire(x@),
                reference_defect(x@),
            ),
    {
        proof {
            reveal(reference_wire);
        }
        self.put_u8(NEW_REFERENCE_EXT);
        if x.id.len() > 0xffff {
            return Err(EncodeError::TooLargeReferenceId(x.clone()));
        }
        self.put_u16(x.id.len() as u16);
        self.encode_atom(&x.node)?;
        self.put_u8(x.creation);
        let ghost base = self.writer@;
        let mut i: usize = 0;
        while i < x.id.len()
            invariant
                i <= x.id@.len(),
                self.writer@ == base + words_wire(x.id@, i as nat),
            decreases x.id@.len() - i,
        {
            self.put_u32(x.id[i]);
            i += 1;
            assert(self.writer@ =~= base + words_wire(x.id@, i as nat));
        }
        assert(self.writer@ =~= old(self).written() + reference_wire(x@));
        Ok(())
    }

    fn encode_external_fun(&mut self, x: &ExternalFun) -> (r: Result<(), EncodeError>)
        ensures
            wrote(
                old(self).written(),
                final(self).written(),
                r,
                external_fun_wire(x@),
                first(atom_defect(x.module@), atom_defect(x.function@)),
            ),
    {
        proof {
            reveal(external_fun_wire);
        }
        self.put_u8(EXPORT_EXT);
        self.encode_atom(&x.module)?;
        self.encode_atom(&x.function)?;
        self.encode_fix_integer(&FixInteger { value: x.arity as i32 })?;
        assert(self.writer@ =~= old(self).written() + external_fun_wire(x@));
        Ok(())
    }

    fn encode_binary(&mut self, x: &Binary) -> (r: Result<(), EncodeError>)
        requires
            x.bytes@.len() <= max_len(),
        ensures
            wrote(old(self).written(), final(self).written(), r, binary_wire(x@), None),
    {
        proof {
            reveal(binary_wire);
        }
        self.put_u8(BINARY_EXT);
        self.put_u32(x.bytes.len() as u32);
        self.put_all(x.bytes.as_slice());
        assert(self.writer@ =~= old(self).written() + binary_wire(x@));
        Ok(())
    }

    fn encode_bit_binary(&mut self, x: &BitBinary) -> (r: Result<(), EncodeError>)
        requires
            x@.wf(),
        ensures
            wrote(old(self).written(), final(self).written(), r, bit_binary_wire(x@), None),
    {
        proof {
            reveal(bit_binary_wire);
        }
        self.put_u8(BIT_BINARY_EXT);
        self.put_u32(x.bytes.len() as u32);
        self.put_u8(x.tail_bits_size);
        let n = x.bytes.len();
        if n > 0 {
            self.put_all(vstd::slice::slice_subrange(x.bytes.as_slice(), 0, n - 1));
            let last = x.bytes[n - 1];
            let bits = x.tail_bits_size;
            let shift: u8 = 8 - bits;
            assert(last << shift == ((last << shift) >> shift) << shift) by (bit_vector)
                requires
                    shift < 8,
            ;
            assert(raised(low_bits(last, bits), bits) == last << shift);
            self.put_u8(last << shift);
            assert(x.bytes@.subrange(0, n - 1) =~= x@.bytes.drop_last());
        }
        assert(self.writer@ =~= old(self).written() + bit_binary_wire(x@));
        Ok(())
    }

    /// Writes the terms of `elements`, one after the other.
    fn encode_terms(&mut self, elements: &Vec<Term>) -> (r: Result<(), EncodeError>)
        requires
            all_wf(terms_view(elements@)),
        ensures
            wrote(
                old(self).written(),
                final(self).written(),
                r,
                terms_wire(terms_view(elements@), elements@.len()),
                terms_defect(terms_view(elements@), elements@.len()),
            ),
        decreases elements, 0nat,
    {
        let ghost terms = terms_view(elements@);
        let ghost base = self.writer@;
        let mut i: usize = 0;
        assert(self.writer@ =~= base + terms_wire(terms, 0));
        while i < elements.len()
            invariant
                i <= elements@.len(),
                terms == terms_view(elements@),
                all_wf(terms),
                self.writer@ == base + terms_wire(terms, i as nat),
                terms_defect(terms, i as nat) is None,
            decreases elements@.len() - i,
        {
            assert(terms[i as int] == elements@[i as int]@);
            assert(terms[i as int].wf());
            match self.encode_term(&elements[i]) {
                Ok(()) => {},
                Err(e) => {
                    proof {
                        lemma_terms_defect(terms, i as nat, terms.len());
                    }
                    return Err(e);
                },
            }
            i += 1;
            assert(self.writer@ =~= base + terms_wire(terms, i as nat));
        }
        Ok(())
    }

    fn encode_list(&mut self, x: &List) -> (r: Result<(), EncodeError>)
        requires
            TermView::List(x@).wf(),
        ensures
            wrote(
                old(self).written(),
                final(self).written(),
                r,
                list_wire(x@),
                term_defect(TermView::List(x@)),
            ),
        decreases x,
    {
        let ghost terms = x@;
        if string_form(&x.elements) {
            self.put_u8(STRING_EXT);
            self.put_u16(x.elements.len() as u16);
            let ghost base = self.writer@;
            let mut i: usize = 0;
            assert(self.writer@ =~= base + string_bytes(terms).subrange(0, 0));
            while i < x.elements.len()
                invariant
                    i <= x.elements@.len(),
                    terms == terms_view(x.elements@),
                    is_string(terms),
                    self.writer@ == base + string_bytes(terms).subrange(0, i as int),
                decreases x.elements@.len() - i,
            {
                assert(terms[i as int] == x.elements@[i as int]@);
                let byte = to_byte(&x.elements[i]).unwrap();
                self.put_u8(byte);
                i += 1;
                assert(self.writer@ =~= base + string_bytes(terms).subrange(0, i as int));
            }
            assert(string_bytes(terms).subrange(0, i as int) =~= string_bytes(terms));
            assert(self.writer@ =~= old(self).written() + list_wire(x@));
        } else {
            if x.elements.len() > 0 {
                self.put_u8(LIST_EXT);
                self.put_u32(x.elements.len() as u32);
                self.encode_terms(&x.elements)?;
            }
            self.encode_nil()?;
            assert(self.writer@ =~= old(self).written() + list_wire(x@));
        }
        Ok(())
    }

    fn encode_improper_list(&mut self, x: &ImproperList) -> (r: Result<(), EncodeError>)
        requires
            TermView::ImproperList(x@).wf(),
        ensures
            wrote(
                old(self).written(),
                final(self).written(),
                r,
                improper_list_wire(x@),
                term_defect(TermView::ImproperList(x@)),
            ),
        decreases x,
    {
        if x.elements.len() == 0 {
            return Err(EncodeError::EmptyImproperList(x.clone()));
        }
        self.put_u8(LIST_EXT);
        self.put_u32(x.elements.len() as u32);
        self.encode_terms(&x.elements)?;
        self.encode_term(&x.last)?;
        assert(self.writer@ =~= old(self).written() + improper_list_wire(x@));
        Ok(())
    }

    fn encode_tuple(&mut self, x: &Tuple) -> (r: Result<(), EncodeError>)
        requires
            TermView::Tuple(x@).wf(),
        ensures
            wrote(
                old(self).written(),
                final(self).written(),
                r,
                tuple_wire(x@),
                term_defect(TermView::Tuple(x@)),
            ),
        decreases x,
    {
        if x.elements.len() < 0x100 {
            self.put_u8(SMALL_TUPLE_EXT);
            self.put_u8(x.elements.len() as u8);
        } else {
            self.put_u8(LARGE_TUPLE_EXT);
            self.put_u32(x.elements.len() as u32);
        }
        self.encode_terms(&x.elements)?;
        assert(self.writer@ =~= old(self).written() + tuple_wire(x@));
        Ok(())
    }

    fn encode_map(&mut self, x: &Mapping) -> (r: Result<(), EncodeError>)
        requires
            TermView::Mapping(x@).wf(),
        ensures
            wrote(
                old(self).written(),
                final(self).written(),
                r,
                map_wire(x@),
                term_defect(TermView::Mapping(x@)),
            ),
        decreases x,
    {
        self.put_u8(MAP_EXT);
        self.put_u32(x.entries.len() as u32);
        let ghost entries = x@;
        let ghost base = self.writer@;
        let mut i: usize = 0;
        assert(self.writer@ =~= base + entries_wire(entries, 0));
        while i < x.entries.len()
            invariant
                i <= x.entries@.len(),
                entries == entries_view(x.entries@),
                TermView::Mapping(entries).wf(),
                self.writer@ == base + entries_wire(entries, i as nat),
                entries_defect(entries, i as nat) is None,
            decreases x.entries@.len() - i,
        {
            assert(entries[i as int] == (x.entries@[i as int].0@, x.entries@[i as int].1@));
            assert(entries[i as int].0.wf() && entries[i as int].1.wf());
            let entry = &x.entries[i];
            match self.encode_term(&entry.0) {
                Ok(()) => {},
                Err(e) => {
                    proof {
                        lemma_entries_defect(entries, i as nat, entries.len());
                    }
                    return Err(e);
                },
            }
            match self.encode_term(&entry.1) {
                Ok(()) => {},
                Err(e) => {
                    proof {
                        lemma_entries_defect(entries, i as nat, entries.len());
                    }
                    return Err(e);
                },
            }
            i += 1;
            assert(self.writer@ =~= base + entries_wire(entries, i as nat));
        }
        assert(self.writer@ =~= old(self).written() + map_wire(x@));
        Ok(())
    }

    fn encode_old_fun(
        &mut self,
        module: &Atom,
        pid: &Pid,
        free_vars: &Vec<Term>,
        index: i32,
        uniq: i32,
    ) -> (r: Result<(), EncodeError>)
        requires
            free_vars@.len() <= max_len(),
            all_wf(terms_view(free_vars@)),
        ensures
            ({
                let x = InternalFunView::Old {
                    module: module@,
                    pid: pid@,
                    free_vars: terms_view(free_vars@),
                    index,
                    uniq,
                };
                wrote(old(self).written(), final(self).written(), r, fun_wire(x), fun_defect(x))
            }),
        decreases free_vars, 1nat,
    {
        let ghost terms = terms_view(free_vars@);
        let ghost base = self.writer@;
        self.put_u8(FUN_EXT);
        self.put_u32(free_vars.len() as u32);
        self.encode_pid(pid)?;
        let ghost head = seq![FUN_EXT] + be32(terms.len() as u32) + pid_wire(pid@);
        assert(self.writer@ =~= base + head);
        self.encode_atom(module)?;
        self.encode_fix_integer(&FixInteger { value: index })?;
        self.encode_fix_integer(&FixInteger { value: uniq })?;
        let ghost head = head + atom_wire(module@) + fix_wire(index) + fix_wire(uniq);
        assert(self.writer@ =~= base + head);
        self.encode_terms(free_vars)?;
        assert(self.writer@ =~= base + (head + terms_wire(terms, terms.len())));
        Ok(())
    }

    /// Writes what follows the size in a function of the newer shape.
    fn encode_new_fun_body(
        &mut self,
        module: &Atom,
        arity: u8,
        pid: &Pid,
        free_vars: &Vec<Term>,
        index: u32,
        uniq: &[u8; 16],
        old_index: i32,
        old_uniq: i32,
    ) -> (r: Result<(), EncodeError>)
        requires
            free_vars@.len() <= max_len(),
            all_wf(terms_view(free_vars@)),
        ensures
            ({
                let x = InternalFunView::New {
                    module: module@,
                    arity,
                    pid: pid@,
                    free_vars: terms_view(free_vars@),
                    index,
                    uniq: uniq@,
                    old_index,
                    old_uniq,
                };
                wrote(old(self).written(), final(self).written(), r, new_fun_body(x), fun_defect(x))
            }),
        decreases free_vars, 1nat,
    {
        let ghost terms = terms_view(free_vars@);
        let ghost base = self.writer@;
        self.put_u8(arity);
        self.put_all(uniq.as_slice());
        self.put_u32(index);
        self.put_u32(free_vars.len() as u32);
        let ghost head = seq![arity] + uniq@ + be32(index) + be32(terms.len() as u32);
        assert(self.writer@ =~= base + head);
        self.encode_atom(module)?;
        self.encode_fix_integer(&FixInteger { value: old_index })?;
        self.encode_fix_integer(&FixInteger { value: old_uniq })?;
        let ghost head = head + atom_wire(module@) + fix_wire(old_index) + fix_wire(old_uniq);
        assert(self.writer@ =~= base + head);
        self.encode_pid(pid)?;
        let ghost head = head + pid_wire(pid@);
        assert(self.writer@ =~= base + head);
        self.encode_terms(free_vars)?;
        assert(self.writer@ =~= base + (head + terms_wire(terms, terms.len())));
        Ok(())
    }

    fn encode_new_fun(
        &mut self,
        module: &Atom,
        arity: u8,
        pid: &Pid,
        free_vars: &Vec<Term>,
        index: u32,
        uniq: &[u8; 16],
        old_index: i32,
        old_uniq: i32,
    ) -> (r: Result<(), EncodeError>)
        requires
            free_vars@.len() <= max_len(),
            all_wf(terms_view(free_vars@)),
        ensures
            ({
                let x = InternalFunView::New {
                    module: module@,
                    arity,
                    pid: pid@,
                    free_vars: terms_view(free_vars@),
                    index,
                    uniq: uniq@,
                    old_index,
                    old_uniq,
                };
                wrote(old(self).written(), final(self).written(), r, fun_wire(x), fun_defect(x))
            }),
        decreases free_vars, 2nat,
    {
        let ghost base = self.writer@;
        self.put_u8(NEW_FUN_EXT);
        let mut body = Encoder::new(Vec::new());
        body.encode_new_fun_body(module, arity, pid, free_vars, index, uniq, old_index, old_uniq)?;
        assert(body.writer@ =~= Seq::<u8>::empty() + body.writer@);
        let size = size_field(body.writer.len());
        self.put_u32(size);
        self.put_all(body.writer.as_slice());
        assert(self.writer@ =~= base + (seq![NEW_FUN_EXT] + be32(size) + body.writer@));
        Ok(())
    }

    fn encode_internal_fun(&mut self, x: &InternalFun) -> (r: Result<(), EncodeError>)
        requires
            TermView::InternalFun(x@).wf(),
        ensures
            wrote(old(self).written(), final(self).written(), r, fun_wire(x@), fun_defect(x@)),
        decreases x,
    {
        match x {
            InternalFun::Old { module, pid, free_vars, index, uniq } => {
                self.encode_old_fun(module, pid, free_vars, *index, *uniq)
            },
            InternalFun::New {
                module,
                arity,
                pid,
                free_vars,
                index,
                uniq,
                old_index,
                old_uniq,
            } => {
                self.encode_new_fun(
                    module,
                    *arity,
                    pid,
                    free_vars,
                    *index,
                    uniq,
                    *old_index,
                    *old_uniq,
                )
            },
        }
    }

    /// Writes a term, without the version byte.
    fn encode_term(&mut self, term: &Term) -> (r: Result<(), EncodeError>)
        requires
            term@.wf(),
        ensures
            wrote(
                old(self).written(),
                final(self).written(),
                r,
                term_wire(term@),
                term_defect(term@),
            ),
        decreases term,
    {
        match term {
            Term::Atom(x) => self.encode_atom(x),
            Term::FixInteger(x) => self.encode_fix_integer(x),
            Term::BigInteger(x) => self.encode_big_integer(x),
            Term::Float(x) => self.encode_float(x),
            Term::Pid(x) => self.encode_pid(x),
            Term::Port(x) => self.encode_port(x),
            Term::Reference(x) => self.encode_reference(x),
            Term::ExternalFun(x) => self.encode_external_fun(x),
            Term::InternalFun(x) => self.encode_internal_fun(x),
            Term::Binary(x) => self.encode_binary(x),
            Term::BitBinary(x) => self.encode_bit_binary(x),
            Term::List(x) => self.encode_list(x),
            Term::ImproperList(x) => self.encode_improper_list(x),
            Term::Tuple(x) => self.encode_tuple(x),
            Term::Mapping(x) => self.encode_map(x),
        }
    }
}

/// Once a term is refused, so is every longer run of the terms that holds it.
pub proof fn lemma_terms_defect(terms: Seq<TermView>, i: nat, n: nat)
    requires
        i < n <= terms.len(),
        terms_defect(terms, i) is None,
    ensures
        term_defect(terms[i as int]) is Some ==> terms_defect(terms, n) == term_defect(
            terms[i as int],
        ),
    decreases n,
{
    if n > i + 1 {
        lemma_terms_defect(terms, i, (n - 1) as nat);
    }
}

/// Once an entry is refused, so is every longer run of the entries that
/// holds it.
pub proof fn lemma_entries_defect(entries: Seq<(TermView, TermView)>, i: nat, n: nat)
    requires
        i < n <= entries.len(),
        entries_defect(entries, i) is None,
    ensures
        ({
            let here = first(term_defect(entries[i as int].0), term_defect(entries[i as int].1));
            here is Some ==> entries_defect(entries, n) == here
        }),
    decreases n,
{
    if n > i + 1 {
        lemma_entries_defect(entries, i, (n - 1) as nat);
    }
}

} // verus!
