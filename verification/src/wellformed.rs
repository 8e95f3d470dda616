//! Telling whether a term is well formed.

use crate::bigint::lemma_canonical;
use crate::error::{DecodeError, DecodeErrorView};
use crate::term::{
    all_wf, entries_view, finite, low_bits, max_len, significant, terms_view, BitBinary, Float,
    ImproperList, ImproperListView, InternalFun, List, Mapping, Term, TermView, Tuple,
};
use vstd::prelude::*;

verus! {

/// Taking the low bits of a byte twice takes them once.
pub proof fn lemma_low_bits(byte: u8, bits: u8)
    requires
        1 <= bits <= 8,
    ensures
        low_bits(low_bits(byte, bits), bits) == low_bits(byte, bits),
{
    let shift = (8 - bits) as u8;
    assert((((byte << shift) >> shift) << shift) >> shift == (byte << shift) >> shift)
        by (bit_vector)
        requires
            shift < 8,
    ;
}

/// The view of a bit binary holds no bits but those that belong to it.
pub proof fn lemma_significant(bytes: Seq<u8>, bits: u8)
    requires
        1 <= bits <= 8,
    ensures
        significant(significant(bytes, bits), bits) == significant(bytes, bits),
{
    if bytes.len() > 0 {
        lemma_low_bits(bytes.last(), bits);
        let once = significant(bytes, bits);
        assert(once.drop_last() =~= bytes.drop_last());
        assert(significant(once, bits) =~= once);
    }
}

/// Whether a count of items or bytes fits in 32 bits.
fn fits(len: usize) -> (r: bool)
    ensures
        r == (len <= 0xffff_ffff),
{
    len as u64 <= 0xffff_ffff
}

impl Float {
    /// The float with the given bits, where they stand for a number.
    pub fn from_bits(bits: u64) -> (r: Result<Float, DecodeError>)
        ensures
            match r {
                Ok(x) => finite(bits) && x.bits == bits,
                Err(e) => !finite(bits) && e@ == DecodeErrorView::NonFiniteFloat,
            },
    {
        if bits / 0x10_0000_0000_0000 % 0x800 != 0x7ff {
            Ok(Float { bits })
        } else {
            Err(DecodeError::NonFiniteFloat)
        }
    }

    /// Whether the bits stand for a number.
    pub fn is_finite(&self) -> (r: bool)
        ensures
            r == finite(self.bits),
    {
        self.bits / 0x10_0000_0000_0000 % 0x800 != 0x7ff
    }
}

impl BitBinary {
    /// Whether the last byte is said to hold 1 to 8 bits, and the count of
    /// the bytes fits in 32 bits.
    pub fn is_wf(&self) -> (r: bool)
        ensures
            r == self@.wf(),
    {
        proof {
            if 1 <= self.tail_bits_size <= 8 {
                lemma_significant(self.bytes@, self.tail_bits_size);
            }
        }
        1 <= self.tail_bits_size && self.tail_bits_size <= 8 && fits(self.bytes.len())
    }
}

impl BitBinary {
    /// The bit binary with the given bytes, of whose last byte the low
    /// `tail_bits_size` bits belong to it; none where that is not 1 to 8, or
    /// where the count of the bytes does not fit in 32 bits.
    pub fn new(bytes: Vec<u8>, tail_bits_size: u8) -> (r: Option<BitBinary>)
        ensures
            match r {
                Some(x) => x.bytes@ == bytes@ && x.tail_bits_size == tail_bits_size && x@.wf(),
                None => !(1 <= tail_bits_size <= 8 && bytes@.len() <= max_len()),
            },
    {
        let x = BitBinary { bytes, tail_bits_size };
        proof {
            if 1 <= tail_bits_size <= 8 {
                lemma_significant(x.bytes@, tail_bits_size);
            }
        }
        if x.is_wf() {
            Some(x)
        } else {
            None
        }
    }
}

impl ImproperList {
    /// The improper list with the given elements and tail; none where there
    /// is no element, where the tail is the empty list, which would make the
    /// list a proper one, or where a part is not well formed.
    pub fn new(elements: Vec<Term>, last: Term) -> (r: Option<ImproperList>)
        ensures
            match r {
                Some(x) => x@.elements == terms_view(elements@) && *x@.last == last@
                    && elements@.len() > 0 && TermView::ImproperList(x@).wf(),
                None => elements@.len() == 0 || !TermView::ImproperList(
                    ImproperListView { elements: terms_view(elements@), last: Box::new(last@) },
                ).wf(),
            },
    {
        if elements.len() == 0 {
            return None;
        }
        let x = Term::ImproperList(ImproperList { elements, last: Box::new(last) });
        if x.is_wf() {
            match x {
                Term::ImproperList(x) => Some(x),
                _ => None,
            }
        } else {
            None
        }
    }
}

impl List {
    /// The empty list.
    pub fn nil() -> (r: List)
        ensures
            r@ == Seq::<TermView>::empty(),
    {
        let elements: Vec<Term> = Vec::new();
        assert(terms_view(elements@) =~= Seq::<TermView>::empty());
        List { elements }
    }

    /// Whether the list is empty.
    pub fn is_nil(&self) -> (r: bool)
        ensures
            r == (TermView::List(self@) == TermView::nil()),
    {
        let r = self.elements.len() == 0;
        assert(r == (self@ =~= Seq::<TermView>::empty()));
        r
    }
}

/// Whether each of the terms is well formed.
fn all_terms_wf(terms: &Vec<Term>) -> (r: bool)
    ensures
        r == all_wf(terms_view(terms@)),
    decreases terms, 0nat,
{
    let ghost views = terms_view(terms@);
    let mut i: usize = 0;
    while i < terms.len()
        invariant
            i <= terms@.len(),
            views == terms_view(terms@),
            forall|j: int| 0 <= j < i ==> (#[trigger] views[j]).wf(),
        decreases terms@.len() - i,
    {
        assert(views[i as int] == terms@[i as int]@);
        if !terms[i].is_wf() {
            return false;
        }
        i += 1;
    }
    true
}

/// Whether each key and each value of the entries is well formed.
fn all_entries_wf(entries: &Vec<(Term, Term)>) -> (r: bool)
    ensures
        r == (forall|i: int|
            #![trigger entries_view(entries@)[i]]
            0 <= i < entries@.len() ==> entries_view(entries@)[i].0.wf() && entries_view(
                entries@,
            )[i].1.wf()),
    decreases entries, 0nat,
{
    let ghost views = entries_view(entries@);
    let mut i: usize = 0;
    while i < entries.len()
        invariant
            i <= entries@.len(),
            views == entries_view(entries@),
            forall|j: int| 0 <= j < i ==> (#[trigger] views[j]).0.wf() && views[j].1.wf(),
        decreases entries@.len() - i,
    {
        assert(views[i as int] == (entries@[i as int].0@, entries@[i as int].1@));
        let entry = &entries[i];
        if !entry.0.is_wf() || !entry.1.is_wf() {
            return false;
        }
        i += 1;
    }
    true
}

impl InternalFun {
    /// Whether the function is well formed: its free variables are, and
    /// their count fits in 32 bits.
    pub fn is_wf(&self) -> (r: bool)
        ensures
            r == TermView::InternalFun(self@).wf(),
        decreases self,
    {
        match self {
            InternalFun::Old { free_vars, .. } => fits(free_vars.len()) && all_terms_wf(free_vars),
            InternalFun::New { free_vars, uniq, .. } => {
                assert(uniq@.len() == 16);
                fits(free_vars.len()) && all_terms_wf(free_vars)
            },
        }
    }
}

impl Term {
    /// Whether the term is well formed: what the encoder asks of a term
    /// before it writes it, and what holds of every term that the decoder
    /// returns.
    pub fn is_wf(&self) -> (r: bool)
        ensures
            r == self@.wf(),
        decreases self,
    {
        match self {
            Term::Atom(_) => true,
            Term::FixInteger(_) => true,
            Term::BigInteger(x) => {
                proof {
                    lemma_canonical(x.sign, x.magnitude@);
                }
                true
            },
            Term::Float(x) => x.is_finite(),
            Term::Pid(_) => true,
            Term::Port(_) => true,
            Term::Reference(_) => true,
            Term::ExternalFun(_) => true,
            Term::InternalFun(x) => x.is_wf(),
            Term::Binary(x) => fits(x.bytes.len()),
            Term::BitBinary(x) => x.is_wf(),
            Term::List(x) => {
                assert(self@ == TermView::List(x@));
                fits(x.elements.len()) && all_terms_wf(&x.elements)
            },
            Term::ImproperList(x) => {
                assert(self@ == TermView::ImproperList(x@));
                let proper = match &*x.last {
                    Term::List(l) => l.is_nil(),
                    _ => false,
                };
                assert(proper == (x.last@ == TermView::nil()));
                fits(x.elements.len()) && all_terms_wf(&x.elements) && x.last.is_wf() && !proper
            },
            Term::Tuple(x) => {
                assert(self@ == TermView::Tuple(x@));
                fits(x.elements.len()) && all_terms_wf(&x.elements)
            },
            Term::Mapping(x) => {
                assert(self@ == TermView::Mapping(x@));
                fits(x.entries.len()) && all_entries_wf(&x.entries)
            },
        }
    }
}

} // verus!
