//! The terms that the codec reads and writes, and their mathematical views.

use vstd::prelude::*;

verus! {

/// A symbolic name.
#[derive(Debug, PartialEq, Eq, Hash)]
pub struct Atom {
    pub name: String,
}

/// A signed integer of 32 bits.
#[derive(Debug, Clone, Copy, PartialEq, Eq, Hash)]
pub struct FixInteger {
    pub value: i32,
}

/// The sign of an integer of any size.
#[derive(Debug, Clone, Copy, PartialEq, Eq, Hash, Structural)]
pub enum Sign {
    Minus,
    NoSign,
    Plus,
}

/// An integer of any size: its sign, and the bytes of its magnitude, least
/// significant first.
#[derive(Debug, PartialEq, Eq, Hash)]
pub struct BigInteger {
    pub sign: Sign,
    pub magnitude: Vec<u8>,
}

/// A finite number in the IEEE-754 binary64 format, held as its 64 bits.
#[derive(Debug, Clone, Copy, PartialEq, Eq, Hash)]
pub struct Float {
    pub bits: u64,
}

/// The identifier of a process.
#[derive(Debug, PartialEq, Eq, Hash)]
pub struct Pid {
    pub node: Atom,
    pub id: u32,
    pub serial: u32,
    pub creation: u8,
}

/// The identifier of a port.
#[derive(Debug, PartialEq, Eq, Hash)]
pub struct Port {
    pub node: Atom,
    pub id: u32,
    pub creation: u8,
}

/// A reference.
#[derive(Debug, PartialEq, Eq, Hash)]
pub struct Reference {
    pub node: Atom,
    pub id: Vec<u32>,
    pub creation: u8,
}

/// A function that a module exports.
#[derive(Debug, PartialEq, Eq, Hash)]
pub struct ExternalFun {
    pub module: Atom,
    pub function: Atom,
    pub arity: u8,
}

/// A function with its environment, in the older or the newer of two shapes.
#[allow(inconsistent_fields)]
#[derive(Debug, PartialEq, Eq, Hash)]
pub enum InternalFun {
    Old { module: Atom, pid: Pid, free_vars: Vec<Term>, index: i32, uniq: i32 },
    New {
        module: Atom,
        arity: u8,
        pid: Pid,
        free_vars: Vec<Term>,
        index: u32,
        uniq: [u8; 16],
        old_index: i32,
        old_uniq: i32,
    },
}

/// A sequence of bytes.
#[derive(Debug, PartialEq, Eq, Hash)]
pub struct Binary {
    pub bytes: Vec<u8>,
}

/// A sequence of bits that need not end on a byte boundary: of the last byte
/// only the low `tail_bits_size` bits belong to it.
#[derive(Debug, PartialEq, Eq, Hash)]
pub struct BitBinary {
    pub bytes: Vec<u8>,
    pub tail_bits_size: u8,
}

/// A proper list.
#[derive(Debug, PartialEq, Eq, Hash)]
pub struct List {
    pub elements: Vec<Term>,
}

/// A list whose tail is not the empty list. It is to have an element
/// before its tail: the format can hold one that has none, which the decoder
/// reads as it stands and the encoder refuses.
#[derive(Debug, PartialEq, Eq, Hash)]
pub struct ImproperList {
    pub elements: Vec<Term>,
    pub last: Box<Term>,
}

/// A tuple.
#[derive(Debug, PartialEq, Eq, Hash)]
pub struct Tuple {
    pub elements: Vec<Term>,
}

/// A map, as the sequence of its entries: no key is looked up, nothing is
/// reordered and nothing is dropped.
#[derive(Debug, PartialEq, Eq, Hash)]
pub struct Mapping {
    pub entries: Vec<(Term, Term)>,
}

/// A term.
#[derive(Debug, PartialEq, Eq, Hash)]
pub enum Term {
    Atom(Atom),
    FixInteger(FixInteger),
    BigInteger(BigInteger),
    Float(Float),
    Pid(Pid),
    Port(Port),
    Reference(Reference),
    ExternalFun(ExternalFun),
    InternalFun(InternalFun),
    Binary(Binary),
    BitBinary(BitBinary),
    List(List),
    ImproperList(ImproperList),
    Tuple(Tuple),
    Mapping(Mapping),
}

/// The view of a [`BigInteger`]: the sign and the magnitude without its high
/// zero bytes; zero has no sign and the single byte 0.
pub struct BigIntegerView {
    pub sign: Sign,
    pub magnitude: Seq<u8>,
}

/// The view of a [`Pid`].
pub struct PidView {
    pub node: Seq<char>,
    pub id: u32,
    pub serial: u32,
    pub creation: u8,
}

/// The view of a [`Port`].
pub struct PortView {
    pub node: Seq<char>,
    pub id: u32,
    pub creation: u8,
}

/// The view of a [`Reference`].
pub struct ReferenceView {
    pub node: Seq<char>,
    pub id: Seq<u32>,
    pub creation: u8,
}

/// The view of an [`ExternalFun`].
pub struct ExternalFunView {
    pub module: Seq<char>,
    pub function: Seq<char>,
    pub arity: u8,
}

/// The view of an [`InternalFun`].
#[allow(inconsistent_fields)]
pub enum InternalFunView {
    Old { module: Seq<char>, pid: PidView, free_vars: Seq<TermView>, index: i32, uniq: i32 },
    New {
        module: Seq<char>,
        arity: u8,
        pid: PidView,
        free_vars: Seq<TermView>,
        index: u32,
        uniq: Seq<u8>,
        old_index: i32,
        old_uniq: i32,
    },
}

/// The view of a [`BitBinary`]: of the last byte it holds the bits that
/// belong to the value, and zeros above them.
pub struct BitBinaryView {
    pub bytes: Seq<u8>,
    pub tail_bits_size: u8,
}

/// The view of an [`ImproperList`].
pub struct ImproperListView {
    pub elements: Seq<TermView>,
    pub last: Box<TermView>,
}

/// What a [`Term`] is: the same tree, with sequences for vectors and text for
/// strings.
pub enum TermView {
    Atom(Seq<char>),
    FixInteger(i32),
    BigInteger(BigIntegerView),
    Float(u64),
    Pid(PidView),
    Port(PortView),
    Reference(ReferenceView),
    ExternalFun(ExternalFunView),
    InternalFun(InternalFunView),
    Binary(Seq<u8>),
    BitBinary(BitBinaryView),
    List(Seq<TermView>),
    ImproperList(ImproperListView),
    Tuple(Seq<TermView>),
    Mapping(Seq<(TermView, TermView)>),
}

/// The largest number of items or bytes that a count of 32 bits can give.
pub open spec fn max_len() -> int {
    0xffff_ffff
}

/// `bytes` without the zero bytes at its end.
pub open spec fn trimmed(bytes: Seq<u8>) -> Seq<u8>
    decreases bytes.len(),
{
    if bytes.len() > 0 && bytes.last() == 0 {
        trimmed(bytes.drop_last())
    } else {
        bytes
    }
}

/// The one way of writing the integer that `sign` and the little-endian
/// `bytes` stand for.
pub open spec fn canonical(sign: Sign, bytes: Seq<u8>) -> BigIntegerView {
    let magnitude = trimmed(bytes);
    if sign == Sign::NoSign || magnitude.len() == 0 {
        BigIntegerView { sign: Sign::NoSign, magnitude: seq![0u8] }
    } else {
        BigIntegerView { sign, magnitude }
    }
}

/// Whether the 64 bits stand for a number: the exponent is not all ones, so
/// they are neither an infinity nor a NaN.
pub open spec fn finite(bits: u64) -> bool {
    bits / 0x10_0000_0000_0000 % 0x800 != 0x7ff
}

/// The low `bits` bits of `byte`, for `bits` from 1 to 8.
pub open spec fn low_bits(byte: u8, bits: u8) -> u8 {
    (byte << ((8 - bits) as u8)) >> ((8 - bits) as u8)
}

/// `bytes` with only the low `bits` bits of its last byte.
pub open spec fn significant(bytes: Seq<u8>, bits: u8) -> Seq<u8> {
    if bytes.len() == 0 {
        bytes
    } else {
        bytes.drop_last().push(low_bits(bytes.last(), bits))
    }
}

impl BigIntegerView {
    /// No other view stands for the same integer.
    pub open spec fn wf(self) -> bool {
        canonical(self.sign, self.magnitude) == self
    }
}

impl BitBinaryView {
    /// The last byte is said to hold 1 to 8 bits and holds no others, and
    /// the count of the bytes fits in 32 bits.
    pub open spec fn wf(self) -> bool {
        &&& 1 <= self.tail_bits_size <= 8
        &&& self.bytes.len() <= max_len()
        &&& significant(self.bytes, self.tail_bits_size) == self.bytes
    }
}

impl InternalFunView {
    /// The free variables of the function, of either shape.
    pub open spec fn free_vars(self) -> Seq<TermView> {
        match self {
            InternalFunView::Old { free_vars, .. } => free_vars,
            InternalFunView::New { free_vars, .. } => free_vars,
        }
    }
}

/// Every term of `terms` is well formed.
pub open spec fn all_wf(terms: Seq<TermView>) -> bool
    decreases terms,
{
    forall|i: int| 0 <= i < terms.len() ==> (#[trigger] terms[i]).wf()
}

impl TermView {
    /// The empty list.
    pub open spec fn nil() -> TermView {
        TermView::List(Seq::empty())
    }

    /// What holds of every term that the codec reads or is asked to write.
    /// An improper list may be without an element here, as one that was read
    /// can be; the encoder refuses it.
    pub open spec fn wf(self) -> bool
        decreases self,
    {
        match self {
            TermView::Atom(_) => true,
            TermView::FixInteger(_) => true,
            TermView::BigInteger(x) => x.wf(),
            TermView::Float(bits) => finite(bits),
            TermView::Pid(_) => true,
            TermView::Port(_) => true,
            TermView::Reference(_) => true,
            TermView::ExternalFun(_) => true,
            TermView::InternalFun(x) => {
                &&& x.free_vars().len() <= max_len()
                &&& all_wf(x.free_vars())
                &&& x is New ==> x->New_uniq.len() == 16
            },
            TermView::Binary(bytes) => bytes.len() <= max_len(),
            TermView::BitBinary(x) => x.wf(),
            TermView::List(elements) => elements.len() <= max_len() && all_wf(elements),
            TermView::ImproperList(x) => {
                &&& x.elements.len() <= max_len()
                &&& all_wf(x.elements)
                &&& x.last.wf()
                &&& *x.last != TermView::nil()
            },
            TermView::Tuple(elements) => elements.len() <= max_len() && all_wf(elements),
            TermView::Mapping(entries) => {
                &&& entries.len() <= max_len()
                &&& forall|i: int|
                    0 <= i < entries.len() ==> (#[trigger] entries[i]).0.wf() && entries[i].1.wf()
            },
        }
    }
}

impl View for Atom {
    type V = Seq<char>;

    open spec fn view(&self) -> Seq<char> {
        self.name@
    }
}

impl View for BigInteger {
    type V = BigIntegerView;

    open spec fn view(&self) -> BigIntegerView {
        canonical(self.sign, self.magnitude@)
    }
}

impl View for Pid {
    type V = PidView;

    open spec fn view(&self) -> PidView {
        PidView { node: self.node@, id: self.id, serial: self.serial, creation: self.creation }
    }
}

impl View for Port {
    type V = PortView;

    open spec fn view(&self) -> PortView {
        PortView { node: self.node@, id: self.id, creation: self.creation }
    }
}

impl View for Reference {
    type V = ReferenceView;

    open spec fn view(&self) -> ReferenceView {
        ReferenceView { node: self.node@, id: self.id@, creation: self.creation }
    }
}

impl View for ExternalFun {
    type V = ExternalFunView;

    open spec fn view(&self) -> ExternalFunView {
        ExternalFunView { module: self.module@, function: self.function@, arity: self.arity }
    }
}

impl View for BitBinary {
    type V = BitBinaryView;

    open spec fn view(&self) -> BitBinaryView {
        BitBinaryView {
            bytes: significant(self.bytes@, self.tail_bits_size),
            tail_bits_size: self.tail_bits_size,
        }
    }
}

/// The views of the terms of `terms`, in their order.
pub open spec fn terms_view(terms: Seq<Term>) -> Seq<TermView>
    decreases terms,
{
    Seq::new(
        terms.len(),
        |i: int|
            if 0 <= i < terms.len() {
                term_view(terms[i])
            } else {
                arbitrary()
            },
    )
}

/// The views of the entries of a map, in their order.
pub open spec fn entries_view(entries: Seq<(Term, Term)>) -> Seq<(TermView, TermView)>
    decreases entries,
{
    Seq::new(
        entries.len(),
        |i: int|
            if 0 <= i < entries.len() {
                (term_view(entries[i].0), term_view(entries[i].1))
            } else {
                arbitrary()
            },
    )
}

/// The view of a function's value.
pub open spec fn fun_view(fun: InternalFun) -> InternalFunView
    decreases fun,
{
    match fun {
        InternalFun::Old { module, pid, free_vars, index, uniq } => InternalFunView::Old {
            module: module@,
            pid: pid@,
            free_vars: terms_view(free_vars@),
            index,
            uniq,
        },
        InternalFun::New {
            module,
            arity,
            pid,
            free_vars,
            index,
            uniq,
            old_index,
            old_uniq,
        } => InternalFunView::New {
            module: module@,
            arity,
            pid: pid@,
            free_vars: terms_view(free_vars@),
            index,
            uniq: uniq@,
            old_index,
            old_uniq,
        },
    }
}

/// The view of a term.
pub open spec fn term_view(term: Term) -> TermView
    decreases term,
{
    match term {
        Term::Atom(x) => TermView::Atom(x@),
        Term::FixInteger(x) => TermView::FixInteger(x.value),
        Term::BigInteger(x) => TermView::BigInteger(x@),
        Term::Float(x) => TermView::Float(x.bits),
        Term::Pid(x) => TermView::Pid(x@),
        Term::Port(x) => TermView::Port(x@),
        Term::Reference(x) => TermView::Reference(x@),
        Term::ExternalFun(x) => TermView::ExternalFun(x@),
        Term::InternalFun(x) => TermView::InternalFun(fun_view(x)),
        Term::Binary(x) => TermView::Binary(x.bytes@),
        Term::BitBinary(x) => TermView::BitBinary(x@),
        Term::List(x) => TermView::List(terms_view(x.elements@)),
        Term::ImproperList(x) => TermView::ImproperList(
            ImproperListView {
                elements: terms_view(x.elements@),
                last: Box::new(term_view(*x.last)),
            },
        ),
        Term::Tuple(x) => TermView::Tuple(terms_view(x.elements@)),
        Term::Mapping(x) => TermView::Mapping(entries_view(x.entries@)),
    }
}

impl BigInteger {
    /// The integer is held in its canonical form: as its view tells it.
    pub open spec fn exact(&self) -> bool {
        self.sign == self@.sign && self.magnitude@ == self@.magnitude
    }
}

impl BitBinary {
    /// The last byte holds no bits but those that belong to the bit binary:
    /// the bytes are held as the view tells them.
    pub open spec fn exact(&self) -> bool {
        self.bytes@ == self@.bytes
    }
}

/// Each of the terms is held as its view tells it.
pub open spec fn terms_exact(terms: Seq<Term>) -> bool
    decreases terms,
{
    forall|i: int| 0 <= i < terms.len() ==> term_exact(#[trigger] terms[i])
}

/// Each key and each value of the entries is held as its view tells it.
pub open spec fn entries_exact(entries: Seq<(Term, Term)>) -> bool
    decreases entries,
{
    forall|i: int|
        0 <= i < entries.len() ==> term_exact((#[trigger] entries[i]).0) && term_exact(
            entries[i].1,
        )
}

/// The term is held as its view tells it. The view of a term leaves two
/// things out: the high zero bytes and the sign of zero of an integer of
/// any size, and the bits of the last byte of a bit binary that do not
/// belong to it. A term of which this holds has none of them, so that its
/// view tells every byte of it.
pub open spec fn term_exact(term: Term) -> bool
    decreases term,
{
    match term {
        Term::BigInteger(x) => x.exact(),
        Term::BitBinary(x) => x.exact(),
        Term::InternalFun(InternalFun::Old { free_vars, .. }) => terms_exact(free_vars@),
        Term::InternalFun(InternalFun::New { free_vars, .. }) => terms_exact(free_vars@),
        Term::List(x) => terms_exact(x.elements@),
        Term::ImproperList(x) => terms_exact(x.elements@) && term_exact(*x.last),
        Term::Tuple(x) => terms_exact(x.elements@),
        Term::Mapping(x) => entries_exact(x.entries@),
        _ => true,
    }
}

impl Term {
    /// The term is held as its view tells it: see [`term_exact`].
    pub open spec fn exact(&self) -> bool {
        term_exact(*self)
    }
}

impl View for Binary {
    type V = Seq<u8>;

    open spec fn view(&self) -> Seq<u8> {
        self.bytes@
    }
}

impl View for List {
    type V = Seq<TermView>;

    open spec fn view(&self) -> Seq<TermView> {
        terms_view(self.elements@)
    }
}

impl View for ImproperList {
    type V = ImproperListView;

    open spec fn view(&self) -> ImproperListView {
        ImproperListView {
            elements: terms_view(self.elements@),
            last: Box::new(term_view(*self.last)),
        }
    }
}

impl View for Tuple {
    type V = Seq<TermView>;

    open spec fn view(&self) -> Seq<TermView> {
        terms_view(self.elements@)
    }
}

impl View for Mapping {
    type V = Seq<(TermView, TermView)>;

    open spec fn view(&self) -> Seq<(TermView, TermView)> {
        entries_view(self.entries@)
    }
}

impl View for InternalFun {
    type V = InternalFunView;

    open spec fn view(&self) -> InternalFunView {
        fun_view(*self)
    }
}

impl View for Term {
    type V = TermView;

    open spec fn view(&self) -> TermView {
        term_view(*self)
    }
}

impl Clone for Atom {
    fn clone(&self) -> (r: Self)
        ensures
            r == *self,
    {
        Atom { name: self.name.clone() }
    }
}

impl Clone for Pid {
    fn clone(&self) -> (r: Self)
        ensures
            r == *self,
    {
        Pid { node: self.node.clone(), id: self.id, serial: self.serial, creation: self.creation }
    }
}

impl Clone for Port {
    fn clone(&self) -> (r: Self)
        ensures
            r == *self,
    {
        Port { node: self.node.clone(), id: self.id, creation: self.creation }
    }
}

impl Clone for ExternalFun {
    fn clone(&self) -> (r: Self)
        ensures
            r == *self,
    {
        ExternalFun {
            module: self.module.clone(),
            function: self.function.clone(),
            arity: self.arity,
        }
    }
}

impl Clone for Binary {
    fn clone(&self) -> (r: Self)
        ensures
            r@ == self@,
    {
        Binary { bytes: vstd::slice::slice_to_vec(self.bytes.as_slice()) }
    }
}

impl Clone for BitBinary {
    fn clone(&self) -> (r: Self)
        ensures
            r.bytes@ == self.bytes@,
            r.tail_bits_size == self.tail_bits_size,
    {
        BitBinary {
            bytes: vstd::slice::slice_to_vec(self.bytes.as_slice()),
            tail_bits_size: self.tail_bits_size,
        }
    }
}

impl Clone for BigInteger {
    fn clone(&self) -> (r: Self)
        ensures
            r.sign == self.sign,
            r.magnitude@ == self.magnitude@,
    {
        BigInteger {
            sign: self.sign,
            magnitude: vstd::slice::slice_to_vec(self.magnitude.as_slice()),
        }
    }
}

impl Clone for Reference {
    fn clone(&self) -> (r: Self)
        ensures
            r@ == self@,
    {
        Reference {
            node: self.node.clone(),
            id: vstd::slice::slice_to_vec(self.id.as_slice()),
            creation: self.creation,
        }
    }
}

} // verus!
