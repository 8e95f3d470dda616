//! The bytes of a term: what the encoder writes, and which terms it refuses.

use crate::endian::{be16, be32, be64, unsigned32};
use crate::error::EncodeErrorView;
use crate::tag::{
    ATOM_EXT, ATOM_UTF8_EXT, BINARY_EXT, BIT_BINARY_EXT, EXPORT_EXT, FUN_EXT, INTEGER_EXT,
    LARGE_BIG_EXT, LARGE_TUPLE_EXT, LIST_EXT, MAP_EXT, NEW_FLOAT_EXT, NEW_FUN_EXT,
    NEW_REFERENCE_EXT, NIL_EXT, PID_EXT, PORT_EXT, SMALL_BIG_EXT, SMALL_INTEGER_EXT,
    SMALL_TUPLE_EXT, STRING_EXT, VERSION,
};
use crate::term::{
    BigIntegerView, BitBinaryView, ExternalFunView, ImproperListView, InternalFunView, PidView,
    PortView, ReferenceView, Sign, TermView,
};
use vstd::prelude::*;
use vstd::utf8::encode_utf8;

verus! {

/// Every byte is below 128.
pub open spec fn is_ascii(bytes: Seq<u8>) -> bool {
    forall|i: int| 0 <= i < bytes.len() ==> bytes[i] < 0x80
}

/// The byte that stands for a sign: 1 for a negative integer, 0 for any other.
pub open spec fn sign_byte(sign: Sign) -> u8 {
    if sign == Sign::Minus {
        1
    } else {
        0
    }
}

/// The bytes of an atom: the tag of the plain form where the name is ASCII,
/// else that of the UTF-8 form; the length of the name in two bytes; the
/// name in UTF-8.
#[verifier::opaque]
pub open spec fn atom_wire(name: Seq<char>) -> Seq<u8> {
    let bytes = encode_utf8(name);
    seq![if is_ascii(bytes) { ATOM_EXT } else { ATOM_UTF8_EXT }] + be16(bytes.len() as u16) + bytes
}

/// The bytes of a small integer: one byte where it lies in 0..=255, else
/// four.
#[verifier::opaque]
pub open spec fn fix_wire(value: i32) -> Seq<u8> {
    if 0 <= value <= 0xff {
        seq![SMALL_INTEGER_EXT, value as u8]
    } else {
        seq![INTEGER_EXT] + be32(unsigned32(value))
    }
}

/// The bytes of an integer of any size: the count of its magnitude's bytes in
/// one byte where it is below 256, else in four; the sign; the magnitude.
#[verifier::opaque]
pub open spec fn big_wire(x: BigIntegerView) -> Seq<u8> {
    (if x.magnitude.len() <= 0xff {
        seq![SMALL_BIG_EXT, x.magnitude.len() as u8]
    } else {
        seq![LARGE_BIG_EXT] + be32(x.magnitude.len() as u32)
    }) + seq![sign_byte(x.sign)] + x.magnitude
}

/// The bytes of a float: its 64 bits, most significant byte first.
#[verifier::opaque]
pub open spec fn float_wire(bits: u64) -> Seq<u8> {
    seq![NEW_FLOAT_EXT] + be64(bits)
}

/// The bytes of a process identifier: its node, its number, its serial
/// number and its creation.
#[verifier::opaque]
pub open spec fn pid_wire(x: PidView) -> Seq<u8> {
    seq![PID_EXT] + atom_wire(x.node) + be32(x.id) + be32(x.serial) + seq![x.creation]
}

/// The bytes of a port: its node, its number and its creation.
#[verifier::opaque]
pub open spec fn port_wire(x: PortView) -> Seq<u8> {
    seq![PORT_EXT] + atom_wire(x.node) + be32(x.id) + seq![x.creation]
}

/// The first `n` words of `id`, four bytes each.
pub open spec fn words_wire(id: Seq<u32>, n: nat) -> Seq<u8>
    decreases n,
{
    if n == 0 {
        Seq::empty()
    } else {
        words_wire(id, (n - 1) as nat) + be32(id[n - 1])
    }
}

/// The bytes of a reference: the count of its words in two bytes, its node,
/// its creation and its words.
#[verifier::opaque]
pub open spec fn reference_wire(x: ReferenceView) -> Seq<u8> {
    seq![NEW_REFERENCE_EXT] + be16(x.id.len() as u16) + atom_wire(x.node) + seq![x.creation]
        + words_wire(x.id, x.id.len())
}

/// The bytes of an exported function: its module, its name, and its arity
/// as a small integer.
#[verifier::opaque]
pub open spec fn external_fun_wire(x: ExternalFunView) -> Seq<u8> {
    seq![EXPORT_EXT] + atom_wire(x.module) + atom_wire(x.function) + fix_wire(x.arity as i32)
}

/// The bytes of a binary: the count of its bytes in four bytes, and the
/// bytes.
#[verifier::opaque]
pub open spec fn binary_wire(bytes: Seq<u8>) -> Seq<u8> {
    seq![BINARY_EXT] + be32(bytes.len() as u32) + bytes
}

/// The last byte of a bit binary as it is written: its `bits` low bits moved
/// to the top of the byte.
pub open spec fn raised(byte: u8, bits: u8) -> u8 {
    byte << ((8 - bits) as u8)
}

/// The last byte of a bit binary as it is held: the `bits` high bits of the
/// written byte moved to the bottom.
pub open spec fn lowered(byte: u8, bits: u8) -> u8 {
    byte >> ((8 - bits) as u8)
}

/// The bytes of a bit binary: the count of its bytes in four bytes, the
/// number of bits that its last byte holds, and its bytes, of which the last
/// holds its bits at the top.
#[verifier::opaque]
pub open spec fn bit_binary_wire(x: BitBinaryView) -> Seq<u8> {
    seq![BIT_BINARY_EXT] + be32(x.bytes.len() as u32) + seq![x.tail_bits_size] + (if x.bytes.len()
        == 0 {
        x.bytes
    } else {
        x.bytes.drop_last().push(raised(x.bytes.last(), x.tail_bits_size))
    })
}

/// The byte that `term` is written as inside a string, if it is one.
pub open spec fn as_byte(term: TermView) -> Option<u8> {
    match term {
        TermView::FixInteger(value) if 0 <= value <= 0xff => Some(value as u8),
        _ => None,
    }
}

/// The list is written as a string: it is not empty, no longer than 65535,
/// and each of its elements is an integer in 0..=255.
pub open spec fn is_string(elements: Seq<TermView>) -> bool {
    &&& 0 < elements.len() <= 0xffff
    &&& forall|i: int| 0 <= i < elements.len() ==> as_byte(#[trigger] elements[i]) is Some
}

/// The bytes of a list that is written as a string.
pub open spec fn string_bytes(elements: Seq<TermView>) -> Seq<u8> {
    Seq::new(elements.len(), |i: int| as_byte(elements[i]).unwrap())
}

/// The size that a function of the newer shape states: that of its body and
/// of the four bytes of the size itself, as far as 32 bits hold it.
pub open spec fn stated_size(body: Seq<u8>) -> u32 {
    ((4 + body.len()) % 0x1_0000_0000) as u32
}

/// The bytes of the first `n` terms of `terms`, one after the other.
pub open spec fn terms_wire(terms: Seq<TermView>, n: nat) -> Seq<u8>
    decreases terms, n,
{
    if n == 0 || n > terms.len() {
        Seq::empty()
    } else {
        terms_wire(terms, (n - 1) as nat) + term_wire(terms[n - 1])
    }
}

/// The bytes of the first `n` entries of `entries`: each key, then its value.
pub open spec fn entries_wire(entries: Seq<(TermView, TermView)>, n: nat) -> Seq<u8>
    decreases entries, n,
{
    if n == 0 || n > entries.len() {
        Seq::empty()
    } else {
        entries_wire(entries, (n - 1) as nat) + term_wire(entries[n - 1].0) + term_wire(
            entries[n - 1].1,
        )
    }
}

/// The bytes of a proper list: a string where it can be one; else the count,
/// the elements and the empty list; the empty list alone where it is empty.
pub open spec fn list_wire(elements: Seq<TermView>) -> Seq<u8>
    decreases elements, elements.len() + 1,
{
    if is_string(elements) {
        seq![STRING_EXT] + be16(elements.len() as u16) + string_bytes(elements)
    } else if elements.len() > 0 {
        seq![LIST_EXT] + be32(elements.len() as u32) + terms_wire(elements, elements.len()) + seq![
            NIL_EXT,
        ]
    } else {
        seq![NIL_EXT]
    }
}

/// The bytes of an improper list: the count of its elements in four bytes,
/// the elements, and the tail.
pub open spec fn improper_list_wire(x: ImproperListView) -> Seq<u8>
    decreases x,
{
    seq![LIST_EXT] + be32(x.elements.len() as u32) + terms_wire(x.elements, x.elements.len())
        + term_wire(*x.last)
}

/// The bytes of a tuple: its arity in one byte where it is below 256, else
/// in four; then its elements.
pub open spec fn tuple_wire(elements: Seq<TermView>) -> Seq<u8>
    decreases elements, elements.len() + 1,
{
    (if elements.len() < 0x100 {
        seq![SMALL_TUPLE_EXT, elements.len() as u8]
    } else {
        seq![LARGE_TUPLE_EXT] + be32(elements.len() as u32)
    }) + terms_wire(elements, elements.len())
}

/// The bytes of a map: the count of its entries in four bytes, and each key
/// with its value, in their order.
pub open spec fn map_wire(entries: Seq<(TermView, TermView)>) -> Seq<u8>
    decreases entries, entries.len() + 1,
{
    seq![MAP_EXT] + be32(entries.len() as u32) + entries_wire(entries, entries.len())
}

/// What follows the size in a function of the newer shape.
pub open spec fn new_fun_body(x: InternalFunView) -> Seq<u8>
    recommends
        x is New,
    decreases x, 0nat,
{
    match x {
        InternalFunView::New {
            module,
            arity,
            pid,
            free_vars,
            index,
            uniq,
            old_index,
            old_uniq,
        } => seq![arity] + uniq + be32(index) + be32(free_vars.len() as u32) + atom_wire(module)
            + fix_wire(old_index) + fix_wire(old_uniq) + pid_wire(pid) + terms_wire(
            free_vars,
            free_vars.len(),
        ),
        _ => Seq::empty(),
    }
}

/// The bytes of a function with its environment. In the older shape: the
/// count of its free variables, its process, its module, its index and its
/// unique number as small integers, and the free variables. In the newer
/// shape: the size that it states, and its body.
pub open spec fn fun_wire(x: InternalFunView) -> Seq<u8>
    decreases x, 1nat,
{
    match x {
        InternalFunView::Old { module, pid, free_vars, index, uniq } => seq![FUN_EXT] + be32(
            free_vars.len() as u32,
        ) + pid_wire(pid) + atom_wire(module) + fix_wire(index) + fix_wire(uniq) + terms_wire(
            free_vars,
            free_vars.len(),
        ),
        InternalFunView::New { .. } => seq![NEW_FUN_EXT] + be32(stated_size(new_fun_body(x)))
            + new_fun_body(x),
    }
}

/// The bytes of a term, without the version byte.
pub open spec fn term_wire(term: TermView) -> Seq<u8>
    decreases term,
{
    match term {
        TermView::Atom(name) => atom_wire(name),
        TermView::FixInteger(value) => fix_wire(value),
        TermView::BigInteger(x) => big_wire(x),
        TermView::Float(bits) => float_wire(bits),
        TermView::Pid(x) => pid_wire(x),
        TermView::Port(x) => port_wire(x),
        TermView::Reference(x) => reference_wire(x),
        TermView::ExternalFun(x) => external_fun_wire(x),
        TermView::InternalFun(x) => fun_wire(x),
        TermView::Binary(bytes) => binary_wire(bytes),
        TermView::BitBinary(x) => bit_binary_wire(x),
        TermView::List(elements) => list_wire(elements),
        TermView::ImproperList(x) => improper_list_wire(x),
        TermView::Tuple(elements) => tuple_wire(elements),
        TermView::Mapping(entries) => map_wire(entries),
    }
}

/// The first of two refusals.
pub open spec fn first(a: Option<EncodeErrorView>, b: Option<EncodeErrorView>) -> Option<
    EncodeErrorView,
> {
    if a is Some {
        a
    } else {
        b
    }
}

/// An atom is refused where its name takes more than 65535 bytes.
pub open spec fn atom_defect(name: Seq<char>) -> Option<EncodeErrorView> {
    if encode_utf8(name).len() > 0xffff {
        Some(EncodeErrorView::TooLongAtomName(name))
    } else {
        None
    }
}

/// An integer is refused where its magnitude takes more bytes than a count
/// of 32 bits can give.
pub open spec fn big_defect(x: BigIntegerView) -> Option<EncodeErrorView> {
    if x.magnitude.len() > 0xffff_ffff {
        Some(EncodeErrorView::TooLargeInteger(x))
    } else {
        None
    }
}

/// A reference is refused where its identifier has more than 65535 words,
/// and else where its node is.
pub open spec fn reference_defect(x: ReferenceView) -> Option<EncodeErrorView> {
    if x.id.len() > 0xffff {
        Some(EncodeErrorView::TooLargeReferenceId(x))
    } else {
        atom_defect(x.node)
    }
}

/// The first refusal among the first `n` terms of `terms`.
pub open spec fn terms_defect(terms: Seq<TermView>, n: nat) -> Option<EncodeErrorView>
    decreases terms, n,
{
    if n == 0 || n > terms.len() {
        None
    } else {
        first(terms_defect(terms, (n - 1) as nat), term_defect(terms[n - 1]))
    }
}

/// The first refusal among the first `n` entries of `entries`.
pub open spec fn entries_defect(entries: Seq<(TermView, TermView)>, n: nat) -> Option<
    EncodeErrorView,
>
    decreases entries, n,
{
    if n == 0 || n > entries.len() {
        None
    } else {
        first(
            entries_defect(entries, (n - 1) as nat),
            first(term_defect(entries[n - 1].0), term_defect(entries[n - 1].1)),
        )
    }
}

/// The first refusal in a function with its environment, in the order in
/// which its parts are written.
pub open spec fn fun_defect(x: InternalFunView) -> Option<EncodeErrorView>
    decreases x,
{
    match x {
        InternalFunView::Old { module, pid, free_vars, .. } => first(
            atom_defect(pid.node),
            first(atom_defect(module), terms_defect(free_vars, free_vars.len())),
        ),
        InternalFunView::New { module, pid, free_vars, .. } => first(
            atom_defect(module),
            first(atom_defect(pid.node), terms_defect(free_vars, free_vars.len())),
        ),
    }
}

/// Why the encoder refuses a term, if it does: the first refusal that it
/// meets as it writes the term from its first byte to its last.
pub open spec fn term_defect(term: TermView) -> Option<EncodeErrorView>
    decreases term,
{
    match term {
        TermView::Atom(name) => atom_defect(name),
        TermView::FixInteger(_) => None,
        TermView::BigInteger(x) => big_defect(x),
        TermView::Float(_) => None,
        TermView::Pid(x) => atom_defect(x.node),
        TermView::Port(x) => atom_defect(x.node),
        TermView::Reference(x) => reference_defect(x),
        TermView::ExternalFun(x) => first(atom_defect(x.module), atom_defect(x.function)),
        TermView::InternalFun(x) => fun_defect(x),
        TermView::Binary(_) => None,
        TermView::BitBinary(_) => None,
        TermView::List(elements) => if is_string(elements) {
            None
        } else {
            terms_defect(elements, elements.len())
        },
        TermView::ImproperList(x) => if x.elements.len() == 0 {
            Some(EncodeErrorView::EmptyImproperList(x))
        } else {
            first(terms_defect(x.elements, x.elements.len()), term_defect(*x.last))
        },
        TermView::Tuple(elements) => terms_defect(elements, elements.len()),
        TermView::Mapping(entries) => entries_defect(entries, entries.len()),
    }
}

/// The bytes of an encoded term: the version byte, then the term.
pub open spec fn encoding(term: TermView) -> Seq<u8> {
    seq![VERSION] + term_wire(term)
}

} // verus!
