//! Why a term that was written is read back as it was: the proof, variant by
//! variant and by induction over the term.

use crate::endian::{
    be16, be32, be32_at, be64, lemma_be16_at, lemma_be32_at, lemma_be64_at, lemma_signed32,
    unsigned32,
};
use crate::error::DecodeErrorView;
use crate::grammar::{
    arity_of, atom_of, fix_of, into_ranged_integer, list_of, new_fun_head, new_reference_after,
    parse_atom, parse_big, parse_binary, parse_bit_binary, parse_entries, parse_export, parse_fun,
    parse_fun_fields, parse_integer, parse_list, parse_map, parse_new_float, parse_new_fun,
    parse_new_fun_fields, parse_new_reference, parse_pid, parse_port, parse_small_integer,
    parse_string, parse_term, parse_terms, parse_tuple, pid_of, step, take_bytes, take_i32,
    take_u16, take_u32, take_u64, take_u8, take_words, FloatTextView,
};
use crate::tag::{
    ATOM_EXT, ATOM_UTF8_EXT, BINARY_EXT, BIT_BINARY_EXT, EXPORT_EXT, FUN_EXT, INTEGER_EXT,
    LARGE_BIG_EXT, LARGE_TUPLE_EXT, LIST_EXT, MAP_EXT, NEW_FLOAT_EXT, NEW_FUN_EXT,
    NEW_REFERENCE_EXT, NIL_EXT, PID_EXT, PORT_EXT, SMALL_BIG_EXT, SMALL_INTEGER_EXT,
    SMALL_TUPLE_EXT, STRING_EXT,
};
use crate::term::{
    all_wf, canonical, finite, low_bits, max_len, significant, trimmed, BigIntegerView,
    BitBinaryView, ExternalFunView, ImproperListView, InternalFunView, PidView, PortView,
    ReferenceView, Sign, TermView,
};
use crate::wire::{
    as_byte, atom_defect, atom_wire, big_defect, big_wire, binary_wire, bit_binary_wire,
    entries_defect, entries_wire, external_fun_wire, fix_wire, float_wire, fun_defect, fun_wire,
    improper_list_wire, is_ascii, is_string, list_wire, lowered, map_wire, new_fun_body, pid_wire,
    port_wire, raised, reference_defect, reference_wire, sign_byte, stated_size, string_bytes,
    term_defect, term_wire, terms_defect, terms_wire, tuple_wire, words_wire,
};
use vstd::prelude::*;
use vstd::utf8::{encode_utf8, encode_utf8_decode_utf8, encode_utf8_valid_utf8};

verus! {

/// The bytes `w` stand in `s` from `at` on.
#[verifier::opaque]
pub open spec fn holds(s: Seq<u8>, at: int, w: Seq<u8>) -> bool {
    &&& 0 <= at
    &&& at + w.len() <= s.len()
    &&& s.subrange(at, at + w.len()) == w
}

/// Where two runs of bytes stand one behind the other, each stands.
pub proof fn lemma_holds_split(s: Seq<u8>, at: int, a: Seq<u8>, b: Seq<u8>)
    requires
        holds(s, at, a + b),
    ensures
        holds(s, at, a),
        holds(s, at + a.len(), b),
{
    reveal(holds);
    let w = a + b;
    assert(s.subrange(at, at + a.len()) =~= w.subrange(0, a.len() as int));
    assert(w.subrange(0, a.len() as int) =~= a);
    assert(s.subrange(at + a.len(), at + a.len() + b.len()) =~= w.subrange(
        a.len() as int,
        w.len() as int,
    ));
    assert(w.subrange(a.len() as int, w.len() as int) =~= b);
}

/// Where a tag stands before a run of bytes, the tag is read and the run
/// stands behind it.
pub proof fn lemma_holds_tag(s: Seq<u8>, at: int, tag: u8, rest: Seq<u8>)
    requires
        holds(s, at, seq![tag] + rest),
    ensures
        0 <= at < s.len(),
        s[at] == tag,
        holds(s, at, seq![tag]),
        holds(s, at + 1, rest),
{
    lemma_holds_split(s, at, seq![tag], rest);
    lemma_take_u8(s, at, tag);
}

/// Bytes that stand somewhere stand inside the input.
pub proof fn lemma_holds_inside(s: Seq<u8>, at: int, w: Seq<u8>)
    requires
        holds(s, at, w),
    ensures
        0 <= at,
        at + w.len() <= s.len(),
{
    reveal(holds);
}

/// A byte that stands somewhere is read there.
pub proof fn lemma_take_u8(s: Seq<u8>, at: int, byte: u8)
    requires
        holds(s, at, seq![byte]),
    ensures
        0 <= at < s.len(),
        s[at] == byte,
        take_u8(s, at) == Ok::<(u8, int), DecodeErrorView>((byte, at + 1)),
{
    reveal(holds);
    assert(s.subrange(at, at + 1)[0] == byte);
}

/// Two bytes that stand somewhere are read there.
pub proof fn lemma_take_pair(s: Seq<u8>, at: int, a: u8, b: u8)
    requires
        holds(s, at, seq![a, b]),
    ensures
        0 <= at < s.len(),
        s[at] == a,
        take_u8(s, at + 1) == Ok::<(u8, int), DecodeErrorView>((b, at + 2)),
{
    reveal(holds);
    assert(s.subrange(at, at + 2)[0] == a);
    assert(s.subrange(at, at + 2)[1] == b);
}

/// An integer of two bytes that stands somewhere is read there.
pub proof fn lemma_take_u16(s: Seq<u8>, at: int, n: u16)
    requires
        holds(s, at, be16(n)),
    ensures
        take_u16(s, at) == Ok::<(u16, int), DecodeErrorView>((n, at + 2)),
{
    reveal(holds);
    lemma_be16_at(s, at, n);
}

/// An integer of four bytes that stands somewhere is read there.
pub proof fn lemma_take_u32(s: Seq<u8>, at: int, n: u32)
    requires
        holds(s, at, be32(n)),
    ensures
        take_u32(s, at) == Ok::<(u32, int), DecodeErrorView>((n, at + 4)),
{
    reveal(holds);
    lemma_be32_at(s, at, n);
}

/// A signed integer of four bytes that stands somewhere is read there.
pub proof fn lemma_take_i32(s: Seq<u8>, at: int, v: i32)
    requires
        holds(s, at, be32(unsigned32(v))),
    ensures
        take_i32(s, at) == Ok::<(i32, int), DecodeErrorView>((v, at + 4)),
{
    reveal(holds);
    lemma_be32_at(s, at, unsigned32(v));
    lemma_signed32(v);
}

/// An integer of eight bytes that stands somewhere is read there.
pub proof fn lemma_take_u64(s: Seq<u8>, at: int, n: u64)
    requires
        holds(s, at, be64(n)),
    ensures
        take_u64(s, at) == Ok::<(u64, int), DecodeErrorView>((n, at + 8)),
{
    reveal(holds);
    lemma_be64_at(s, at, n);
}

/// Bytes that stand somewhere are read there.
pub proof fn lemma_take_bytes(s: Seq<u8>, at: int, w: Seq<u8>)
    requires
        holds(s, at, w),
    ensures
        take_bytes(s, at, w.len() as int) == Ok::<(Seq<u8>, int), DecodeErrorView>(
            (w, at + w.len()),
        ),
{
    reveal(holds);
}

/// An atom that the encoder accepts is read back as it was.
pub proof fn lemma_atom_round_trip(name: Seq<char>, s: Seq<u8>, at: int, floats: Seq<FloatTextView>)
    requires
        atom_defect(name) is None,
        holds(s, at, atom_wire(name)),
    ensures
        parse_term(s, at, floats) == Ok::<(TermView, int), DecodeErrorView>(
            (TermView::Atom(name), at + atom_wire(name).len()),
        ),
        atom_wire(name).len() >= 3,
{
    reveal(atom_wire);
    reveal(parse_atom);
    let bytes = encode_utf8(name);
    let tag = if is_ascii(bytes) {
        ATOM_EXT
    } else {
        ATOM_UTF8_EXT
    };
    let count = be16(bytes.len() as u16);
    lemma_holds_split(s, at, seq![tag] + count, bytes);
    lemma_holds_tag(s, at, tag, count);
    lemma_take_u16(s, at + 1, bytes.len() as u16);
    lemma_take_bytes(s, at + 3, bytes);
    encode_utf8_valid_utf8(name);
    encode_utf8_decode_utf8(name);
}

/// A small integer is read back as it was.
pub proof fn lemma_fix_round_trip(value: i32, s: Seq<u8>, at: int, floats: Seq<FloatTextView>)
    requires
        holds(s, at, fix_wire(value)),
    ensures
        parse_term(s, at, floats) == Ok::<(TermView, int), DecodeErrorView>(
            (TermView::FixInteger(value), at + fix_wire(value).len()),
        ),
        fix_wire(value).len() >= 1,
{
    reveal(fix_wire);
    reveal(parse_integer);
    reveal(parse_small_integer);
    if 0 <= value <= 0xff {
        lemma_take_pair(s, at, SMALL_INTEGER_EXT, value as u8);
    } else {
        lemma_holds_tag(s, at, INTEGER_EXT, be32(unsigned32(value)));
        lemma_take_i32(s, at + 1, value);
    }
}

/// The sign that is read back from the byte of a sign gives the same
/// integer.
pub proof fn lemma_sign_read_back(x: BigIntegerView)
    requires
        x.wf(),
    ensures
        sign_byte(x.sign) == 1 ==> canonical(Sign::Minus, x.magnitude) == x,
        sign_byte(x.sign) == 0 ==> canonical(Sign::Plus, x.magnitude) == x,
        sign_byte(x.sign) <= 1,
{
    if x.sign == Sign::NoSign {
        assert(x.magnitude == seq![0u8]);
        assert(trimmed(seq![0u8]) =~= Seq::<u8>::empty()) by {
            assert(seq![0u8].drop_last() =~= Seq::<u8>::empty());
            reveal_with_fuel(trimmed, 2);
        }
    }
}

/// An integer of any size that the encoder accepts is read back as it was.
pub proof fn lemma_big_round_trip(
    x: BigIntegerView,
    s: Seq<u8>,
    at: int,
    floats: Seq<FloatTextView>,
)
    requires
        x.wf(),
        big_defect(x) is None,
        holds(s, at, big_wire(x)),
    ensures
        parse_term(s, at, floats) == Ok::<(TermView, int), DecodeErrorView>(
            (TermView::BigInteger(x), at + big_wire(x).len()),
        ),
        big_wire(x).len() >= 1,
{
    reveal(big_wire);
    reveal(parse_big);
    let n = x.magnitude.len();
    let head = if n <= 0xff {
        seq![SMALL_BIG_EXT, n as u8]
    } else {
        seq![LARGE_BIG_EXT] + be32(n as u32)
    };
    let sign = seq![sign_byte(x.sign)];
    lemma_holds_split(s, at, head + sign, x.magnitude);
    lemma_holds_split(s, at, head, sign);
    lemma_take_u8(s, at + head.len(), sign_byte(x.sign));
    if n <= 0xff {
        lemma_take_pair(s, at, SMALL_BIG_EXT, n as u8);
    } else {
        lemma_holds_tag(s, at, LARGE_BIG_EXT, be32(n as u32));
        lemma_take_u32(s, at + 1, n as u32);
    }
    lemma_take_bytes(s, at + head.len() + 1, x.magnitude);
    lemma_sign_read_back(x);
}

/// A float is read back as it was.
pub proof fn lemma_float_round_trip(bits: u64, s: Seq<u8>, at: int, floats: Seq<FloatTextView>)
    requires
        finite(bits),
        holds(s, at, float_wire(bits)),
    ensures
        parse_term(s, at, floats) == Ok::<(TermView, int), DecodeErrorView>(
            (TermView::Float(bits), at + float_wire(bits).len()),
        ),
        float_wire(bits).len() >= 1,
{
    reveal(float_wire);
    reveal(parse_new_float);
    lemma_holds_tag(s, at, NEW_FLOAT_EXT, be64(bits));
    lemma_take_u64(s, at + 1, bits);
}

/// A process identifier that the encoder accepts is read back as it was.
pub proof fn lemma_pid_round_trip(x: PidView, s: Seq<u8>, at: int, floats: Seq<FloatTextView>)
    requires
        atom_defect(x.node) is None,
        holds(s, at, pid_wire(x)),
    ensures
        parse_term(s, at, floats) == Ok::<(TermView, int), DecodeErrorView>(
            (TermView::Pid(x), at + pid_wire(x).len()),
        ),
        pid_wire(x).len() >= 1,
{
    reveal(pid_wire);
    let tag = seq![PID_EXT];
    let node = atom_wire(x.node);
    lemma_holds_split(s, at, tag + node + be32(x.id) + be32(x.serial), seq![x.creation]);
    lemma_holds_split(s, at, tag + node + be32(x.id), be32(x.serial));
    lemma_holds_split(s, at, tag + node, be32(x.id));
    lemma_holds_tag(s, at, PID_EXT, node);
    lemma_atom_round_trip(x.node, s, at + 1, floats);
    let p = at + 1 + node.len();
    lemma_take_u32(s, p, x.id);
    lemma_take_u32(s, p + 4, x.serial);
    lemma_take_u8(s, p + 8, x.creation);
    assert(atom_of(parse_term(s, at + 1, floats)) == Ok::<(Seq<char>, int), DecodeErrorView>(
        (x.node, p),
    ));
    assert(parse_pid(s, at + 1, floats) == Ok::<(TermView, int), DecodeErrorView>(
        (TermView::Pid(x), p + 9),
    ));
}

/// A port that the encoder accepts is read back as it was.
pub proof fn lemma_port_round_trip(x: PortView, s: Seq<u8>, at: int, floats: Seq<FloatTextView>)
    requires
        atom_defect(x.node) is None,
        holds(s, at, port_wire(x)),
    ensures
        parse_term(s, at, floats) == Ok::<(TermView, int), DecodeErrorView>(
            (TermView::Port(x), at + port_wire(x).len()),
        ),
        port_wire(x).len() >= 1,
{
    reveal(port_wire);
    let tag = seq![PORT_EXT];
    let node = atom_wire(x.node);
    lemma_holds_split(s, at, tag + node + be32(x.id), seq![x.creation]);
    lemma_holds_split(s, at, tag + node, be32(x.id));
    lemma_holds_tag(s, at, PORT_EXT, node);
    lemma_atom_round_trip(x.node, s, at + 1, floats);
    let p = at + 1 + node.len();
    lemma_take_u32(s, p, x.id);
    lemma_take_u8(s, p + 4, x.creation);
    assert(atom_of(parse_term(s, at + 1, floats)) == Ok::<(Seq<char>, int), DecodeErrorView>(
        (x.node, p),
    ));
    assert(parse_port(s, at + 1, floats) == Ok::<(TermView, int), DecodeErrorView>(
        (TermView::Port(x), p + 5),
    ));
}

/// The words of an identifier are read back as they were.
pub proof fn lemma_words(id: Seq<u32>, n: nat, s: Seq<u8>, at: int)
    requires
        n <= id.len(),
        holds(s, at, words_wire(id, n)),
    ensures
        words_wire(id, n).len() == 4 * n,
        0 <= at,
        at + 4 * n <= s.len(),
        forall|i: int| 0 <= i < n ==> be32_at(s, at + 4 * i) == id[i],
    decreases n,
{
    lemma_holds_inside(s, at, words_wire(id, n));
    if n > 0 {
        let rest = words_wire(id, (n - 1) as nat);
        lemma_holds_split(s, at, rest, be32(id[n - 1]));
        lemma_words(id, (n - 1) as nat, s, at);
        lemma_take_u32(s, at + 4 * (n - 1), id[n - 1]);
    }
}

/// A reference that the encoder accepts is read back as it was.
pub proof fn lemma_reference_round_trip(
    x: ReferenceView,
    s: Seq<u8>,
    at: int,
    floats: Seq<FloatTextView>,
)
    requires
        reference_defect(x) is None,
        holds(s, at, reference_wire(x)),
    ensures
        parse_term(s, at, floats) == Ok::<(TermView, int), DecodeErrorView>(
            (TermView::Reference(x), at + reference_wire(x).len()),
        ),
        reference_wire(x).len() >= 1,
{
    reveal(reference_wire);
    let tag = seq![NEW_REFERENCE_EXT];
    let count = be16(x.id.len() as u16);
    let node = atom_wire(x.node);
    let words = words_wire(x.id, x.id.len());
    lemma_holds_split(s, at, tag + count + node + seq![x.creation], words);
    lemma_holds_split(s, at, tag + count + node, seq![x.creation]);
    lemma_holds_split(s, at, tag + count, node);
    lemma_holds_tag(s, at, NEW_REFERENCE_EXT, count);
    lemma_take_u16(s, at + 1, x.id.len() as u16);
    lemma_atom_round_trip(x.node, s, at + 3, floats);
    let p = at + 3 + node.len();
    lemma_take_u8(s, p, x.creation);
    lemma_words(x.id, x.id.len(), s, p + 1);
    assert(take_u16(s, at + 1) == Ok::<(u16, int), DecodeErrorView>((x.id.len() as u16, at + 3)));
    assert(atom_of(parse_term(s, at + 3, floats)) == Ok::<(Seq<char>, int), DecodeErrorView>(
        (x.node, p),
    ));
    assert(take_u8(s, p) == Ok::<(u8, int), DecodeErrorView>((x.creation, p + 1)));
    assert(take_words(s, p + 1, x.id.len() as int) == Ok::<(Seq<u32>, int), DecodeErrorView>(
        (x.id, p + 1 + 4 * x.id.len()),
    )) by {
        assert(Seq::new(x.id.len(), |i: int| be32_at(s, p + 1 + 4 * i)) =~= x.id);
    }
    assert(new_reference_after(
        s,
        x.id.len() as int,
        Ok::<(Seq<char>, int), DecodeErrorView>((x.node, p)),
    ) == Ok::<(TermView, int), DecodeErrorView>((TermView::Reference(x), p + 1 + 4 * x.id.len())));
    assert(parse_new_reference(s, at + 1, floats) == Ok::<(TermView, int), DecodeErrorView>(
        (TermView::Reference(x), p + 1 + 4 * x.id.len()),
    ));
}

/// An exported function is read from three terms: two atoms and an arity.
proof fn lemma_export_parsed(
    x: ExternalFunView,
    s: Seq<u8>,
    at: int,
    end1: int,
    end2: int,
    end3: int,
    floats: Seq<FloatTextView>,
)
    requires
        at < end1 < end2,
        parse_term(s, at, floats) == Ok::<(TermView, int), DecodeErrorView>(
            (TermView::Atom(x.module), end1),
        ),
        parse_term(s, end1, floats) == Ok::<(TermView, int), DecodeErrorView>(
            (TermView::Atom(x.function), end2),
        ),
        parse_term(s, end2, floats) == Ok::<(TermView, int), DecodeErrorView>(
            (TermView::FixInteger(x.arity as i32), end3),
        ),
    ensures
        parse_export(s, at, floats) == Ok::<(TermView, int), DecodeErrorView>(
            (TermView::ExternalFun(x), end3),
        ),
{
    assert(step(at, atom_of(parse_term(s, at, floats))) == Ok::<(Seq<char>, int), DecodeErrorView>(
        (x.module, end1),
    ));
    assert(step(at, atom_of(parse_term(s, end1, floats))) == Ok::<
        (Seq<char>, int),
        DecodeErrorView,
    >((x.function, end2)));
    assert(into_ranged_integer(TermView::FixInteger(x.arity as i32), 0, 0xff) == Ok::<
        i32,
        DecodeErrorView,
    >(x.arity as i32));
    assert(arity_of(parse_term(s, end2, floats)) == Ok::<(u8, int), DecodeErrorView>(
        (x.arity, end3),
    ));
}

/// An exported function that the encoder accepts is read back as it was.
pub proof fn lemma_external_fun_round_trip(
    x: ExternalFunView,
    s: Seq<u8>,
    at: int,
    floats: Seq<FloatTextView>,
)
    requires
        atom_defect(x.module) is None,
        atom_defect(x.function) is None,
        holds(s, at, external_fun_wire(x)),
    ensures
        parse_term(s, at, floats) == Ok::<(TermView, int), DecodeErrorView>(
            (TermView::ExternalFun(x), at + external_fun_wire(x).len()),
        ),
        external_fun_wire(x).len() >= 1,
{
    reveal(external_fun_wire);
    let tag = seq![EXPORT_EXT];
    let module = atom_wire(x.module);
    let function = atom_wire(x.function);
    let arity = fix_wire(x.arity as i32);
    let end1 = at + 1 + module.len();
    let end2 = end1 + function.len();
    let end3 = end2 + arity.len();
    lemma_holds_split(s, at, tag + module + function, arity);
    lemma_holds_split(s, at, tag + module, function);
    lemma_holds_tag(s, at, EXPORT_EXT, module);
    lemma_atom_round_trip(x.module, s, at + 1, floats);
    lemma_atom_round_trip(x.function, s, end1, floats);
    lemma_fix_round_trip(x.arity as i32, s, end2, floats);
    lemma_export_parsed(x, s, at + 1, end1, end2, end3, floats);
}

/// A binary is read back as it was.
pub proof fn lemma_binary_round_trip(
    bytes: Seq<u8>,
    s: Seq<u8>,
    at: int,
    floats: Seq<FloatTextView>,
)
    requires
        bytes.len() <= max_len(),
        holds(s, at, binary_wire(bytes)),
    ensures
        parse_term(s, at, floats) == Ok::<(TermView, int), DecodeErrorView>(
            (TermView::Binary(bytes), at + binary_wire(bytes).len()),
        ),
        binary_wire(bytes).len() >= 1,
{
    reveal(binary_wire);
    reveal(parse_binary);
    let tag = seq![BINARY_EXT];
    lemma_holds_split(s, at, tag + be32(bytes.len() as u32), bytes);
    lemma_holds_tag(s, at, BINARY_EXT, be32(bytes.len() as u32));
    lemma_take_u32(s, at + 1, bytes.len() as u32);
    lemma_take_bytes(s, at + 5, bytes);
}

/// A bit binary is read back as it was.
pub proof fn lemma_bit_binary_round_trip(
    x: BitBinaryView,
    s: Seq<u8>,
    at: int,
    floats: Seq<FloatTextView>,
)
    requires
        x.wf(),
        holds(s, at, bit_binary_wire(x)),
    ensures
        parse_term(s, at, floats) == Ok::<(TermView, int), DecodeErrorView>(
            (TermView::BitBinary(x), at + bit_binary_wire(x).len()),
        ),
        bit_binary_wire(x).len() >= 1,
{
    reveal(bit_binary_wire);
    reveal(parse_bit_binary);
    let tag = seq![BIT_BINARY_EXT];
    let size = be32(x.bytes.len() as u32);
    let bits = seq![x.tail_bits_size];
    let body = if x.bytes.len() == 0 {
        x.bytes
    } else {
        x.bytes.drop_last().push(raised(x.bytes.last(), x.tail_bits_size))
    };
    lemma_holds_split(s, at, tag + size + bits, body);
    lemma_holds_split(s, at, tag + size, bits);
    lemma_holds_tag(s, at, BIT_BINARY_EXT, size);
    lemma_take_u32(s, at + 1, x.bytes.len() as u32);
    lemma_take_u8(s, at + 5, x.tail_bits_size);
    lemma_take_bytes(s, at + 6, body);
    if x.bytes.len() > 0 {
        let last = x.bytes.last();
        assert(significant(x.bytes, x.tail_bits_size).last() == low_bits(last, x.tail_bits_size));
        assert(lowered(raised(last, x.tail_bits_size), x.tail_bits_size) == last);
        assert(body.drop_last().push(lowered(body.last(), x.tail_bits_size)) =~= x.bytes);
    }
}

/// Where the first `n` terms hold no refusal, none of them holds one, and no
/// shorter run does.
pub proof fn lemma_terms_accepted(terms: Seq<TermView>, n: nat, i: int)
    requires
        n <= terms.len(),
        terms_defect(terms, n) is None,
        0 <= i < n,
    ensures
        term_defect(terms[i]) is None,
        terms_defect(terms, i as nat) is None,
    decreases n,
{
    if i < n - 1 {
        lemma_terms_accepted(terms, (n - 1) as nat, i);
    }
}

/// Where the first `n` entries hold no refusal, none of them holds one, and
/// no shorter run does.
pub proof fn lemma_entries_accepted(entries: Seq<(TermView, TermView)>, n: nat, i: int)
    requires
        n <= entries.len(),
        entries_defect(entries, n) is None,
        0 <= i < n,
    ensures
        term_defect(entries[i].0) is None,
        term_defect(entries[i].1) is None,
        entries_defect(entries, i as nat) is None,
    decreases n,
{
    if i < n - 1 {
        lemma_entries_accepted(entries, (n - 1) as nat, i);
    }
}

/// A list that is written as a string is read back as it was.
pub proof fn lemma_string_round_trip(
    elements: Seq<TermView>,
    s: Seq<u8>,
    at: int,
    floats: Seq<FloatTextView>,
)
    requires
        is_string(elements),
        holds(s, at, seq![STRING_EXT] + be16(elements.len() as u16) + string_bytes(elements)),
    ensures
        parse_term(s, at, floats) == Ok::<(TermView, int), DecodeErrorView>(
            (TermView::List(elements), at + 3 + elements.len()),
        ),
{
    reveal(parse_string);
    let count = be16(elements.len() as u16);
    let bytes = string_bytes(elements);
    lemma_holds_split(s, at, seq![STRING_EXT] + count, bytes);
    lemma_holds_tag(s, at, STRING_EXT, count);
    lemma_take_u16(s, at + 1, elements.len() as u16);
    lemma_take_bytes(s, at + 3, bytes);
    let read = Seq::new(bytes.len(), |i: int| TermView::FixInteger(bytes[i] as i32));
    assert forall|i: int| 0 <= i < elements.len() implies read[i] == elements[i] by {
        assert(as_byte(elements[i]) is Some);
    }
    assert(read =~= elements);
}

/// The empty list is read back as it was.
pub proof fn lemma_nil_round_trip(s: Seq<u8>, at: int, floats: Seq<FloatTextView>)
    requires
        holds(s, at, seq![NIL_EXT]),
    ensures
        parse_term(s, at, floats) == Ok::<(TermView, int), DecodeErrorView>(
            (TermView::nil(), at + 1),
        ),
{
    lemma_take_u8(s, at, NIL_EXT);
}

/// A term that is well formed and that the encoder accepts is read back
/// from its bytes as it was, wherever they stand and whatever stands behind
/// them.
pub proof fn lemma_term_round_trip(t: TermView, s: Seq<u8>, at: int, floats: Seq<FloatTextView>)
    requires
        t.wf(),
        term_defect(t) is None,
        holds(s, at, term_wire(t)),
    ensures
        parse_term(s, at, floats) == Ok::<(TermView, int), DecodeErrorView>(
            (t, at + term_wire(t).len()),
        ),
        term_wire(t).len() >= 1,
    decreases t, 0nat,
{
    match t {
        TermView::Atom(name) => lemma_atom_round_trip(name, s, at, floats),
        TermView::FixInteger(value) => lemma_fix_round_trip(value, s, at, floats),
        TermView::BigInteger(x) => lemma_big_round_trip(x, s, at, floats),
        TermView::Float(bits) => lemma_float_round_trip(bits, s, at, floats),
        TermView::Pid(x) => lemma_pid_round_trip(x, s, at, floats),
        TermView::Port(x) => lemma_port_round_trip(x, s, at, floats),
        TermView::Reference(x) => lemma_reference_round_trip(x, s, at, floats),
        TermView::ExternalFun(x) => lemma_external_fun_round_trip(x, s, at, floats),
        TermView::InternalFun(x) => lemma_fun_round_trip(x, s, at, floats),
        TermView::Binary(bytes) => lemma_binary_round_trip(bytes, s, at, floats),
        TermView::BitBinary(x) => lemma_bit_binary_round_trip(x, s, at, floats),
        TermView::List(elements) => lemma_list_round_trip(elements, s, at, floats),
        TermView::ImproperList(x) => lemma_improper_list_round_trip(x, s, at, floats),
        TermView::Tuple(elements) => lemma_tuple_round_trip(elements, s, at, floats),
        TermView::Mapping(entries) => lemma_map_round_trip(entries, s, at, floats),
    }
}

/// The first `n` terms of a run are read back from their bytes as they were.
pub proof fn lemma_terms_round_trip(
    terms: Seq<TermView>,
    n: nat,
    s: Seq<u8>,
    at: int,
    floats: Seq<FloatTextView>,
)
    requires
        n <= terms.len(),
        all_wf(terms),
        terms_defect(terms, n) is None,
        holds(s, at, terms_wire(terms, n)),
    ensures
        parse_terms(s, at, n, floats) == Ok::<(Seq<TermView>, int), DecodeErrorView>(
            (terms.take(n as int), at + terms_wire(terms, n).len()),
        ),
    decreases terms, n,
{
    if n == 0 {
        assert(terms.take(0) =~= Seq::<TermView>::empty());
    } else {
        let before = terms_wire(terms, (n - 1) as nat);
        let last = terms[n - 1];
        lemma_holds_split(s, at, before, term_wire(last));
        lemma_terms_accepted(terms, n, n - 1);
        lemma_terms_round_trip(terms, (n - 1) as nat, s, at, floats);
        lemma_term_round_trip(last, s, at + before.len(), floats);
        assert(terms.take(n - 1).push(last) =~= terms.take(n as int));
    }
}

/// The first `n` entries of a map are read back from their bytes as they
/// were.
pub proof fn lemma_entries_round_trip(
    entries: Seq<(TermView, TermView)>,
    n: nat,
    s: Seq<u8>,
    at: int,
    floats: Seq<FloatTextView>,
)
    requires
        n <= entries.len(),
        TermView::Mapping(entries).wf(),
        entries_defect(entries, n) is None,
        holds(s, at, entries_wire(entries, n)),
    ensures
        parse_entries(s, at, n, floats) == Ok::<(Seq<(TermView, TermView)>, int), DecodeErrorView>(
            (entries.take(n as int), at + entries_wire(entries, n).len()),
        ),
    decreases entries, n,
{
    if n == 0 {
        assert(entries.take(0) =~= Seq::<(TermView, TermView)>::empty());
    } else {
        let before = entries_wire(entries, (n - 1) as nat);
        let (k, v) = entries[n - 1];
        lemma_holds_split(s, at, before + term_wire(k), term_wire(v));
        lemma_holds_split(s, at, before, term_wire(k));
        lemma_entries_accepted(entries, n, n - 1);
        lemma_entries_round_trip(entries, (n - 1) as nat, s, at, floats);
        let p = at + before.len();
        lemma_term_round_trip(k, s, p, floats);
        lemma_term_round_trip(v, s, p + term_wire(k).len(), floats);
        assert(step(p, parse_term(s, p, floats)) == parse_term(s, p, floats));
        assert(entries.take(n - 1).push((k, v)) =~= entries.take(n as int));
    }
}

/// A proper list is read back as it was.
pub proof fn lemma_list_round_trip(
    elements: Seq<TermView>,
    s: Seq<u8>,
    at: int,
    floats: Seq<FloatTextView>,
)
    requires
        TermView::List(elements).wf(),
        term_defect(TermView::List(elements)) is None,
        holds(s, at, list_wire(elements)),
    ensures
        parse_term(s, at, floats) == Ok::<(TermView, int), DecodeErrorView>(
            (TermView::List(elements), at + list_wire(elements).len()),
        ),
        list_wire(elements).len() >= 1,
    decreases elements, elements.len() + 1,
{
    let n = elements.len();
    if is_string(elements) {
        lemma_string_round_trip(elements, s, at, floats);
    } else if n > 0 {
        let count = be32(n as u32);
        let body = terms_wire(elements, n);
        lemma_holds_split(s, at, seq![LIST_EXT] + count + body, seq![NIL_EXT]);
        lemma_holds_split(s, at, seq![LIST_EXT] + count, body);
        lemma_holds_tag(s, at, LIST_EXT, count);
        lemma_take_u32(s, at + 1, n as u32);
        lemma_terms_round_trip(elements, n, s, at + 5, floats);
        let p = at + 5 + body.len();
        lemma_nil_round_trip(s, p, floats);
        assert(elements.take(n as int) =~= elements);
        assert(step(at + 1, parse_terms(s, at + 5, n, floats)) == parse_terms(
            s,
            at + 5,
            n,
            floats,
        ));
        assert(parse_list(s, at + 1, floats) == Ok::<(TermView, int), DecodeErrorView>(
            (TermView::List(elements), p + 1),
        ));
    } else {
        lemma_nil_round_trip(s, at, floats);
        assert(elements =~= Seq::<TermView>::empty());
    }
}

/// An improper list is read back as it was.
pub proof fn lemma_improper_list_round_trip(
    x: ImproperListView,
    s: Seq<u8>,
    at: int,
    floats: Seq<FloatTextView>,
)
    requires
        TermView::ImproperList(x).wf(),
        term_defect(TermView::ImproperList(x)) is None,
        holds(s, at, improper_list_wire(x)),
    ensures
        parse_term(s, at, floats) == Ok::<(TermView, int), DecodeErrorView>(
            (TermView::ImproperList(x), at + improper_list_wire(x).len()),
        ),
        improper_list_wire(x).len() >= 1,
    decreases x,
{
    let n = x.elements.len();
    let count = be32(n as u32);
    let body = terms_wire(x.elements, n);
    lemma_holds_split(s, at, seq![LIST_EXT] + count + body, term_wire(*x.last));
    lemma_holds_split(s, at, seq![LIST_EXT] + count, body);
    lemma_holds_tag(s, at, LIST_EXT, count);
    lemma_take_u32(s, at + 1, n as u32);
    lemma_terms_round_trip(x.elements, n, s, at + 5, floats);
    let p = at + 5 + body.len();
    lemma_term_round_trip(*x.last, s, p, floats);
    assert(x.elements.take(n as int) =~= x.elements);
    assert(step(at + 1, parse_terms(s, at + 5, n, floats)) == parse_terms(s, at + 5, n, floats));
    assert(list_of(x.elements, *x.last) == TermView::ImproperList(x));
    assert(parse_list(s, at + 1, floats) == Ok::<(TermView, int), DecodeErrorView>(
        (TermView::ImproperList(x), p + term_wire(*x.last).len()),
    ));
}

/// A tuple is read back as it was.
pub proof fn lemma_tuple_round_trip(
    elements: Seq<TermView>,
    s: Seq<u8>,
    at: int,
    floats: Seq<FloatTextView>,
)
    requires
        TermView::Tuple(elements).wf(),
        term_defect(TermView::Tuple(elements)) is None,
        holds(s, at, tuple_wire(elements)),
    ensures
        parse_term(s, at, floats) == Ok::<(TermView, int), DecodeErrorView>(
            (TermView::Tuple(elements), at + tuple_wire(elements).len()),
        ),
        tuple_wire(elements).len() >= 1,
    decreases elements, elements.len() + 1,
{
    let n = elements.len();
    let body = terms_wire(elements, n);
    assert(elements.take(n as int) =~= elements);
    if n < 0x100 {
        lemma_holds_split(s, at, seq![SMALL_TUPLE_EXT, n as u8], body);
        lemma_take_pair(s, at, SMALL_TUPLE_EXT, n as u8);
        lemma_terms_round_trip(elements, n, s, at + 2, floats);
        assert(parse_tuple(s, at + 1, false, floats) == Ok::<(TermView, int), DecodeErrorView>(
            (TermView::Tuple(elements), at + 2 + body.len()),
        ));
    } else {
        lemma_holds_split(s, at, seq![LARGE_TUPLE_EXT] + be32(n as u32), body);
        lemma_holds_tag(s, at, LARGE_TUPLE_EXT, be32(n as u32));
        lemma_take_u32(s, at + 1, n as u32);
        lemma_terms_round_trip(elements, n, s, at + 5, floats);
        assert(parse_tuple(s, at + 1, true, floats) == Ok::<(TermView, int), DecodeErrorView>(
            (TermView::Tuple(elements), at + 5 + body.len()),
        ));
    }
}

/// A map is read back as it was.
pub proof fn lemma_map_round_trip(
    entries: Seq<(TermView, TermView)>,
    s: Seq<u8>,
    at: int,
    floats: Seq<FloatTextView>,
)
    requires
        TermView::Mapping(entries).wf(),
        term_defect(TermView::Mapping(entries)) is None,
        holds(s, at, map_wire(entries)),
    ensures
        parse_term(s, at, floats) == Ok::<(TermView, int), DecodeErrorView>(
            (TermView::Mapping(entries), at + map_wire(entries).len()),
        ),
        map_wire(entries).len() >= 1,
    decreases entries, entries.len() + 1,
{
    let n = entries.len();
    let body = entries_wire(entries, n);
    lemma_holds_split(s, at, seq![MAP_EXT] + be32(n as u32), body);
    lemma_holds_tag(s, at, MAP_EXT, be32(n as u32));
    lemma_take_u32(s, at + 1, n as u32);
    lemma_entries_round_trip(entries, n, s, at + 5, floats);
    assert(entries.take(n as int) =~= entries);
    assert(parse_map(s, at + 1, floats) == Ok::<(TermView, int), DecodeErrorView>(
        (TermView::Mapping(entries), at + 5 + body.len()),
    ));
}

/// The four fields of a function of the older shape are read from four
/// terms.
proof fn lemma_fun_fields_parsed(
    pid: PidView,
    module: Seq<char>,
    index: i32,
    uniq: i32,
    s: Seq<u8>,
    at: int,
    end1: int,
    end2: int,
    end3: int,
    end4: int,
    floats: Seq<FloatTextView>,
)
    requires
        at < end1 < end2 < end3 < end4,
        parse_term(s, at, floats) == Ok::<(TermView, int), DecodeErrorView>(
            (TermView::Pid(pid), end1),
        ),
        parse_term(s, end1, floats) == Ok::<(TermView, int), DecodeErrorView>(
            (TermView::Atom(module), end2),
        ),
        parse_term(s, end2, floats) == Ok::<(TermView, int), DecodeErrorView>(
            (TermView::FixInteger(index), end3),
        ),
        parse_term(s, end3, floats) == Ok::<(TermView, int), DecodeErrorView>(
            (TermView::FixInteger(uniq), end4),
        ),
    ensures
        parse_fun_fields(s, at, floats) == Ok::<
            ((PidView, Seq<char>, i32, i32), int),
            DecodeErrorView,
        >(((pid, module, index, uniq), end4)),
{
    assert(step(at, pid_of(parse_term(s, at, floats))) == Ok::<(PidView, int), DecodeErrorView>(
        (pid, end1),
    ));
    assert(step(at, atom_of(parse_term(s, end1, floats))) == Ok::<
        (Seq<char>, int),
        DecodeErrorView,
    >((module, end2)));
    assert(step(at, fix_of(parse_term(s, end2, floats))) == Ok::<(i32, int), DecodeErrorView>(
        (index, end3),
    ));
    assert(fix_of(parse_term(s, end3, floats)) == Ok::<(i32, int), DecodeErrorView>((uniq, end4)));
}

/// The four fields of a function of the newer shape are read from four
/// terms.
proof fn lemma_new_fun_fields_parsed(
    module: Seq<char>,
    old_index: i32,
    old_uniq: i32,
    pid: PidView,
    s: Seq<u8>,
    at: int,
    end1: int,
    end2: int,
    end3: int,
    end4: int,
    floats: Seq<FloatTextView>,
)
    requires
        at < end1 < end2 < end3 < end4,
        parse_term(s, at, floats) == Ok::<(TermView, int), DecodeErrorView>(
            (TermView::Atom(module), end1),
        ),
        parse_term(s, end1, floats) == Ok::<(TermView, int), DecodeErrorView>(
            (TermView::FixInteger(old_index), end2),
        ),
        parse_term(s, end2, floats) == Ok::<(TermView, int), DecodeErrorView>(
            (TermView::FixInteger(old_uniq), end3),
        ),
        parse_term(s, end3, floats) == Ok::<(TermView, int), DecodeErrorView>(
            (TermView::Pid(pid), end4),
        ),
    ensures
        parse_new_fun_fields(s, at, floats) == Ok::<
            ((Seq<char>, i32, i32, PidView), int),
            DecodeErrorView,
        >(((module, old_index, old_uniq, pid), end4)),
{
    assert(step(at, atom_of(parse_term(s, at, floats))) == Ok::<(Seq<char>, int), DecodeErrorView>(
        (module, end1),
    ));
    assert(step(at, fix_of(parse_term(s, end1, floats))) == Ok::<(i32, int), DecodeErrorView>(
        (old_index, end2),
    ));
    assert(step(at, fix_of(parse_term(s, end2, floats))) == Ok::<(i32, int), DecodeErrorView>(
        (old_uniq, end3),
    ));
    assert(pid_of(parse_term(s, end3, floats)) == Ok::<(PidView, int), DecodeErrorView>(
        (pid, end4),
    ));
}

/// Where a tag and six runs of bytes stand one behind the other, each
/// stands.
pub proof fn lemma_holds_parts(
    s: Seq<u8>,
    at: int,
    tag: u8,
    a: Seq<u8>,
    b: Seq<u8>,
    c: Seq<u8>,
    d: Seq<u8>,
    e: Seq<u8>,
    f: Seq<u8>,
)
    requires
        holds(s, at, seq![tag] + a + b + c + d + e + f),
    ensures
        0 <= at < s.len(),
        s[at] == tag,
        holds(s, at, seq![tag]),
        holds(s, at + 1, a),
        holds(s, at + 1 + a.len(), b),
        holds(s, at + 1 + a.len() + b.len(), c),
        holds(s, at + 1 + a.len() + b.len() + c.len(), d),
        holds(s, at + 1 + a.len() + b.len() + c.len() + d.len(), e),
        holds(s, at + 1 + a.len() + b.len() + c.len() + d.len() + e.len(), f),
        (seq![tag] + a + b + c + d + e + f).len() == 1 + a.len() + b.len() + c.len() + d.len()
            + e.len() + f.len(),
{
    let t = seq![tag];
    lemma_holds_split(s, at, t + a + b + c + d + e, f);
    lemma_holds_split(s, at, t + a + b + c + d, e);
    lemma_holds_split(s, at, t + a + b + c, d);
    lemma_holds_split(s, at, t + a + b, c);
    lemma_holds_split(s, at, t + a, b);
    lemma_holds_tag(s, at, tag, a);
}

/// A function of the older shape is read from the count of its free
/// variables, its four fields and the free variables.
proof fn lemma_fun_parsed(
    x: InternalFunView,
    s: Seq<u8>,
    at: int,
    end0: int,
    end1: int,
    end2: int,
    floats: Seq<FloatTextView>,
)
    requires
        x is Old,
        at < end0 < end1 <= end2,
        take_u32(s, at) == Ok::<(u32, int), DecodeErrorView>((x.free_vars().len() as u32, end0)),
        x.free_vars().len() <= max_len(),
        parse_fun_fields(s, end0, floats) == Ok::<
            ((PidView, Seq<char>, i32, i32), int),
            DecodeErrorView,
        >(((x->Old_pid, x->Old_module, x->Old_index, x->Old_uniq), end1)),
        parse_terms(s, end1, x.free_vars().len(), floats) == Ok::<
            (Seq<TermView>, int),
            DecodeErrorView,
        >((x.free_vars(), end2)),
    ensures
        parse_fun(s, at, floats) == Ok::<(TermView, int), DecodeErrorView>(
            (TermView::InternalFun(x), end2),
        ),
{
    assert(step(at, parse_fun_fields(s, end0, floats)) == parse_fun_fields(s, end0, floats));
}

/// A function of the newer shape is read from its fixed fields, its four
/// other fields and the free variables.
proof fn lemma_new_fun_parsed(
    x: InternalFunView,
    s: Seq<u8>,
    at: int,
    end0: int,
    end1: int,
    end2: int,
    floats: Seq<FloatTextView>,
)
    requires
        x is New,
        at < end0 < end1 <= end2,
        new_fun_head(s, at) == Ok::<((u8, Seq<u8>, u32, u32), int), DecodeErrorView>(
            ((x->New_arity, x->New_uniq, x->New_index, x.free_vars().len() as u32), end0),
        ),
        x.free_vars().len() <= max_len(),
        parse_new_fun_fields(s, end0, floats) == Ok::<
            ((Seq<char>, i32, i32, PidView), int),
            DecodeErrorView,
        >(((x->New_module, x->New_old_index, x->New_old_uniq, x->New_pid), end1)),
        parse_terms(s, end1, x.free_vars().len(), floats) == Ok::<
            (Seq<TermView>, int),
            DecodeErrorView,
        >((x.free_vars(), end2)),
    ensures
        parse_new_fun(s, at, floats) == Ok::<(TermView, int), DecodeErrorView>(
            (TermView::InternalFun(x), end2),
        ),
{
    assert(step(at, new_fun_head(s, at)) == new_fun_head(s, at));
    assert(step(at, parse_new_fun_fields(s, end0, floats)) == parse_new_fun_fields(
        s,
        end0,
        floats,
    ));
}

/// The fixed fields of a function of the newer shape are read back as they
/// were.
proof fn lemma_new_fun_head(
    size: u32,
    arity: u8,
    uniq: Seq<u8>,
    index: u32,
    count: u32,
    s: Seq<u8>,
    at: int,
)
    requires
        uniq.len() == 16,
        holds(s, at, be32(size)),
        holds(s, at + 4, seq![arity]),
        holds(s, at + 5, uniq),
        holds(s, at + 21, be32(index)),
        holds(s, at + 25, be32(count)),
    ensures
        new_fun_head(s, at) == Ok::<((u8, Seq<u8>, u32, u32), int), DecodeErrorView>(
            ((arity, uniq, index, count), at + 29),
        ),
{
    lemma_take_u32(s, at, size);
    lemma_take_u8(s, at + 4, arity);
    lemma_take_bytes(s, at + 5, uniq);
    lemma_take_u32(s, at + 21, index);
    lemma_take_u32(s, at + 25, count);
}

/// A function of the older shape is read back as it was.
pub proof fn lemma_old_fun_round_trip(
    x: InternalFunView,
    s: Seq<u8>,
    at: int,
    floats: Seq<FloatTextView>,
)
    requires
        x is Old,
        TermView::InternalFun(x).wf(),
        fun_defect(x) is None,
        holds(s, at, fun_wire(x)),
    ensures
        parse_term(s, at, floats) == Ok::<(TermView, int), DecodeErrorView>(
            (TermView::InternalFun(x), at + fun_wire(x).len()),
        ),
        fun_wire(x).len() >= 1,
    decreases x, 0nat,
{
    let module = x->Old_module;
    let pid = x->Old_pid;
    let index = x->Old_index;
    let uniq = x->Old_uniq;
    let free_vars = x.free_vars();
    let n = free_vars.len();
    let count = be32(n as u32);
    let w_pid = pid_wire(pid);
    let w_module = atom_wire(module);
    let w_index = fix_wire(index);
    let w_uniq = fix_wire(uniq);
    let w_vars = terms_wire(free_vars, n);
    let end0 = at + 5;
    let end1 = end0 + w_pid.len();
    let end2 = end1 + w_module.len();
    let end3 = end2 + w_index.len();
    let end4 = end3 + w_uniq.len();
    lemma_holds_parts(s, at, FUN_EXT, count, w_pid, w_module, w_index, w_uniq, w_vars);
    lemma_take_u32(s, at + 1, n as u32);
    lemma_pid_round_trip(pid, s, end0, floats);
    lemma_atom_round_trip(module, s, end1, floats);
    lemma_fix_round_trip(index, s, end2, floats);
    lemma_fix_round_trip(uniq, s, end3, floats);
    lemma_fun_fields_parsed(pid, module, index, uniq, s, end0, end1, end2, end3, end4, floats);
    lemma_terms_round_trip(free_vars, n, s, end4, floats);
    assert(free_vars.take(n as int) =~= free_vars);
    lemma_fun_parsed(x, s, at + 1, end0, end4, end4 + w_vars.len(), floats);
}

/// Where the bytes of a function of the newer shape stand, there stands
/// each of their parts.
proof fn lemma_new_fun_layout(x: InternalFunView, s: Seq<u8>, at: int)
    requires
        x is New,
        x->New_uniq.len() == 16,
        holds(s, at, fun_wire(x)),
    ensures
        0 <= at < s.len(),
        s[at] == NEW_FUN_EXT,
        holds(s, at + 1, be32(stated_size(new_fun_body(x)))),
        holds(s, at + 5, seq![x->New_arity]),
        holds(s, at + 6, x->New_uniq),
        holds(s, at + 22, be32(x->New_index)),
        holds(s, at + 26, be32(x.free_vars().len() as u32)),
        holds(s, at + 30, atom_wire(x->New_module)),
        holds(s, at + 30 + atom_wire(x->New_module).len(), fix_wire(x->New_old_index)),
        holds(
            s,
            at + 30 + atom_wire(x->New_module).len() + fix_wire(x->New_old_index).len(),
            fix_wire(x->New_old_uniq),
        ),
        holds(
            s,
            at + 30 + atom_wire(x->New_module).len() + fix_wire(x->New_old_index).len() + fix_wire(
                x->New_old_uniq,
            ).len(),
            pid_wire(x->New_pid),
        ),
        holds(
            s,
            at + 30 + atom_wire(x->New_module).len() + fix_wire(x->New_old_index).len() + fix_wire(
                x->New_old_uniq,
            ).len() + pid_wire(x->New_pid).len(),
            terms_wire(x.free_vars(), x.free_vars().len()),
        ),
        fun_wire(x).len() == 30 + atom_wire(x->New_module).len() + fix_wire(
            x->New_old_index,
        ).len() + fix_wire(x->New_old_uniq).len() + pid_wire(x->New_pid).len() + terms_wire(
            x.free_vars(),
            x.free_vars().len(),
        ).len(),
{
    let arity = x->New_arity;
    let uniq = x->New_uniq;
    let index = x->New_index;
    let n = x.free_vars().len();
    let body = new_fun_body(x);
    let size = stated_size(body);
    let w_module = atom_wire(x->New_module);
    let w_index = fix_wire(x->New_old_index);
    let w_uniq = fix_wire(x->New_old_uniq);
    let w_pid = pid_wire(x->New_pid);
    let w_vars = terms_wire(x.free_vars(), n);
    lemma_holds_split(s, at, seq![NEW_FUN_EXT] + be32(size), body);
    lemma_holds_tag(s, at, NEW_FUN_EXT, be32(size));
    let front = seq![arity] + uniq + be32(index) + be32(n as u32) + w_module + w_index + w_uniq;
    lemma_holds_split(s, at + 5, front + w_pid, w_vars);
    lemma_holds_split(s, at + 5, front, w_pid);
    lemma_holds_parts(
        s,
        at + 5,
        arity,
        uniq,
        be32(index),
        be32(n as u32),
        w_module,
        w_index,
        w_uniq,
    );
}

/// A function of the newer shape is read back as it was.
pub proof fn lemma_new_fun_round_trip(
    x: InternalFunView,
    s: Seq<u8>,
    at: int,
    floats: Seq<FloatTextView>,
)
    requires
        x is New,
        TermView::InternalFun(x).wf(),
        fun_defect(x) is None,
        holds(s, at, fun_wire(x)),
    ensures
        parse_term(s, at, floats) == Ok::<(TermView, int), DecodeErrorView>(
            (TermView::InternalFun(x), at + fun_wire(x).len()),
        ),
        fun_wire(x).len() >= 1,
    decreases x, 0nat,
{
    let module = x->New_module;
    let arity = x->New_arity;
    let pid = x->New_pid;
    let index = x->New_index;
    let uniq = x->New_uniq;
    let old_index = x->New_old_index;
    let old_uniq = x->New_old_uniq;
    let free_vars = x.free_vars();
    let n = free_vars.len();
    let size = stated_size(new_fun_body(x));
    let end0 = at + 30;
    let end1 = end0 + atom_wire(module).len();
    let end2 = end1 + fix_wire(old_index).len();
    let end3 = end2 + fix_wire(old_uniq).len();
    let end4 = end3 + pid_wire(pid).len();
    let end5 = end4 + terms_wire(free_vars, n).len();
    lemma_new_fun_layout(x, s, at);
    lemma_new_fun_head(size, arity, uniq, index, n as u32, s, at + 1);
    lemma_atom_round_trip(module, s, end0, floats);
    lemma_fix_round_trip(old_index, s, end1, floats);
    lemma_fix_round_trip(old_uniq, s, end2, floats);
    lemma_pid_round_trip(pid, s, end3, floats);
    lemma_new_fun_fields_parsed(
        module,
        old_index,
        old_uniq,
        pid,
        s,
        end0,
        end1,
        end2,
        end3,
        end4,
        floats,
    );
    lemma_terms_round_trip(free_vars, n, s, end4, floats);
    assert(free_vars.take(n as int) =~= free_vars);
    lemma_new_fun_parsed(x, s, at + 1, end0, end4, end5, floats);
}

/// A function with its environment is read back as it was.
pub proof fn lemma_fun_round_trip(
    x: InternalFunView,
    s: Seq<u8>,
    at: int,
    floats: Seq<FloatTextView>,
)
    requires
        TermView::InternalFun(x).wf(),
        fun_defect(x) is None,
        holds(s, at, fun_wire(x)),
    ensures
        parse_term(s, at, floats) == Ok::<(TermView, int), DecodeErrorView>(
            (TermView::InternalFun(x), at + fun_wire(x).len()),
        ),
        fun_wire(x).len() >= 1,
    decreases x, 1nat,
{
    if x is Old {
        lemma_old_fun_round_trip(x, s, at, floats);
    } else {
        lemma_new_fun_round_trip(x, s, at, floats);
    }
}

} // verus!
