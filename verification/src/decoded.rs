//! What holds of every term that the decoder returns.

use crate::bigint::lemma_canonical;
use crate::error::{DecodeErrorView, EncodeErrorView, IoErrorKind};
use crate::grammar::{
    atom_of, converted, fix_of, left, new_fun_head, parse, parse_atom, parse_big, parse_binary,
    parse_bit_binary, parse_entries, parse_export, parse_float, parse_fun, parse_fun_fields,
    parse_integer, parse_list, parse_map, parse_new_float, parse_new_fun, parse_new_fun_fields,
    parse_new_reference, parse_pid, parse_port, parse_reference, parse_small_integer,
    parse_string, parse_term, parse_terms, parse_tuple, pid_of, step, take_bytes, take_long,
    take_short, take_u16, take_u32, take_u8, FloatTextView,
};
use crate::tag::{
    ATOM_EXT, ATOM_UTF8_EXT, BIT_BINARY_EXT, EXPORT_EXT, FUN_EXT, LARGE_BIG_EXT, LARGE_TUPLE_EXT,
    LIST_EXT, MAP_EXT, NEW_FUN_EXT, NEW_REFERENCE_EXT, PID_EXT, PORT_EXT, REFERENCE_EXT,
    SMALL_ATOM_EXT, SMALL_ATOM_UTF8_EXT, SMALL_BIG_EXT, SMALL_TUPLE_EXT, STRING_EXT, VERSION,
};
use crate::term::{all_wf, low_bits, significant, Sign, TermView};
use crate::wire::{
    as_byte, atom_defect, entries_defect, fun_defect, is_string, lowered, term_defect,
    terms_defect,
};
use crate::zlib::inflated;
use vstd::prelude::*;
use vstd::utf8::{decode_utf8_encode_utf8, valid_utf8};

verus! {

/// What holds of every failure inside a term: it is not the failure on the
/// version byte, which stands before the term; and a float in the text form
/// is asked for only where the decoder was given no conversion of it.
pub open spec fn proper_failure<T>(
    floats: Seq<FloatTextView>,
    r: Result<T, DecodeErrorView>,
) -> bool {
    &&& r matches Err(DecodeErrorView::UnconvertedFloat { text }) ==> converted(floats, text)
        is None
    &&& r matches Err(e) ==> !(e is UnsupportedVersion)
}

/// All that keeps the encoder from writing a term that was read: an improper
/// list in it that has no element before its tail. The format can hold such
/// a list, and the decoder reads it as it stands; the encoder refuses it, as
/// it is its tail alone.
pub open spec fn writable(defect: Option<EncodeErrorView>) -> bool {
    defect matches Some(e) ==> e is EmptyImproperList
}

/// What was read as a term is well formed, is a term that the encoder
/// accepts unless it holds an improper list without an element, and was
/// read from at least one byte of the input; and where a float in the text
/// form is asked for instead, the decoder was given no conversion of it.
pub open spec fn sound(
    s: Seq<u8>,
    at: int,
    floats: Seq<FloatTextView>,
    r: Result<(TermView, int), DecodeErrorView>,
) -> bool {
    &&& r matches Ok((t, p)) ==> t.wf() && writable(term_defect(t)) && at < p <= s.len()
    &&& proper_failure(floats, r)
}

/// The low bits that are read from the top of a byte are low bits.
pub proof fn lemma_lowered(byte: u8, bits: u8)
    requires
        1 <= bits <= 8,
    ensures
        low_bits(lowered(byte, bits), bits) == lowered(byte, bits),
{
    let shift = (8 - bits) as u8;
    assert((((byte >> shift) << shift) >> shift) == byte >> shift) by (bit_vector)
        requires
            shift < 8,
    ;
}

/// A term that is read without a nested term is well formed.
pub proof fn lemma_leaf_sound(s: Seq<u8>, at: int, floats: Seq<FloatTextView>)
    ensures
        sound(s, at, floats, parse_new_float(s, at)),
        sound(s, at, floats, parse_float(s, at, floats)),
        sound(s, at, floats, parse_small_integer(s, at)),
        sound(s, at, floats, parse_integer(s, at)),
        sound(s, at, floats, parse_binary(s, at)),
{
    reveal(parse_new_float);
    reveal(parse_float);
    reveal(parse_small_integer);
    reveal(parse_integer);
    reveal(parse_binary);
}

/// A string that is read is well formed.
pub proof fn lemma_string_sound(s: Seq<u8>, at: int, floats: Seq<FloatTextView>)
    ensures
        sound(s, at, floats, parse_string(s, at)),
{
    reveal(parse_string);
    match parse_string(s, at) {
        Ok((TermView::List(elements), _)) => {
            assert forall|i: int| 0 <= i < elements.len() implies (#[trigger] elements[i]).wf() by {
                assert(elements[i] is FixInteger);
            }
            assert(all_wf(elements));
            if elements.len() > 0 {
                assert forall|i: int| 0 <= i < elements.len() implies as_byte(
                    #[trigger] elements[i],
                ) is Some by {
                    assert(elements[i] is FixInteger);
                }
                assert(is_string(elements));
            } else {
                assert(terms_defect(elements, 0) is None);
            }
        },
        _ => {},
    }
}

/// An atom that is read is well formed.
pub proof fn lemma_atom_sound(
    s: Seq<u8>,
    at: int,
    wide: bool,
    kind: IoErrorKind,
    floats: Seq<FloatTextView>,
)
    ensures
        sound(s, at, floats, parse_atom(s, at, wide, kind)),
{
    reveal(parse_atom);
    match take_short(s, at, wide) {
        Ok((len, p)) => match take_bytes(s, p, len) {
            Ok((bytes, _)) => {
                if valid_utf8(bytes) {
                    decode_utf8_encode_utf8(bytes);
                }
            },
            _ => {},
        },
        _ => {},
    }
}

/// An integer of any size that is read is well formed.
pub proof fn lemma_big_sound(s: Seq<u8>, at: int, wide: bool, floats: Seq<FloatTextView>)
    ensures
        sound(s, at, floats, parse_big(s, at, wide)),
{
    reveal(parse_big);
    match take_long(s, at, wide) {
        Ok((count, p)) => match take_u8(s, p) {
            Ok((_, p)) => match take_bytes(s, p, count) {
                Ok((bytes, _)) => {
                    lemma_canonical(Sign::Plus, bytes);
                    lemma_canonical(Sign::Minus, bytes);
                },
                _ => {},
            },
            _ => {},
        },
        _ => {},
    }
}

/// A bit binary that is read is well formed.
pub proof fn lemma_bit_binary_sound(s: Seq<u8>, at: int, floats: Seq<FloatTextView>)
    ensures
        sound(s, at, floats, parse_bit_binary(s, at)),
{
    reveal(parse_bit_binary);
    match take_u32(s, at) {
        Ok((size, p)) => match take_u8(s, p) {
            Ok((bits, p)) => match take_bytes(s, p, size as int) {
                Ok((bytes, _)) => {
                    if 1 <= bits <= 8 && size > 0 {
                        lemma_lowered(bytes.last(), bits);
                        let read = bytes.drop_last().push(lowered(bytes.last(), bits));
                        assert(read.drop_last() =~= bytes.drop_last());
                        assert(significant(read, bits) =~= read);
                    }
                },
                _ => {},
            },
            _ => {},
        },
        _ => {},
    }
}

/// What was read as a run of terms is as long as was asked for, each of its
/// terms is well formed, and it was read from inside the input.
pub open spec fn sound_terms(
    s: Seq<u8>,
    at: int,
    n: nat,
    floats: Seq<FloatTextView>,
    r: Result<(Seq<TermView>, int), DecodeErrorView>,
) -> bool {
    &&& r matches Ok((terms, p)) ==> terms.len() == n && all_wf(terms) && writable(
        terms_defect(terms, n),
    ) && at <= p && (at <= s.len() ==> p <= s.len())
    &&& proper_failure(floats, r)
}

/// What was read as a run of entries is as long as was asked for, each of
/// its keys and values is well formed, and it was read from inside the
/// input.
pub open spec fn sound_entries(
    s: Seq<u8>,
    at: int,
    n: nat,
    floats: Seq<FloatTextView>,
    r: Result<(Seq<(TermView, TermView)>, int), DecodeErrorView>,
) -> bool {
    &&& r matches Ok((entries, p)) ==> entries.len() == n && (forall|i: int|
        0 <= i < entries.len() ==> (#[trigger] entries[i]).0.wf() && entries[i].1.wf())
        && writable(entries_defect(entries, n)) && at <= p && (at <= s.len() ==> p <= s.len())
    &&& proper_failure(floats, r)
}

/// Every term that is read is well formed, and is read from at least one
/// byte of the input.
pub proof fn lemma_term_sound(s: Seq<u8>, at: int, floats: Seq<FloatTextView>)
    ensures
        sound(s, at, floats, parse_term(s, at, floats)),
    decreases left(s, at), 0nat,
{
    if 0 <= at < s.len() {
        let tag = s[at];
        let next = at + 1;
        lemma_leaf_sound(s, next, floats);
        assert(all_wf(Seq::<TermView>::empty()));
        assert(terms_defect(Seq::<TermView>::empty(), 0) is None);
        if tag == BIT_BINARY_EXT {
            lemma_bit_binary_sound(s, next, floats);
        } else if tag == STRING_EXT {
            lemma_string_sound(s, next, floats);
        } else if tag == ATOM_EXT || tag == SMALL_ATOM_EXT {
            lemma_atom_sound(s, next, tag == ATOM_EXT, IoErrorKind::Other, floats);
        } else if tag == ATOM_UTF8_EXT || tag == SMALL_ATOM_UTF8_EXT {
            lemma_atom_sound(s, next, tag == ATOM_UTF8_EXT, IoErrorKind::InvalidData, floats);
        } else if tag == SMALL_BIG_EXT || tag == LARGE_BIG_EXT {
            lemma_big_sound(s, next, tag == LARGE_BIG_EXT, floats);
        } else if tag == REFERENCE_EXT {
            lemma_reference_sound(s, next, floats);
        } else if tag == PORT_EXT {
            lemma_port_sound(s, next, floats);
        } else if tag == PID_EXT {
            lemma_pid_sound(s, next, floats);
        } else if tag == NEW_REFERENCE_EXT {
            lemma_new_reference_sound(s, next, floats);
        } else if tag == SMALL_TUPLE_EXT || tag == LARGE_TUPLE_EXT {
            lemma_tuple_sound(s, next, tag == LARGE_TUPLE_EXT, floats);
        } else if tag == LIST_EXT {
            lemma_list_sound(s, next, floats);
        } else if tag == NEW_FUN_EXT {
            lemma_new_fun_sound(s, next, floats);
        } else if tag == EXPORT_EXT {
            lemma_export_sound(s, next, floats);
        } else if tag == MAP_EXT {
            lemma_map_sound(s, next, floats);
        } else if tag == FUN_EXT {
            lemma_fun_sound(s, next, floats);
        }
    }
}

/// What the encoder refuses among the first `n` terms of a run depends on
/// those terms alone.
pub proof fn lemma_terms_defect_prefix(a: Seq<TermView>, b: Seq<TermView>, n: nat)
    requires
        n <= a.len(),
        n <= b.len(),
        forall|i: int| 0 <= i < n ==> a[i] == b[i],
    ensures
        terms_defect(a, n) == terms_defect(b, n),
    decreases n,
{
    if n > 0 {
        lemma_terms_defect_prefix(a, b, (n - 1) as nat);
    }
}

/// What the encoder refuses among the first `n` entries of a run depends on
/// those entries alone.
pub proof fn lemma_entries_defect_prefix(
    a: Seq<(TermView, TermView)>,
    b: Seq<(TermView, TermView)>,
    n: nat,
)
    requires
        n <= a.len(),
        n <= b.len(),
        forall|i: int| 0 <= i < n ==> a[i] == b[i],
    ensures
        entries_defect(a, n) == entries_defect(b, n),
    decreases n,
{
    if n > 0 {
        lemma_entries_defect_prefix(a, b, (n - 1) as nat);
    }
}

/// A field that is read as an atom holds a name that the encoder accepts.
pub proof fn lemma_atom_field_sound(s: Seq<u8>, at: int, floats: Seq<FloatTextView>)
    ensures
        atom_of(parse_term(s, at, floats)) matches Ok((name, p)) ==> atom_defect(name) is None
            && at < p <= s.len(),
        proper_failure(floats, atom_of(parse_term(s, at, floats))),
    decreases left(s, at), 1nat,
{
    lemma_term_sound(s, at, floats);
}

/// A field that is read as a process identifier holds one that the encoder
/// accepts.
pub proof fn lemma_pid_field_sound(s: Seq<u8>, at: int, floats: Seq<FloatTextView>)
    ensures
        pid_of(parse_term(s, at, floats)) matches Ok((pid, p)) ==> atom_defect(pid.node) is None
            && at < p <= s.len(),
        proper_failure(floats, pid_of(parse_term(s, at, floats))),
    decreases left(s, at), 1nat,
{
    lemma_term_sound(s, at, floats);
}

/// Every reference of the older form that is read is sound.
pub proof fn lemma_reference_sound(s: Seq<u8>, at: int, floats: Seq<FloatTextView>)
    ensures
        sound(s, at - 1, floats, parse_reference(s, at, floats)),
    decreases left(s, at), 2nat,
{
    lemma_atom_field_sound(s, at, floats);
    match parse_reference(s, at, floats) {
        Ok((TermView::Reference(x), _)) => {
            assert(x.id.len() == 1);
        },
        _ => {},
    }
}

/// Every port that is read is sound.
pub proof fn lemma_port_sound(s: Seq<u8>, at: int, floats: Seq<FloatTextView>)
    ensures
        sound(s, at - 1, floats, parse_port(s, at, floats)),
    decreases left(s, at), 2nat,
{
    lemma_atom_field_sound(s, at, floats);
}

/// Every process identifier that is read is sound.
pub proof fn lemma_pid_sound(s: Seq<u8>, at: int, floats: Seq<FloatTextView>)
    ensures
        sound(s, at - 1, floats, parse_pid(s, at, floats)),
    decreases left(s, at), 2nat,
{
    lemma_atom_field_sound(s, at, floats);
}

/// Every reference of the newer form that is read is sound.
pub proof fn lemma_new_reference_sound(s: Seq<u8>, at: int, floats: Seq<FloatTextView>)
    ensures
        sound(s, at - 1, floats, parse_new_reference(s, at, floats)),
    decreases left(s, at), 2nat,
{
    match take_u16(s, at) {
        Ok((count, p)) => {
            lemma_atom_field_sound(s, p, floats);
            match parse_new_reference(s, at, floats) {
                Ok((TermView::Reference(x), _)) => {
                    assert(x.id.len() == count);
                },
                _ => {},
            }
        },
        _ => {},
    }
}

/// Every run of terms that is read is sound.
pub proof fn lemma_terms_sound(s: Seq<u8>, at: int, n: nat, floats: Seq<FloatTextView>)
    ensures
        sound_terms(s, at, n, floats, parse_terms(s, at, n, floats)),
    decreases left(s, at), n + 1,
{
    if n > 0 {
        lemma_terms_sound(s, at, (n - 1) as nat, floats);
        match parse_terms(s, at, (n - 1) as nat, floats) {
            Ok((terms, p)) => {
                if p >= at {
                    lemma_term_sound(s, p, floats);
                    match parse_term(s, p, floats) {
                        Ok((t, _)) => {
                            lemma_terms_defect_prefix(terms, terms.push(t), (n - 1) as nat);
                        },
                        _ => {},
                    }
                }
            },
            _ => {},
        }
    }
}

/// Every run of entries that is read is sound.
pub proof fn lemma_entries_sound(s: Seq<u8>, at: int, n: nat, floats: Seq<FloatTextView>)
    ensures
        sound_entries(s, at, n, floats, parse_entries(s, at, n, floats)),
    decreases left(s, at), n + 1,
{
    if n > 0 {
        lemma_entries_sound(s, at, (n - 1) as nat, floats);
        match parse_entries(s, at, (n - 1) as nat, floats) {
            Ok((entries, p)) => {
                if p >= at {
                    lemma_term_sound(s, p, floats);
                    match step(p, parse_term(s, p, floats)) {
                        Ok((k, q)) => {
                            lemma_term_sound(s, q, floats);
                            match parse_term(s, q, floats) {
                                Ok((v, _)) => {
                                    lemma_entries_defect_prefix(
                                        entries,
                                        entries.push((k, v)),
                                        (n - 1) as nat,
                                    );
                                },
                                _ => {},
                            }
                        },
                        _ => {},
                    }
                }
            },
            _ => {},
        }
    }
}

/// Every tuple that is read is sound.
pub proof fn lemma_tuple_sound(s: Seq<u8>, at: int, wide: bool, floats: Seq<FloatTextView>)
    ensures
        sound(s, at - 1, floats, parse_tuple(s, at, wide, floats)),
    decreases left(s, at), 1nat,
{
    match take_long(s, at, wide) {
        Ok((count, p)) => {
            lemma_terms_sound(s, p, count as nat, floats);
        },
        _ => {},
    }
}

/// Every map that is read is sound.
pub proof fn lemma_map_sound(s: Seq<u8>, at: int, floats: Seq<FloatTextView>)
    ensures
        sound(s, at - 1, floats, parse_map(s, at, floats)),
    decreases left(s, at), 1nat,
{
    match take_u32(s, at) {
        Ok((count, p)) => {
            lemma_entries_sound(s, p, count as nat, floats);
        },
        _ => {},
    }
}

/// Every list that is read is sound.
pub proof fn lemma_list_sound(s: Seq<u8>, at: int, floats: Seq<FloatTextView>)
    ensures
        sound(s, at - 1, floats, parse_list(s, at, floats)),
    decreases left(s, at), 1nat,
{
    match take_u32(s, at) {
        Ok((count, p)) => {
            lemma_terms_sound(s, p, count as nat, floats);
            match step(at, parse_terms(s, p, count as nat, floats)) {
                Ok((_, q)) => {
                    lemma_term_sound(s, q, floats);
                },
                _ => {},
            }
        },
        _ => {},
    }
}

/// Every exported function that is read is sound.
pub proof fn lemma_export_sound(s: Seq<u8>, at: int, floats: Seq<FloatTextView>)
    ensures
        sound(s, at - 1, floats, parse_export(s, at, floats)),
    decreases left(s, at), 2nat,
{
    lemma_atom_field_sound(s, at, floats);
    match step(at, atom_of(parse_term(s, at, floats))) {
        Ok((_, p)) => {
            lemma_atom_field_sound(s, p, floats);
            match step(at, atom_of(parse_term(s, p, floats))) {
                Ok((_, q)) => {
                    lemma_term_sound(s, q, floats);
                },
                _ => {},
            }
        },
        _ => {},
    }
}

/// The fields of a function of the older shape are read from inside the
/// input.
pub proof fn lemma_fun_fields_sound(s: Seq<u8>, at: int, floats: Seq<FloatTextView>)
    ensures
        parse_fun_fields(s, at, floats) matches Ok(((pid, module, _, _), p)) ==> at < p <= s.len()
            && atom_defect(pid.node) is None && atom_defect(module) is None,
        proper_failure(floats, parse_fun_fields(s, at, floats)),
    decreases left(s, at), 2nat,
{
    lemma_pid_field_sound(s, at, floats);
    match step(at, pid_of(parse_term(s, at, floats))) {
        Ok((_, p)) => {
            lemma_atom_field_sound(s, p, floats);
            match step(at, atom_of(parse_term(s, p, floats))) {
                Ok((_, p)) => {
                    lemma_term_sound(s, p, floats);
                    match step(at, fix_of(parse_term(s, p, floats))) {
                        Ok((_, p)) => {
                            lemma_term_sound(s, p, floats);
                        },
                        _ => {},
                    }
                },
                _ => {},
            }
        },
        _ => {},
    }
}

/// The fields of a function of the newer shape are read from inside the
/// input.
pub proof fn lemma_new_fun_fields_sound(s: Seq<u8>, at: int, floats: Seq<FloatTextView>)
    ensures
        parse_new_fun_fields(s, at, floats) matches Ok(((module, _, _, pid), p)) ==> at < p
            <= s.len() && atom_defect(pid.node) is None && atom_defect(module) is None,
        proper_failure(floats, parse_new_fun_fields(s, at, floats)),
    decreases left(s, at), 2nat,
{
    lemma_atom_field_sound(s, at, floats);
    match step(at, atom_of(parse_term(s, at, floats))) {
        Ok((_, p)) => {
            lemma_term_sound(s, p, floats);
            match step(at, fix_of(parse_term(s, p, floats))) {
                Ok((_, p)) => {
                    lemma_term_sound(s, p, floats);
                    match step(at, fix_of(parse_term(s, p, floats))) {
                        Ok((_, p)) => {
                            lemma_pid_field_sound(s, p, floats);
                        },
                        _ => {},
                    }
                },
                _ => {},
            }
        },
        _ => {},
    }
}

/// Every function of the older shape that is read is sound.
pub proof fn lemma_fun_sound(s: Seq<u8>, at: int, floats: Seq<FloatTextView>)
    ensures
        sound(s, at - 1, floats, parse_fun(s, at, floats)),
    decreases left(s, at), 3nat,
{
    match take_u32(s, at) {
        Ok((count, p)) => {
            lemma_fun_fields_sound(s, p, floats);
            match step(at, parse_fun_fields(s, p, floats)) {
                Ok((_, q)) => {
                    lemma_terms_sound(s, q, count as nat, floats);
                    match parse_fun(s, at, floats) {
                        Ok((TermView::InternalFun(x), _)) => {
                            assert(writable(fun_defect(x)));
                        },
                        _ => {},
                    }
                },
                _ => {},
            }
        },
        _ => {},
    }
}

/// Every function of the newer shape that is read is sound.
pub proof fn lemma_new_fun_sound(s: Seq<u8>, at: int, floats: Seq<FloatTextView>)
    ensures
        sound(s, at - 1, floats, parse_new_fun(s, at, floats)),
    decreases left(s, at), 3nat,
{
    match step(at, new_fun_head(s, at)) {
        Ok(((_, _, _, count), p)) => {
            lemma_new_fun_fields_sound(s, p, floats);
            match step(at, parse_new_fun_fields(s, p, floats)) {
                Ok((_, q)) => {
                    lemma_terms_sound(s, q, count as nat, floats);
                    match parse_new_fun(s, at, floats) {
                        Ok((TermView::InternalFun(x), _)) => {
                            assert(writable(fun_defect(x)));
                        },
                        _ => {},
                    }
                },
                _ => {},
            }
        },
        _ => {},
    }
}

/// Every term that is decoded is well formed, and is a term that the
/// encoder accepts unless it holds an improper list without an element;
/// where decoding asks for the conversion of a float in the text form
/// instead, the decoder was given no conversion of that text; and decoding
/// fails on the version exactly where the input has a first byte and that
/// is not the version byte.
pub proof fn lemma_decoded_wf(s: Seq<u8>, floats: Seq<FloatTextView>)
    ensures
        parse(s, floats) matches Ok(t) ==> t.wf() && writable(term_defect(t)),
        parse(s, floats) matches Err(DecodeErrorView::UnconvertedFloat { text }) ==> converted(
            floats,
            text,
        ) is None,
        (parse(s, floats) matches Err(e) && e is UnsupportedVersion) <==> (s.len() > 0 && s[0]
            != VERSION),
{
    lemma_term_sound(s, 1, floats);
    match inflated(s.skip(6)) {
        Ok(data) => {
            lemma_term_sound(data, 0, floats);
        },
        Err(_) => {},
    }
}

} // verus!
