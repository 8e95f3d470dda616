//! What holds of encoding and decoding together.

use crate::decoded::{lemma_decoded_wf, writable};
use crate::endian::{be16, be64_at};
use crate::error::{DecodeErrorView, EncodeErrorView, IoErrorView};
use crate::grammar::{converted, parse, parse_float, parse_new_float, parse_term, FloatTextView};
use crate::roundtrip::{holds, lemma_holds_tag, lemma_term_round_trip};
use crate::tag::{COMPRESSED_TERM, FLOAT_EXT, NEW_FLOAT_EXT, VERSION};
use crate::term::{finite, ImproperListView, TermView};
use crate::wire::{encoding, fix_wire, is_string, string_bytes, term_defect, term_wire};
use crate::zlib::inflated;
use vstd::prelude::*;

verus! {

/// Round trip: a term that is well formed and that the encoder accepts is
/// decoded from its encoding as it was, whatever bytes stand behind the
/// encoding and whatever conversions of floats the decoder was given.
pub proof fn lemma_round_trip(t: TermView, rest: Seq<u8>, floats: Seq<FloatTextView>)
    requires
        t.wf(),
        term_defect(t) is None,
    ensures
        parse(encoding(t) + rest, floats) == Ok::<TermView, DecodeErrorView>(t),
{
    let s = encoding(t) + rest;
    assert(holds(s, 0, seq![VERSION] + term_wire(t))) by {
        reveal(holds);
        assert(s.subrange(0, encoding(t).len() as int) =~= encoding(t));
    }
    lemma_holds_tag(s, 0, VERSION, term_wire(t));
    lemma_term_round_trip(t, s, 1, floats);
}

/// Byte idempotence: where a term is encoded, decoded and encoded again, the
/// second encoding is the first.
pub proof fn lemma_encoding_idempotent(t: TermView, floats: Seq<FloatTextView>)
    requires
        t.wf(),
        term_defect(t) is None,
    ensures
        parse(encoding(t), floats) matches Ok(u) && u.wf() && term_defect(u) is None && encoding(u)
            == encoding(t),
{
    lemma_round_trip(t, Seq::empty(), floats);
    assert(encoding(t) + Seq::<u8>::empty() =~= encoding(t));
}

/// What was decoded is written and read back as it is, unless it holds an
/// improper list without an element, which is all that the encoder refuses
/// in it: decoding gives one term for all the ways of writing it.
pub proof fn lemma_decoded_round_trip(s: Seq<u8>, rest: Seq<u8>, floats: Seq<FloatTextView>)
    ensures
        parse(s, floats) matches Ok(t) ==> writable(term_defect(t)) && (term_defect(t) is None
            ==> parse(encoding(t) + rest, floats) == Ok::<TermView, DecodeErrorView>(t)),
{
    match parse(s, floats) {
        Ok(t) => {
            lemma_decoded_wf(s, floats);
            if term_defect(t) is None {
                lemma_round_trip(t, rest, floats);
            }
        },
        _ => {},
    }
}

/// An improper list without an element before its tail is its tail alone:
/// the encoder refuses it, whatever its tail, and names the list.
pub proof fn lemma_empty_improper_list(x: ImproperListView)
    requires
        x.elements.len() == 0,
    ensures
        term_defect(TermView::ImproperList(x)) == Some(EncodeErrorView::EmptyImproperList(x)),
{
}

/// Terms that are written as the same bytes are the same term.
pub proof fn lemma_encoding_injective(t: TermView, u: TermView)
    requires
        t.wf(),
        u.wf(),
        term_defect(t) is None,
        term_defect(u) is None,
        encoding(t) == encoding(u),
    ensures
        t == u,
{
    lemma_round_trip(t, Seq::empty(), Seq::empty());
    lemma_round_trip(u, Seq::empty(), Seq::empty());
}

/// Version prefix: every encoding starts with the version byte, 131.
pub proof fn lemma_version_prefix(t: TermView)
    ensures
        encoding(t).len() >= 1,
        encoding(t)[0] == 131,
{
}

/// Version: decoding fails on the version exactly where the input has a
/// first byte and that byte is not 131, and the failure then names the byte.
pub proof fn lemma_unsupported_version(s: Seq<u8>, floats: Seq<FloatTextView>)
    ensures
        (parse(s, floats) matches Err(e) && e is UnsupportedVersion) <==> (s.len() > 0 && s[0]
            != 131),
        s.len() > 0 && s[0] != 131 ==> parse(s, floats) == Err::<TermView, DecodeErrorView>(
            DecodeErrorView::UnsupportedVersion { version: s[0] },
        ),
{
    lemma_decoded_wf(s, floats);
}

/// Tag choice: an integer in 0..=255 is written in two bytes, the tag 97 and
/// the integer, behind the version byte.
pub proof fn lemma_small_integer_tag(value: i32)
    requires
        0 <= value <= 255,
    ensures
        term_wire(TermView::FixInteger(value)) == seq![97u8, value as u8],
        encoding(TermView::FixInteger(value)) == seq![131u8, 97u8, value as u8],
{
    reveal(fix_wire);
    assert(seq![131u8] + seq![97u8, value as u8] =~= seq![131u8, 97u8, value as u8]);
}

/// Tag choice: a tuple of fewer than 256 elements is written with the tag
/// 104 and its arity in one byte.
pub proof fn lemma_small_tuple_tag(elements: Seq<TermView>)
    requires
        elements.len() < 256,
    ensures
        term_wire(TermView::Tuple(elements)).len() >= 2,
        term_wire(TermView::Tuple(elements))[0] == 104,
        term_wire(TermView::Tuple(elements))[1] == elements.len(),
{
}

/// Tag choice: a list of integers in 0..=255 that is not empty and no
/// longer than 65535 is written with the tag 107, its length in two bytes
/// and one byte for each element.
pub proof fn lemma_string_tag(elements: Seq<TermView>)
    requires
        is_string(elements),
    ensures
        term_wire(TermView::List(elements)) == seq![107u8] + be16(elements.len() as u16)
            + string_bytes(elements),
        term_wire(TermView::List(elements))[0] == 107,
        term_wire(TermView::List(elements)).len() == 3 + elements.len(),
{
}

/// Float finiteness: eight bytes behind the tag 70 that stand for an
/// infinity or a NaN are refused.
pub proof fn lemma_non_finite_float(s: Seq<u8>, at: int, floats: Seq<FloatTextView>)
    requires
        0 <= at,
        at + 9 <= s.len(),
        s[at] == NEW_FLOAT_EXT,
        !finite(be64_at(s, at + 1)),
    ensures
        parse_term(s, at, floats) == Err::<(TermView, int), DecodeErrorView>(
            DecodeErrorView::NonFiniteFloat,
        ),
{
    reveal(parse_new_float);
}

/// Float finiteness: a float in the text form whose conversion stands for an
/// infinity or a NaN is refused.
pub proof fn lemma_non_finite_float_text(
    s: Seq<u8>,
    at: int,
    bits: u64,
    floats: Seq<FloatTextView>,
)
    requires
        0 <= at,
        at + 32 <= s.len(),
        s[at] == FLOAT_EXT,
        converted(floats, s.subrange(at + 1, at + 32)) == Some(Some(bits)),
        !finite(bits),
    ensures
        parse_term(s, at, floats) == Err::<(TermView, int), DecodeErrorView>(
            DecodeErrorView::NonFiniteFloat,
        ),
{
    reveal(parse_float);
}

/// Compressed equivalence: where a zlib stream holds the bytes of a term
/// behind its version byte, the mark of the compressed form, any four bytes
/// and that stream are decoded to the term.
pub proof fn lemma_compressed(
    t: TermView,
    size: Seq<u8>,
    stream: Seq<u8>,
    floats: Seq<FloatTextView>,
)
    requires
        t.wf(),
        term_defect(t) is None,
        size.len() == 4,
        inflated(stream) == Ok::<Seq<u8>, IoErrorView>(term_wire(t)),
    ensures
        parse(seq![VERSION, COMPRESSED_TERM] + size + stream, floats) == Ok::<
            TermView,
            DecodeErrorView,
        >(t),
{
    let s = seq![VERSION, COMPRESSED_TERM] + size + stream;
    assert(s.skip(6) =~= stream);
    let data = term_wire(t);
    assert(holds(data, 0, data)) by {
        reveal(holds);
        assert(data.subrange(0, data.len() as int) =~= data);
    }
    lemma_term_round_trip(t, data, 0, floats);
}

} // verus!
