use eetf::{
    Atom, BigInteger, Binary, BitBinary, DecodeError, Decoder, EncodeError, Encoder, ExternalFun,
    FixInteger, Float, FloatText, ImproperList, InternalFun, IoErrorKind, List, Pid, Port,
    Reference, Sign, Term, Tuple,
};

fn decode(bytes: &[u8]) -> Result<Term, DecodeError> {
    Decoder::new(bytes).decode()
}

fn atom(name: &str) -> Atom {
    Atom { name: name.to_string() }
}

fn fix(value: i32) -> Term {
    Term::FixInteger(FixInteger { value })
}

fn io_kind(r: Result<Term, DecodeError>) -> IoErrorKind {
    match r {
        Err(DecodeError::Io(e)) => e.kind,
        other => panic!("{:?}", other),
    }
}

#[test]
fn empty_input_is_unexpected_eof() {
    assert_eq!(io_kind(decode(&[])), IoErrorKind::UnexpectedEof);
    assert_eq!(io_kind(decode(&[131])), IoErrorKind::UnexpectedEof);
}

#[test]
fn eof_error_says_what_failed() {
    match decode(&[131, 98, 0, 0]) {
        Err(DecodeError::Io(e)) => {
            assert_eq!(e.kind, IoErrorKind::UnexpectedEof);
            assert_eq!(e.message, "failed to fill whole buffer");
        }
        other => panic!("{:?}", other),
    }
}

#[test]
fn other_version_is_unsupported() {
    assert_eq!(decode(&[130, 106]), Err(DecodeError::UnsupportedVersion { version: 130 }));
    assert_eq!(decode(&[0]), Err(DecodeError::UnsupportedVersion { version: 0 }));
}

#[test]
fn unknown_tags() {
    assert_eq!(decode(&[131, 0]), Err(DecodeError::UnknownTag { tag: 0 }));
    assert_eq!(decode(&[131, 255, 1, 2]), Err(DecodeError::UnknownTag { tag: 255 }));
    // a tuple whose element starts with an unknown tag
    assert_eq!(decode(&[131, 104, 1, 96]), Err(DecodeError::UnknownTag { tag: 96 }));
}

#[test]
fn tags_that_are_not_read() {
    // the distribution header and the atom cache reference
    assert_eq!(decode(&[131, 68, 0]), Err(DecodeError::UnknownTag { tag: 68 }));
    assert_eq!(decode(&[131, 82, 0]), Err(DecodeError::UnknownTag { tag: 82 }));
    // the compressed form inside a term
    assert_eq!(decode(&[131, 104, 1, 80, 0]), Err(DecodeError::UnknownTag { tag: 80 }));
}

#[test]
fn trailing_bytes_are_left_unread() {
    assert_eq!(decode(&[131, 97, 7, 1, 2, 3]), Ok(fix(7)));
}

#[test]
fn small_integer_and_integer() {
    assert_eq!(decode(&[131, 97, 255]), Ok(fix(255)));
    assert_eq!(decode(&[131, 98, 0xff, 0xff, 0xff, 0xff]), Ok(fix(-1)));
    assert_eq!(decode(&[131, 98, 0x80, 0, 0, 0]), Ok(fix(i32::MIN)));
    assert_eq!(decode(&[131, 98, 0x7f, 0xff, 0xff, 0xff]), Ok(fix(i32::MAX)));
    // a small value in the wide form is read too
    assert_eq!(decode(&[131, 98, 0, 0, 0, 5]), Ok(fix(5)));
}

#[test]
fn new_float() {
    let mut bytes = vec![131, 70];
    bytes.extend_from_slice(&1.5f64.to_be_bytes());
    assert_eq!(decode(&bytes), Ok(Term::Float(Float { bits: 1.5f64.to_bits() })));
}

#[test]
fn non_finite_new_float_is_refused() {
    for value in [f64::NAN, f64::INFINITY, f64::NEG_INFINITY] {
        let mut bytes = vec![131, 70];
        bytes.extend_from_slice(&value.to_be_bytes());
        assert_eq!(decode(&bytes), Err(DecodeError::NonFiniteFloat));
    }
}

fn float_text(text: &str) -> Vec<u8> {
    let mut bytes = text.as_bytes().to_vec();
    bytes.resize(31, 0);
    bytes
}

#[test]
fn float_in_text_form_asks_for_its_conversion() {
    let text = float_text("1.50000000000000000000e+00");
    let mut bytes = vec![131, 99];
    bytes.extend_from_slice(&text);
    assert_eq!(decode(&bytes), Err(DecodeError::UnconvertedFloat { text: text.clone() }));
    let floats = vec![FloatText { text: text.clone(), bits: Some((1.5f32 as f64).to_bits()) }];
    assert_eq!(
        Decoder::new(&bytes).with_floats(floats).decode(),
        Ok(Term::Float(Float { bits: 1.5f64.to_bits() }))
    );
}

#[test]
fn float_in_text_form_that_is_no_number_is_invalid_data() {
    let text = float_text("abc");
    let mut bytes = vec![131, 99];
    bytes.extend_from_slice(&text);
    let floats = vec![FloatText { text, bits: None }];
    match Decoder::new(&bytes).with_floats(floats).decode() {
        Err(DecodeError::Io(e)) => {
            assert_eq!(e.kind, IoErrorKind::InvalidData);
            assert_eq!(e.message, "invalid float literal");
        }
        other => panic!("{:?}", other),
    }
}

#[test]
fn float_in_text_form_that_is_not_finite_is_refused() {
    let text = float_text("inf");
    let mut bytes = vec![131, 99];
    bytes.extend_from_slice(&text);
    let floats = vec![FloatText { text, bits: Some(f64::INFINITY.to_bits()) }];
    assert_eq!(Decoder::new(&bytes).with_floats(floats).decode(), Err(DecodeError::NonFiniteFloat));
}

#[test]
fn float_in_text_form_takes_the_first_conversion_of_its_text() {
    let one = float_text("1.0");
    let two = float_text("2.0");
    let mut bytes = vec![131, 104, 2, 99];
    bytes.extend_from_slice(&two);
    bytes.push(99);
    bytes.extend_from_slice(&one);
    let floats = vec![
        FloatText { text: one.clone(), bits: Some(1.0f64.to_bits()) },
        FloatText { text: two.clone(), bits: Some(2.0f64.to_bits()) },
        FloatText { text: one.clone(), bits: Some(3.0f64.to_bits()) },
    ];
    assert_eq!(
        Decoder::new(&bytes).with_floats(floats).decode(),
        Ok(Term::Tuple(Tuple {
            elements: vec![
                Term::Float(Float { bits: 2.0f64.to_bits() }),
                Term::Float(Float { bits: 1.0f64.to_bits() }),
            ]
        }))
    );
    // with the first text only, the second float is still to be converted
    let floats = vec![FloatText { text: two, bits: Some(2.0f64.to_bits()) }];
    assert_eq!(
        Decoder::new(&bytes).with_floats(floats).decode(),
        Err(DecodeError::UnconvertedFloat { text: one })
    );
}

#[test]
fn float_in_text_form_needs_all_its_31_bytes() {
    let mut bytes = vec![131, 99];
    bytes.extend_from_slice(&[b'1'; 30]);
    assert_eq!(io_kind(decode(&bytes)), IoErrorKind::UnexpectedEof);
}

#[test]
fn atoms_in_all_four_forms() {
    assert_eq!(decode(&[131, 100, 0, 2, b'o', b'k']), Ok(Term::Atom(atom("ok"))));
    assert_eq!(decode(&[131, 115, 2, b'o', b'k']), Ok(Term::Atom(atom("ok"))));
    assert_eq!(decode(&[131, 118, 0, 2, 0xc3, 0xa9]), Ok(Term::Atom(atom("é"))));
    assert_eq!(decode(&[131, 119, 2, 0xc3, 0xa9]), Ok(Term::Atom(atom("é"))));
    assert_eq!(decode(&[131, 100, 0, 0]), Ok(Term::Atom(atom(""))));
}

#[test]
fn latin1_atom_that_is_utf8_is_read() {
    assert_eq!(decode(&[131, 100, 0, 2, 0xc3, 0xa9]), Ok(Term::Atom(atom("é"))));
}

#[test]
fn latin1_atom_that_is_not_utf8_is_refused_as_other() {
    for bytes in [vec![131, 100, 0, 1, 0xe9], vec![131, 115, 1, 0xe9]] {
        match decode(&bytes) {
            Err(DecodeError::Io(e)) => {
                assert_eq!(e.kind, IoErrorKind::Other);
                assert_eq!(e.message, "invalid utf-8 sequence");
            }
            other => panic!("{:?}", other),
        }
    }
}

#[test]
fn utf8_atom_that_is_not_utf8_is_invalid_data() {
    for bytes in [vec![131, 118, 0, 1, 0xe9], vec![131, 119, 1, 0xe9]] {
        match decode(&bytes) {
            Err(DecodeError::Io(e)) => {
                assert_eq!(e.kind, IoErrorKind::InvalidData);
                assert_eq!(e.message, "invalid utf-8 sequence");
            }
            other => panic!("{:?}", other),
        }
    }
    // an overlong form, a surrogate and a code point that is too large
    assert_eq!(io_kind(decode(&[131, 119, 2, 0xc0, 0x80])), IoErrorKind::InvalidData);
    assert_eq!(io_kind(decode(&[131, 119, 3, 0xed, 0xa0, 0x80])), IoErrorKind::InvalidData);
    assert_eq!(io_kind(decode(&[131, 119, 4, 0xf4, 0x90, 0x80, 0x80])), IoErrorKind::InvalidData);
}

#[test]
fn pid_port_and_references() {
    let node = [100, 0, 1, b'n'];
    let mut pid = vec![131, 103];
    pid.extend_from_slice(&node);
    pid.extend_from_slice(&[0, 0, 0, 1, 0, 0, 0, 2, 3]);
    assert_eq!(
        decode(&pid),
        Ok(Term::Pid(Pid { node: atom("n"), id: 1, serial: 2, creation: 3 }))
    );
    let mut port = vec![131, 102];
    port.extend_from_slice(&node);
    port.extend_from_slice(&[0, 0, 1, 0, 9]);
    assert_eq!(decode(&port), Ok(Term::Port(Port { node: atom("n"), id: 256, creation: 9 })));
    let mut reference = vec![131, 101];
    reference.extend_from_slice(&node);
    reference.extend_from_slice(&[0, 0, 0, 7, 1]);
    assert_eq!(
        decode(&reference),
        Ok(Term::Reference(Reference { node: atom("n"), id: vec![7], creation: 1 }))
    );
    let mut new_reference = vec![131, 114, 0, 2];
    new_reference.extend_from_slice(&node);
    new_reference.extend_from_slice(&[5, 0, 0, 0, 1, 0x01, 0x02, 0x03, 0x04]);
    assert_eq!(
        decode(&new_reference),
        Ok(Term::Reference(Reference { node: atom("n"), id: vec![1, 0x01020304], creation: 5 }))
    );
    let mut no_words = vec![131, 114, 0, 0];
    no_words.extend_from_slice(&node);
    no_words.push(5);
    assert_eq!(
        decode(&no_words),
        Ok(Term::Reference(Reference { node: atom("n"), id: vec![], creation: 5 }))
    );
}

#[test]
fn node_that_is_no_atom_is_an_unexpected_type() {
    for tag in [101u8, 102, 103] {
        assert_eq!(
            decode(&[131, tag, 97, 5, 0, 0, 0, 0, 0, 0, 0, 0, 0]),
            Err(DecodeError::UnexpectedType { value: fix(5), expected: "Atom".to_string() })
        );
    }
    assert_eq!(
        decode(&[131, 114, 0, 1, 106, 0, 0, 0, 0, 0]),
        Err(DecodeError::UnexpectedType {
            value: Term::List(List { elements: vec![] }),
            expected: "Atom".to_string()
        })
    );
}

#[test]
fn unexpected_type_comes_before_what_follows_the_field() {
    // the node is no atom, and the input ends behind it
    assert_eq!(
        decode(&[131, 103, 97, 5]),
        Err(DecodeError::UnexpectedType { value: fix(5), expected: "Atom".to_string() })
    );
}

#[test]
fn tuples_in_both_forms() {
    let expected = Term::Tuple(Tuple { elements: vec![fix(1), fix(2)] });
    assert_eq!(decode(&[131, 104, 2, 97, 1, 97, 2]), Ok(expected));
    let expected = Term::Tuple(Tuple { elements: vec![fix(1), fix(2)] });
    assert_eq!(decode(&[131, 105, 0, 0, 0, 2, 97, 1, 97, 2]), Ok(expected));
    assert_eq!(decode(&[131, 104, 0]), Ok(Term::Tuple(Tuple { elements: vec![] })));
}

#[test]
fn count_larger_than_the_input_is_unexpected_eof() {
    assert_eq!(io_kind(decode(&[131, 105, 0xff, 0xff, 0xff, 0xff, 97, 1])), IoErrorKind::UnexpectedEof);
    assert_eq!(io_kind(decode(&[131, 108, 0xff, 0xff, 0xff, 0xff])), IoErrorKind::UnexpectedEof);
    assert_eq!(io_kind(decode(&[131, 116, 0xff, 0xff, 0xff, 0xff])), IoErrorKind::UnexpectedEof);
    assert_eq!(io_kind(decode(&[131, 109, 0xff, 0xff, 0xff, 0xff, 1])), IoErrorKind::UnexpectedEof);
    assert_eq!(io_kind(decode(&[131, 107, 0xff, 0xff, 1])), IoErrorKind::UnexpectedEof);
    assert_eq!(io_kind(decode(&[131, 111, 0xff, 0xff, 0xff, 0xff, 0, 1])), IoErrorKind::UnexpectedEof);
}

#[test]
fn string_is_a_list_of_small_integers() {
    assert_eq!(
        decode(&[131, 107, 0, 2, 0, 255]),
        Ok(Term::List(List { elements: vec![fix(0), fix(255)] }))
    );
    assert_eq!(decode(&[131, 107, 0, 0]), Ok(Term::List(List { elements: vec![] })));
}

#[test]
fn list_with_nil_tail_is_proper() {
    assert_eq!(
        decode(&[131, 108, 0, 0, 0, 2, 97, 1, 100, 0, 1, b'a', 106]),
        Ok(Term::List(List { elements: vec![fix(1), Term::Atom(atom("a"))] }))
    );
}

#[test]
fn list_with_empty_string_tail_is_proper() {
    assert_eq!(
        decode(&[131, 108, 0, 0, 0, 1, 97, 1, 107, 0, 0]),
        Ok(Term::List(List { elements: vec![fix(1)] }))
    );
}

#[test]
fn list_with_other_tail_is_improper() {
    assert_eq!(
        decode(&[131, 108, 0, 0, 0, 1, 97, 1, 97, 2]),
        Ok(Term::ImproperList(ImproperList { elements: vec![fix(1)], last: Box::new(fix(2)) }))
    );
    assert_eq!(
        decode(&[131, 108, 0, 0, 0, 0, 97, 2]),
        Ok(Term::ImproperList(ImproperList { elements: vec![], last: Box::new(fix(2)) }))
    );
}

#[test]
fn binary() {
    assert_eq!(
        decode(&[131, 109, 0, 0, 0, 3, 1, 2, 3]),
        Ok(Term::Binary(Binary { bytes: vec![1, 2, 3] }))
    );
}

#[test]
fn bit_binary_moves_the_last_byte_down() {
    assert_eq!(
        decode(&[131, 77, 0, 0, 0, 2, 3, 0xff, 0b1010_0000]),
        Ok(Term::BitBinary(BitBinary { bytes: vec![0xff, 0b101], tail_bits_size: 3 }))
    );
    assert_eq!(
        decode(&[131, 77, 0, 0, 0, 1, 8, 0xab]),
        Ok(Term::BitBinary(BitBinary { bytes: vec![0xab], tail_bits_size: 8 }))
    );
    assert_eq!(
        decode(&[131, 77, 0, 0, 0, 1, 1, 0xff]),
        Ok(Term::BitBinary(BitBinary { bytes: vec![1], tail_bits_size: 1 }))
    );
    assert_eq!(
        decode(&[131, 77, 0, 0, 0, 0, 5]),
        Ok(Term::BitBinary(BitBinary { bytes: vec![], tail_bits_size: 5 }))
    );
}

#[test]
fn bit_binary_with_other_than_1_to_8_tail_bits_is_invalid_data() {
    for bits in [0u8, 9, 255] {
        match decode(&[131, 77, 0, 0, 0, 1, bits, 0xff]) {
            Err(DecodeError::Io(e)) => {
                assert_eq!(e.kind, IoErrorKind::InvalidData);
                assert_eq!(e.message, "A tail bits size must be 1 to 8");
            }
            other => panic!("{:?}", other),
        }
        assert_eq!(io_kind(decode(&[131, 77, 0, 0, 0, 0, bits])), IoErrorKind::InvalidData);
        // the bytes are read before the bits are looked at
        assert_eq!(io_kind(decode(&[131, 77, 0, 0, 0, 2, bits, 1])), IoErrorKind::UnexpectedEof);
    }
}

#[test]
fn big_integers_in_both_forms() {
    let expected = BigInteger { sign: Sign::Plus, magnitude: vec![0, 1] };
    assert_eq!(decode(&[131, 110, 2, 0, 0, 1]), Ok(Term::BigInteger(expected)));
    let expected = BigInteger { sign: Sign::Minus, magnitude: vec![0, 1] };
    assert_eq!(decode(&[131, 111, 0, 0, 0, 2, 1, 0, 1]), Ok(Term::BigInteger(expected)));
}

#[test]
fn big_integer_is_held_without_its_high_zero_bytes() {
    let expected = BigInteger { sign: Sign::Minus, magnitude: vec![5] };
    assert_eq!(decode(&[131, 110, 4, 1, 5, 0, 0, 0]), Ok(Term::BigInteger(expected)));
}

#[test]
fn big_integer_zero_has_no_sign() {
    let zero = BigInteger { sign: Sign::NoSign, magnitude: vec![0] };
    assert_eq!(decode(&[131, 110, 0, 0]), Ok(Term::BigInteger(zero)));
    let zero = BigInteger { sign: Sign::NoSign, magnitude: vec![0] };
    assert_eq!(decode(&[131, 110, 2, 1, 0, 0]), Ok(Term::BigInteger(zero)));
}

#[test]
fn sign_that_is_neither_0_nor_1_is_invalid_data() {
    match decode(&[131, 110, 1, 2, 5]) {
        Err(DecodeError::Io(e)) => {
            assert_eq!(e.kind, IoErrorKind::InvalidData);
            assert_eq!(e.message, "A sign value must be 0 or 1: value=2");
        }
        other => panic!("{:?}", other),
    }
    match decode(&[131, 111, 0, 0, 0, 1, 255, 5]) {
        Err(DecodeError::Io(e)) => {
            assert_eq!(e.kind, IoErrorKind::InvalidData);
            assert_eq!(e.message, "A sign value must be 0 or 1: value=255");
        }
        other => panic!("{:?}", other),
    }
    // the magnitude is read before the sign is looked at
    assert_eq!(io_kind(decode(&[131, 110, 2, 2, 5])), IoErrorKind::UnexpectedEof);
}

#[test]
fn exported_function() {
    assert_eq!(
        decode(&[131, 113, 100, 0, 1, b'm', 100, 0, 1, b'f', 97, 2]),
        Ok(Term::ExternalFun(ExternalFun { module: atom("m"), function: atom("f"), arity: 2 }))
    );
    assert_eq!(
        decode(&[131, 113, 100, 0, 1, b'm', 100, 0, 1, b'f', 98, 0, 0, 0, 255]),
        Ok(Term::ExternalFun(ExternalFun { module: atom("m"), function: atom("f"), arity: 255 }))
    );
}

#[test]
fn arity_outside_0_to_255_is_out_of_range() {
    assert_eq!(
        decode(&[131, 113, 100, 0, 1, b'm', 100, 0, 1, b'f', 98, 0, 0, 1, 0]),
        Err(DecodeError::OutOfRange { value: 256, range: 0..255 })
    );
    assert_eq!(
        decode(&[131, 113, 100, 0, 1, b'm', 100, 0, 1, b'f', 98, 0xff, 0xff, 0xff, 0xff]),
        Err(DecodeError::OutOfRange { value: -1, range: 0..255 })
    );
}

#[test]
fn arity_that_is_no_integer_is_an_unexpected_type() {
    assert_eq!(
        decode(&[131, 113, 100, 0, 1, b'm', 100, 0, 1, b'f', 106]),
        Err(DecodeError::UnexpectedType {
            value: Term::List(List { elements: vec![] }),
            expected: "FixInteger".to_string()
        })
    );
}

fn pid_bytes() -> Vec<u8> {
    vec![103, 100, 0, 1, b'n', 0, 0, 0, 1, 0, 0, 0, 2, 3]
}

fn pid() -> Pid {
    Pid { node: atom("n"), id: 1, serial: 2, creation: 3 }
}

#[test]
fn older_function_is_read() {
    let mut bytes = vec![131, 117, 0, 0, 0, 1];
    bytes.extend_from_slice(&pid_bytes());
    bytes.extend_from_slice(&[100, 0, 1, b'm', 97, 4, 98, 0xff, 0xff, 0xff, 0xfe, 97, 9]);
    assert_eq!(
        decode(&bytes),
        Ok(Term::InternalFun(InternalFun::Old {
            module: atom("m"),
            pid: pid(),
            free_vars: vec![fix(9)],
            index: 4,
            uniq: -2,
        }))
    );
}

#[test]
fn function_whose_process_is_none_is_an_unexpected_type() {
    assert_eq!(
        decode(&[131, 117, 0, 0, 0, 0, 100, 0, 1, b'm']),
        Err(DecodeError::UnexpectedType {
            value: Term::Atom(atom("m")),
            expected: "Pid".to_string()
        })
    );
}

#[test]
fn newer_function_is_read_whatever_size_it_states() {
    for size in [0u32, 7, u32::MAX] {
        let mut bytes = vec![131, 112];
        bytes.extend_from_slice(&size.to_be_bytes());
        bytes.push(2);
        bytes.extend_from_slice(&[7; 16]);
        bytes.extend_from_slice(&[0, 0, 0, 5, 0, 0, 0, 1]);
        bytes.extend_from_slice(&[100, 0, 1, b'm', 97, 4, 97, 6]);
        bytes.extend_from_slice(&pid_bytes());
        bytes.extend_from_slice(&[106]);
        assert_eq!(
            decode(&bytes),
            Ok(Term::InternalFun(InternalFun::New {
                module: atom("m"),
                arity: 2,
                pid: pid(),
                free_vars: vec![Term::List(List { elements: vec![] })],
                index: 5,
                uniq: [7; 16],
                old_index: 4,
                old_uniq: 6,
            }))
        );
    }
}

#[test]
fn decoded_terms_are_well_formed() {
    let inputs: Vec<Vec<u8>> = vec![
        vec![131, 97, 7],
        vec![131, 77, 0, 0, 0, 1, 1, 0xff],
        vec![131, 110, 4, 1, 5, 0, 0, 0],
        vec![131, 108, 0, 0, 0, 1, 97, 1, 97, 2],
        vec![131, 104, 2, 107, 0, 1, 65, 109, 0, 0, 0, 0],
    ];
    for bytes in inputs {
        let term = decode(&bytes).unwrap();
        assert!(term.is_wf());
        // so the encoder takes them
        Encoder::new(Vec::new()).encode(&term).unwrap();
    }
}

#[test]
fn decoded_improper_list_without_an_element_is_not_written_again() {
    let term = decode(&[131, 108, 0, 0, 0, 0, 97, 2]).unwrap();
    let list = ImproperList { elements: vec![], last: Box::new(fix(2)) };
    assert_eq!(term, Term::ImproperList(ImproperList { elements: vec![], last: Box::new(fix(2)) }));
    assert!(term.is_wf());
    assert_eq!(
        Encoder::new(Vec::new()).encode(&term),
        Err(EncodeError::EmptyImproperList(list))
    );
    // inside another term too
    let term = decode(&[131, 104, 1, 108, 0, 0, 0, 0, 97, 2]).unwrap();
    let list = ImproperList { elements: vec![], last: Box::new(fix(2)) };
    assert_eq!(
        Encoder::new(Vec::new()).encode(&term),
        Err(EncodeError::EmptyImproperList(list))
    );
}

#[test]
fn decoded_terms_hold_what_they_show() {
    // the last byte of a bit string holds only the bits that count
    match decode(&[131, 77, 0, 0, 0, 2, 3, 0xff, 0b1110_0000]).unwrap() {
        Term::BitBinary(x) => {
            assert_eq!(x.bytes, vec![0xff, 0b0000_0111]);
            assert_eq!(x.tail_bits_size, 3);
        }
        other => panic!("{:?}", other),
    }
    // the magnitude of a large integer ends in no zero byte
    match decode(&[131, 104, 1, 110, 3, 1, 9, 0, 0]).unwrap() {
        Term::Tuple(x) => match &x.elements[0] {
            Term::BigInteger(x) => {
                assert_eq!(x.sign, Sign::Minus);
                assert_eq!(x.magnitude, vec![9]);
            }
            other => panic!("{:?}", other),
        },
        other => panic!("{:?}", other),
    }
}
