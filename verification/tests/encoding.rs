use eetf::{
    Atom, BigInteger, Binary, BitBinary, Decoder, EncodeError, Encoder, ExternalFun, FixInteger,
    Float, ImproperList, InternalFun, List, Mapping, Pid, Port, Reference, Sign, Term, Tuple,
};

fn encode(term: &Term) -> Vec<u8> {
    assert!(term.is_wf());
    Encoder::new(Vec::new()).encode(term).unwrap()
}

fn atom(name: &str) -> Atom {
    Atom { name: name.to_string() }
}

fn fix(value: i32) -> Term {
    Term::FixInteger(FixInteger { value })
}

#[test]
fn encoder_writes_behind_what_it_was_given() {
    let bytes = Encoder::new(vec![1, 2, 3]).encode(&fix(0)).unwrap();
    assert_eq!(bytes, vec![1, 2, 3, 131, 97, 0]);
}

#[test]
fn integers_choose_the_shorter_form() {
    assert_eq!(encode(&fix(0)), vec![131, 97, 0]);
    assert_eq!(encode(&fix(255)), vec![131, 97, 255]);
    assert_eq!(encode(&fix(256)), vec![131, 98, 0, 0, 1, 0]);
    assert_eq!(encode(&fix(-1)), vec![131, 98, 0xff, 0xff, 0xff, 0xff]);
    assert_eq!(encode(&fix(i32::MIN)), vec![131, 98, 0x80, 0, 0, 0]);
    assert_eq!(encode(&fix(i32::MAX)), vec![131, 98, 0x7f, 0xff, 0xff, 0xff]);
    assert_eq!(encode(&fix(0x01020304)), vec![131, 98, 1, 2, 3, 4]);
}

#[test]
fn atoms_are_plain_where_ascii_and_utf8_where_not() {
    assert_eq!(encode(&Term::Atom(atom(""))), vec![131, 100, 0, 0]);
    assert_eq!(encode(&Term::Atom(atom("ok"))), vec![131, 100, 0, 2, b'o', b'k']);
    assert_eq!(encode(&Term::Atom(atom("é"))), vec![131, 118, 0, 2, 0xc3, 0xa9]);
    assert_eq!(encode(&Term::Atom(atom("\u{7f}"))), vec![131, 100, 0, 1, 0x7f]);
    assert_eq!(encode(&Term::Atom(atom("\u{80}"))), vec![131, 118, 0, 2, 0xc2, 0x80]);
}

#[test]
fn atom_of_65535_bytes_is_written_with_its_length() {
    let bytes = encode(&Term::Atom(atom(&"a".repeat(65535))));
    assert_eq!(&bytes[..4], &[131, 100, 0xff, 0xff]);
    assert_eq!(bytes.len(), 4 + 65535);
}

#[test]
fn atom_of_more_than_65535_bytes_is_too_long() {
    let long = atom(&"a".repeat(65536));
    let result = Encoder::new(Vec::new()).encode(&Term::Atom(atom(&"a".repeat(65536))));
    assert_eq!(result, Err(EncodeError::TooLongAtomName(long)));
    // two bytes for each of these characters
    let long = atom(&"é".repeat(32768));
    let result = Encoder::new(Vec::new()).encode(&Term::Atom(atom(&"é".repeat(32768))));
    assert_eq!(result, Err(EncodeError::TooLongAtomName(long)));
}

#[test]
fn too_long_atom_inside_a_term_is_reported() {
    let long = || atom(&"a".repeat(65536));
    let terms = vec![
        Term::Pid(Pid { node: long(), id: 0, serial: 0, creation: 0 }),
        Term::Port(Port { node: long(), id: 0, creation: 0 }),
        Term::Reference(Reference { node: long(), id: vec![1], creation: 0 }),
        Term::ExternalFun(ExternalFun { module: atom("m"), function: long(), arity: 0 }),
        Term::Tuple(Tuple { elements: vec![fix(1), Term::Atom(long())] }),
        Term::List(List { elements: vec![Term::Atom(long()), fix(1)] }),
        Term::ImproperList(ImproperList { elements: vec![fix(1)], last: Box::new(Term::Atom(long())) }),
        Term::Mapping(Mapping { entries: vec![(fix(1), Term::Atom(long()))] }),
    ];
    for term in terms {
        assert_eq!(
            Encoder::new(Vec::new()).encode(&term),
            Err(EncodeError::TooLongAtomName(long()))
        );
    }
}

#[test]
fn first_refusal_is_reported() {
    let first = atom(&"a".repeat(65536));
    let second = atom(&"b".repeat(65536));
    let term = Term::Tuple(Tuple {
        elements: vec![Term::Atom(atom(&"a".repeat(65536))), Term::Atom(second)],
    });
    assert_eq!(Encoder::new(Vec::new()).encode(&term), Err(EncodeError::TooLongAtomName(first)));
}

#[test]
fn reference_of_more_than_65535_words_is_too_large() {
    let reference = || Reference { node: atom("n"), id: vec![0; 65536], creation: 0 };
    assert_eq!(
        Encoder::new(Vec::new()).encode(&Term::Reference(reference())),
        Err(EncodeError::TooLargeReferenceId(reference()))
    );
    // the words are counted before the node is looked at
    let both = || Reference { node: atom(&"a".repeat(65536)), id: vec![0; 65536], creation: 0 };
    assert_eq!(
        Encoder::new(Vec::new()).encode(&Term::Reference(both())),
        Err(EncodeError::TooLargeReferenceId(both()))
    );
}

#[test]
fn reference_of_65535_words_is_written() {
    let term = Term::Reference(Reference { node: atom("n"), id: vec![1; 65535], creation: 2 });
    let bytes = encode(&term);
    assert_eq!(&bytes[..8], &[131, 114, 0xff, 0xff, 100, 0, 1, b'n']);
    assert_eq!(bytes.len(), 9 + 4 * 65535);
    assert_eq!(Decoder::new(&bytes).decode(), Ok(term));
}

#[test]
fn big_integers_choose_the_shorter_form() {
    let small = Term::BigInteger(BigInteger::from_bytes_le(Sign::Minus, &[1, 2]));
    assert_eq!(encode(&small), vec![131, 110, 2, 1, 1, 2]);
    let large = Term::BigInteger(BigInteger::from_bytes_le(Sign::Plus, &[9; 256]));
    let bytes = encode(&large);
    assert_eq!(&bytes[..7], &[131, 111, 0, 0, 1, 0, 0]);
    assert_eq!(bytes.len(), 7 + 256);
    let limit = Term::BigInteger(BigInteger::from_bytes_le(Sign::Plus, &[9; 255]));
    assert_eq!(&encode(&limit)[..4], &[131, 110, 255, 0]);
}

#[test]
fn big_integer_zero_is_one_zero_byte() {
    let zero = Term::BigInteger(BigInteger::from_bytes_le(Sign::Minus, &[0, 0]));
    assert_eq!(encode(&zero), vec![131, 110, 1, 0, 0]);
}

#[test]
fn big_integer_is_written_without_its_high_zero_bytes() {
    // held with zero bytes that the constructor would have taken away
    let padded = Term::BigInteger(BigInteger { sign: Sign::Plus, magnitude: vec![7, 0, 0] });
    assert_eq!(encode(&padded), vec![131, 110, 1, 0, 7]);
}

#[test]
fn float_is_written_in_eight_bytes() {
    let mut expected = vec![131, 70];
    expected.extend_from_slice(&(-2.5f64).to_be_bytes());
    assert_eq!(encode(&Term::Float(Float { bits: (-2.5f64).to_bits() })), expected);
}

#[test]
fn tuples_choose_the_shorter_form() {
    let small = Term::Tuple(Tuple { elements: (0..255).map(|_| fix(0)).collect() });
    assert_eq!(&encode(&small)[..3], &[131, 104, 255]);
    let large = Term::Tuple(Tuple { elements: (0..256).map(|_| fix(0)).collect() });
    assert_eq!(&encode(&large)[..6], &[131, 105, 0, 0, 1, 0]);
}

#[test]
fn list_of_bytes_is_a_string_up_to_65535_elements() {
    let string = Term::List(List { elements: (0..65535).map(|_| fix(65)).collect() });
    let bytes = encode(&string);
    assert_eq!(&bytes[..4], &[131, 107, 0xff, 0xff]);
    assert_eq!(bytes.len(), 4 + 65535);
    let longer = Term::List(List { elements: (0..65536).map(|_| fix(65)).collect() });
    let bytes = encode(&longer);
    assert_eq!(&bytes[..6], &[131, 108, 0, 1, 0, 0]);
    assert_eq!(bytes.len(), 6 + 2 * 65536 + 1);
    assert_eq!(*bytes.last().unwrap(), 106);
}

#[test]
fn list_with_a_negative_integer_is_no_string() {
    let list = Term::List(List { elements: vec![fix(1), fix(-1)] });
    assert_eq!(
        encode(&list),
        vec![131, 108, 0, 0, 0, 2, 97, 1, 98, 0xff, 0xff, 0xff, 0xff, 106]
    );
}

#[test]
fn list_with_another_term_is_no_string() {
    let list = Term::List(List { elements: vec![fix(1), Term::Atom(atom("a"))] });
    assert_eq!(encode(&list), vec![131, 108, 0, 0, 0, 2, 97, 1, 100, 0, 1, b'a', 106]);
}

#[test]
fn improper_list_ends_with_its_tail() {
    let list = Term::ImproperList(ImproperList { elements: vec![fix(1), fix(2)], last: Box::new(fix(3)) });
    assert_eq!(encode(&list), vec![131, 108, 0, 0, 0, 2, 97, 1, 97, 2, 97, 3]);
}

#[test]
fn improper_list_without_an_element_is_refused() {
    let empty = || ImproperList { elements: vec![], last: Box::new(fix(3)) };
    let long = || atom(&"a".repeat(65536));
    assert_eq!(
        Encoder::new(Vec::new()).encode(&Term::ImproperList(empty())),
        Err(EncodeError::EmptyImproperList(empty()))
    );
    assert_eq!(
        Encoder::new(vec![7]).try_encode(&Term::ImproperList(empty())),
        Some(Err(EncodeError::EmptyImproperList(empty())))
    );
    // the first defect in the order of writing is reported
    let inside = Term::Tuple(Tuple {
        elements: vec![fix(1), Term::ImproperList(empty()), Term::Atom(long())],
    });
    assert_eq!(
        Encoder::new(Vec::new()).encode(&inside),
        Err(EncodeError::EmptyImproperList(empty()))
    );
    let behind = Term::Tuple(Tuple {
        elements: vec![Term::Atom(long()), Term::ImproperList(empty())],
    });
    assert_eq!(
        Encoder::new(Vec::new()).encode(&behind),
        Err(EncodeError::TooLongAtomName(long()))
    );
    // an atom that is too long in the tail does not come first
    let tail = ImproperList { elements: vec![], last: Box::new(Term::Atom(long())) };
    assert_eq!(
        Encoder::new(Vec::new()).encode(&Term::ImproperList(tail)),
        Err(EncodeError::EmptyImproperList(ImproperList {
            elements: vec![],
            last: Box::new(Term::Atom(long()))
        }))
    );
    // with one element the list is written
    let one = Term::ImproperList(ImproperList { elements: vec![fix(1)], last: Box::new(fix(3)) });
    assert_eq!(encode(&one), vec![131, 108, 0, 0, 0, 1, 97, 1, 97, 3]);
}

#[test]
fn map_keeps_its_entries_in_their_order() {
    let map = Term::Mapping(Mapping {
        entries: vec![(fix(2), fix(20)), (fix(1), fix(10)), (fix(2), fix(30))],
    });
    let bytes = encode(&map);
    assert_eq!(
        bytes,
        vec![131, 116, 0, 0, 0, 3, 97, 2, 97, 20, 97, 1, 97, 10, 97, 2, 97, 30]
    );
    assert_eq!(Decoder::new(&bytes).decode(), Ok(map));
}

#[test]
fn binary_is_written_with_its_length() {
    let binary = Term::Binary(Binary { bytes: vec![1, 2, 3] });
    assert_eq!(encode(&binary), vec![131, 109, 0, 0, 0, 3, 1, 2, 3]);
}

#[test]
fn bit_binary_moves_the_last_byte_up() {
    let bits = Term::BitBinary(BitBinary { bytes: vec![0xff, 0b101], tail_bits_size: 3 });
    assert_eq!(encode(&bits), vec![131, 77, 0, 0, 0, 2, 3, 0xff, 0b1010_0000]);
    let aligned = Term::BitBinary(BitBinary { bytes: vec![0xab], tail_bits_size: 8 });
    assert_eq!(encode(&aligned), vec![131, 77, 0, 0, 0, 1, 8, 0xab]);
    let empty = Term::BitBinary(BitBinary { bytes: vec![], tail_bits_size: 7 });
    assert_eq!(encode(&empty), vec![131, 77, 0, 0, 0, 0, 7]);
}

#[test]
fn bit_binary_loses_the_bits_that_are_not_its_own() {
    let stray = Term::BitBinary(BitBinary { bytes: vec![0xff], tail_bits_size: 1 });
    let bytes = encode(&stray);
    assert_eq!(bytes, vec![131, 77, 0, 0, 0, 1, 1, 0x80]);
    let back = Decoder::new(&bytes).decode().unwrap();
    assert_eq!(back, Term::BitBinary(BitBinary { bytes: vec![1], tail_bits_size: 1 }));
    assert_eq!(encode(&back), bytes);
}

fn pid() -> Pid {
    Pid { node: atom("n"), id: 1, serial: 2, creation: 3 }
}

#[test]
fn pid_port_and_reference_are_written() {
    assert_eq!(
        encode(&Term::Pid(pid())),
        vec![131, 103, 100, 0, 1, b'n', 0, 0, 0, 1, 0, 0, 0, 2, 3]
    );
    assert_eq!(
        encode(&Term::Port(Port { node: atom("n"), id: 0x0a0b0c0d, creation: 9 })),
        vec![131, 102, 100, 0, 1, b'n', 0x0a, 0x0b, 0x0c, 0x0d, 9]
    );
    assert_eq!(
        encode(&Term::Reference(Reference { node: atom("n"), id: vec![1, 2], creation: 5 })),
        vec![131, 114, 0, 2, 100, 0, 1, b'n', 5, 0, 0, 0, 1, 0, 0, 0, 2]
    );
}

#[test]
fn exported_function_writes_its_arity_as_an_integer() {
    let fun = Term::ExternalFun(ExternalFun { module: atom("m"), function: atom("f"), arity: 255 });
    assert_eq!(encode(&fun), vec![131, 113, 100, 0, 1, b'm', 100, 0, 1, b'f', 97, 255]);
}

#[test]
fn older_function_is_written() {
    let fun = Term::InternalFun(InternalFun::Old {
        module: atom("m"),
        pid: pid(),
        free_vars: vec![fix(9)],
        index: 4,
        uniq: 300,
    });
    let mut expected = vec![131, 117, 0, 0, 0, 1];
    expected.extend_from_slice(&[103, 100, 0, 1, b'n', 0, 0, 0, 1, 0, 0, 0, 2, 3]);
    expected.extend_from_slice(&[100, 0, 1, b'm', 97, 4, 98, 0, 0, 1, 44, 97, 9]);
    assert_eq!(encode(&fun), expected);
}

#[test]
fn newer_function_states_its_size() {
    let fun = Term::InternalFun(InternalFun::New {
        module: atom("m"),
        arity: 2,
        pid: pid(),
        free_vars: vec![fix(9)],
        index: 5,
        uniq: [7; 16],
        old_index: 4,
        old_uniq: 6,
    });
    let mut body = vec![2];
    body.extend_from_slice(&[7; 16]);
    body.extend_from_slice(&[0, 0, 0, 5, 0, 0, 0, 1]);
    body.extend_from_slice(&[100, 0, 1, b'm', 97, 4, 97, 6]);
    body.extend_from_slice(&[103, 100, 0, 1, b'n', 0, 0, 0, 1, 0, 0, 0, 2, 3]);
    body.extend_from_slice(&[97, 9]);
    let mut expected = vec![131, 112];
    expected.extend_from_slice(&(4 + body.len() as u32).to_be_bytes());
    expected.extend_from_slice(&body);
    assert_eq!(encode(&fun), expected);
}

#[test]
fn terms_that_are_not_well_formed_are_told_apart() {
    let not_well_formed = vec![
        Term::Float(Float { bits: f64::NAN.to_bits() }),
        Term::Float(Float { bits: f64::INFINITY.to_bits() }),
        Term::BitBinary(BitBinary { bytes: vec![1], tail_bits_size: 0 }),
        Term::BitBinary(BitBinary { bytes: vec![], tail_bits_size: 9 }),
        Term::ImproperList(ImproperList {
            elements: vec![fix(1)],
            last: Box::new(Term::List(List { elements: vec![] })),
        }),
        Term::Tuple(Tuple { elements: vec![fix(1), Term::Float(Float { bits: f64::NAN.to_bits() })] }),
        Term::Mapping(Mapping {
            entries: vec![(fix(1), Term::BitBinary(BitBinary { bytes: vec![], tail_bits_size: 0 }))],
        }),
    ];
    for term in not_well_formed {
        assert!(!term.is_wf(), "{:?}", term);
    }
    let well_formed = vec![
        Term::Float(Float { bits: f64::MAX.to_bits() }),
        Term::Float(Float { bits: f64::MIN_POSITIVE.to_bits() }),
        Term::BitBinary(BitBinary { bytes: vec![0xff], tail_bits_size: 1 }),
        Term::BigInteger(BigInteger { sign: Sign::Plus, magnitude: vec![0, 0] }),
        Term::ImproperList(ImproperList { elements: vec![], last: Box::new(fix(1)) }),
        Term::Reference(Reference { node: atom("n"), id: vec![], creation: 0 }),
    ];
    for term in well_formed {
        assert!(term.is_wf(), "{:?}", term);
    }
}

#[test]
fn float_is_made_from_bits_that_stand_for_a_number() {
    assert_eq!(Float::from_bits(1.5f64.to_bits()), Ok(Float { bits: 1.5f64.to_bits() }));
    assert_eq!(Float::from_bits(0), Ok(Float { bits: 0 }));
    assert_eq!(Float::from_bits(f64::NAN.to_bits()), Err(eetf::DecodeError::NonFiniteFloat));
    assert_eq!(Float::from_bits(f64::INFINITY.to_bits()), Err(eetf::DecodeError::NonFiniteFloat));
    assert_eq!(Float::from_bits(f64::NEG_INFINITY.to_bits()), Err(eetf::DecodeError::NonFiniteFloat));
    assert_eq!(Float::from_bits(0x7ff0_0000_0000_0001), Err(eetf::DecodeError::NonFiniteFloat));
    assert!(Float { bits: f64::MAX.to_bits() }.is_finite());
    assert!(!Float { bits: f64::NAN.to_bits() }.is_finite());
}

#[test]
fn term_that_is_not_well_formed_is_not_written() {
    let bad = Term::BitBinary(BitBinary { bytes: vec![1], tail_bits_size: 0 });
    assert_eq!(Encoder::new(Vec::new()).try_encode(&bad), None);
    let nan = Term::Tuple(Tuple { elements: vec![Term::Float(Float { bits: f64::NAN.to_bits() })] });
    assert_eq!(Encoder::new(Vec::new()).try_encode(&nan), None);
    assert_eq!(Encoder::new(vec![9]).try_encode(&fix(1)), Some(Ok(vec![9, 131, 97, 1])));
    let long = Term::Atom(atom(&"a".repeat(65536)));
    assert_eq!(
        Encoder::new(Vec::new()).try_encode(&long),
        Some(Err(EncodeError::TooLongAtomName(atom(&"a".repeat(65536)))))
    );
}
