use eetf::{
    byte_to_sign, invalid_data_error, latin1_bytes_to_string, other_error, sign_to_byte,
    term_into_atom, term_into_fix_integer, term_into_pid, term_into_ranged_integer, Atom,
    BigInteger, BitBinary, DecodeError, FixInteger, IoError, IoErrorKind, List, Pid, Sign, Term,
};

fn atom(name: &str) -> Atom {
    Atom { name: name.to_string() }
}

fn fix(value: i32) -> Term {
    Term::FixInteger(FixInteger { value })
}

#[test]
fn term_into_atom_takes_atoms_only() {
    assert_eq!(term_into_atom(Term::Atom(atom("a"))), Ok(atom("a")));
    assert_eq!(
        term_into_atom(fix(1)),
        Err(DecodeError::UnexpectedType { value: fix(1), expected: "Atom".to_string() })
    );
}

#[test]
fn term_into_pid_takes_pids_only() {
    let pid = || Pid { node: atom("n"), id: 1, serial: 2, creation: 3 };
    assert_eq!(term_into_pid(Term::Pid(pid())), Ok(pid()));
    assert_eq!(
        term_into_pid(Term::Atom(atom("a"))),
        Err(DecodeError::UnexpectedType { value: Term::Atom(atom("a")), expected: "Pid".to_string() })
    );
}

#[test]
fn term_into_fix_integer_takes_small_integers_only() {
    assert_eq!(term_into_fix_integer(fix(-3)), Ok(FixInteger { value: -3 }));
    assert_eq!(
        term_into_fix_integer(Term::Atom(atom("a"))),
        Err(DecodeError::UnexpectedType {
            value: Term::Atom(atom("a")),
            expected: "FixInteger".to_string()
        })
    );
}

#[test]
fn term_into_ranged_integer_takes_both_ends_of_the_range() {
    assert_eq!(term_into_ranged_integer(fix(0), 0..255), Ok(0));
    assert_eq!(term_into_ranged_integer(fix(255), 0..255), Ok(255));
    assert_eq!(
        term_into_ranged_integer(fix(256), 0..255),
        Err(DecodeError::OutOfRange { value: 256, range: 0..255 })
    );
    assert_eq!(
        term_into_ranged_integer(fix(-1), 0..255),
        Err(DecodeError::OutOfRange { value: -1, range: 0..255 })
    );
    assert_eq!(term_into_ranged_integer(fix(5), 5..5), Ok(5));
    assert_eq!(
        term_into_ranged_integer(Term::List(List { elements: vec![] }), 0..255),
        Err(DecodeError::UnexpectedType {
            value: Term::List(List { elements: vec![] }),
            expected: "FixInteger".to_string()
        })
    );
}

#[test]
fn errors_are_made_with_their_kind_and_message() {
    assert_eq!(
        invalid_data_error::<u8>("bad".to_string()),
        Err(IoError { kind: IoErrorKind::InvalidData, message: "bad".to_string() })
    );
    assert_eq!(
        other_error::<u8>("worse".to_string()),
        Err(IoError { kind: IoErrorKind::Other, message: "worse".to_string() })
    );
}

#[test]
fn latin1_bytes_are_read_where_they_are_utf8() {
    assert_eq!(latin1_bytes_to_string(b"abc"), Ok("abc".to_string()));
    assert_eq!(latin1_bytes_to_string(&[]), Ok(String::new()));
    assert_eq!(latin1_bytes_to_string(&[0xc3, 0xa9]), Ok("é".to_string()));
    assert_eq!(
        latin1_bytes_to_string(&[0xe9]),
        Err(IoError { kind: IoErrorKind::Other, message: "invalid utf-8 sequence".to_string() })
    );
}

#[test]
fn signs_and_their_bytes() {
    assert_eq!(byte_to_sign(0), Ok(Sign::Plus));
    assert_eq!(byte_to_sign(1), Ok(Sign::Minus));
    assert_eq!(
        byte_to_sign(2),
        Err(IoError {
            kind: IoErrorKind::InvalidData,
            message: "A sign value must be 0 or 1: value=2".to_string()
        })
    );
    for (byte, message) in [
        (9u8, "A sign value must be 0 or 1: value=9"),
        (10, "A sign value must be 0 or 1: value=10"),
        (99, "A sign value must be 0 or 1: value=99"),
        (100, "A sign value must be 0 or 1: value=100"),
        (107, "A sign value must be 0 or 1: value=107"),
        (200, "A sign value must be 0 or 1: value=200"),
        (255, "A sign value must be 0 or 1: value=255"),
    ] {
        match byte_to_sign(byte) {
            Err(e) => {
                assert_eq!(e.kind, IoErrorKind::InvalidData);
                assert_eq!(e.message, message);
            }
            other => panic!("{:?}", other),
        }
    }
    for byte in 2..=255u8 {
        let message = format!("A sign value must be 0 or 1: value={}", byte);
        assert_eq!(byte_to_sign(byte), Err(IoError { kind: IoErrorKind::InvalidData, message }));
    }
    assert_eq!(sign_to_byte(Sign::Minus), 1);
    assert_eq!(sign_to_byte(Sign::Plus), 0);
    assert_eq!(sign_to_byte(Sign::NoSign), 0);
}

#[test]
fn big_integer_is_made_in_its_one_form() {
    assert_eq!(
        BigInteger::from_bytes_le(Sign::Plus, &[1, 2, 0, 0]),
        BigInteger { sign: Sign::Plus, magnitude: vec![1, 2] }
    );
    assert_eq!(
        BigInteger::from_bytes_le(Sign::Minus, &[0, 0, 3]),
        BigInteger { sign: Sign::Minus, magnitude: vec![0, 0, 3] }
    );
    assert_eq!(
        BigInteger::from_bytes_le(Sign::Minus, &[0, 0]),
        BigInteger { sign: Sign::NoSign, magnitude: vec![0] }
    );
    assert_eq!(
        BigInteger::from_bytes_le(Sign::Plus, &[]),
        BigInteger { sign: Sign::NoSign, magnitude: vec![0] }
    );
    assert_eq!(
        BigInteger::from_bytes_le(Sign::NoSign, &[1, 2, 3]),
        BigInteger { sign: Sign::NoSign, magnitude: vec![0] }
    );
}

#[test]
fn nil_is_the_empty_list() {
    assert_eq!(List::nil(), List { elements: vec![] });
    assert!(List::nil().is_nil());
    assert!(!List { elements: vec![fix(1)] }.is_nil());
}

#[test]
fn bit_binary_is_well_formed_with_1_to_8_tail_bits() {
    for bits in 1..=8 {
        assert!(BitBinary { bytes: vec![1, 2], tail_bits_size: bits }.is_wf());
    }
    assert!(!BitBinary { bytes: vec![1, 2], tail_bits_size: 0 }.is_wf());
    assert!(!BitBinary { bytes: vec![1, 2], tail_bits_size: 9 }.is_wf());
}

#[test]
fn clones_are_equal() {
    let a = atom("abc");
    assert_eq!(a.clone(), a);
    let b = BigInteger { sign: Sign::Minus, magnitude: vec![1, 2, 3] };
    assert_eq!(b.clone(), b);
    let r = eetf::Reference { node: atom("n"), id: vec![1, 2], creation: 9 };
    assert_eq!(r.clone(), r);
}

#[test]
fn big_integer_is_made_from_an_integer_of_64_bits() {
    assert_eq!(BigInteger::from_i64(0), BigInteger { sign: Sign::NoSign, magnitude: vec![0] });
    assert_eq!(BigInteger::from_i64(1), BigInteger { sign: Sign::Plus, magnitude: vec![1] });
    assert_eq!(BigInteger::from_i64(-1), BigInteger { sign: Sign::Minus, magnitude: vec![1] });
    assert_eq!(BigInteger::from_i64(1000), BigInteger { sign: Sign::Plus, magnitude: vec![0xe8, 3] });
    assert_eq!(
        BigInteger::from_i64(i64::MAX),
        BigInteger { sign: Sign::Plus, magnitude: vec![0xff, 0xff, 0xff, 0xff, 0xff, 0xff, 0xff, 0x7f] }
    );
    assert_eq!(
        BigInteger::from_i64(i64::MIN),
        BigInteger { sign: Sign::Minus, magnitude: vec![0, 0, 0, 0, 0, 0, 0, 0x80] }
    );
    assert_eq!(
        BigInteger::from_i64(-0x0102030405),
        BigInteger { sign: Sign::Minus, magnitude: vec![5, 4, 3, 2, 1] }
    );
}

#[test]
fn terms_are_copied_whole() {
    let term = Term::Tuple(eetf::Tuple {
        elements: vec![
            Term::Atom(atom("a")),
            Term::List(List { elements: vec![fix(1), fix(300)] }),
            Term::Mapping(eetf::Mapping { entries: vec![(fix(1), Term::Atom(atom("v")))] }),
            Term::ImproperList(eetf::ImproperList { elements: vec![fix(1)], last: Box::new(fix(2)) }),
            Term::InternalFun(eetf::InternalFun::Old {
                module: atom("m"),
                pid: Pid { node: atom("n"), id: 1, serial: 2, creation: 3 },
                free_vars: vec![fix(7)],
                index: 1,
                uniq: 2,
            }),
            Term::BitBinary(BitBinary { bytes: vec![1, 2], tail_bits_size: 3 }),
        ],
    });
    assert_eq!(term.clone(), term);
}

#[test]
fn decimal_of_a_float_in_the_text_form_is_its_text_without_the_zero_bytes() {
    let mut text = b"1.5e+00".to_vec();
    text.resize(31, 0);
    assert_eq!(eetf::float_decimal(&text), Some("1.5e+00"));
    assert_eq!(eetf::float_decimal(b"1.5"), Some("1.5"));
    assert_eq!(eetf::float_decimal(&[0; 31]), Some(""));
    assert_eq!(eetf::float_decimal(&[]), Some(""));
    assert_eq!(eetf::float_decimal(&[b'1', 0, b'2', 0, 0]), Some("1\02"));
    assert_eq!(eetf::float_decimal(&[0xff, 0, 0]), None);
}

#[test]
fn bit_binary_is_made_with_1_to_8_tail_bits() {
    assert_eq!(
        BitBinary::new(vec![1, 2], 3),
        Some(BitBinary { bytes: vec![1, 2], tail_bits_size: 3 })
    );
    assert_eq!(BitBinary::new(vec![], 8), Some(BitBinary { bytes: vec![], tail_bits_size: 8 }));
    assert_eq!(BitBinary::new(vec![1, 2], 0), None);
    assert_eq!(BitBinary::new(vec![1, 2], 9), None);
}

#[test]
fn improper_list_is_made_with_an_element_and_a_tail_that_is_no_empty_list() {
    assert_eq!(
        eetf::ImproperList::new(vec![fix(1)], fix(2)),
        Some(eetf::ImproperList { elements: vec![fix(1)], last: Box::new(fix(2)) })
    );
    assert_eq!(eetf::ImproperList::new(vec![], fix(2)), None);
    assert_eq!(eetf::ImproperList::new(vec![fix(1)], Term::List(List::nil())), None);
    assert_eq!(
        eetf::ImproperList::new(
            vec![Term::BitBinary(BitBinary { bytes: vec![], tail_bits_size: 0 })],
            fix(2)
        ),
        None
    );
    // a tail that is a list with elements makes a list that is improper in name only
    assert!(eetf::ImproperList::new(vec![fix(1)], Term::List(List { elements: vec![fix(2)] }))
        .is_some());
}

#[test]
fn io_errors_become_errors_of_the_codec() {
    let error = || IoError { kind: IoErrorKind::InvalidData, message: "bad".to_string() };
    assert_eq!(DecodeError::from(error()), DecodeError::Io(error()));
    assert_eq!(eetf::EncodeError::from(error()), eetf::EncodeError::Io(error()));
}
