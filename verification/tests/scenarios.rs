use eetf::{
    Atom, BigInteger, Binary, BitBinary, DecodeError, Decoder, Encoder, ExternalFun, FixInteger,
    Float, ImproperList, InternalFun, IoErrorKind, List, Mapping, Pid, Port, Reference, Sign,
    Term, Tuple,
};

fn encode(term: &Term) -> Vec<u8> {
    Encoder::new(Vec::new()).encode(term).unwrap()
}

fn decode(bytes: &[u8]) -> Term {
    Decoder::new(bytes).decode().unwrap()
}

fn atom(name: &str) -> Atom {
    Atom { name: name.to_string() }
}

fn fix(value: i32) -> Term {
    Term::FixInteger(FixInteger { value })
}

#[test]
fn fix_integer_zero_is_a_small_integer() {
    let term = fix(0);
    assert_eq!(encode(&term), vec![0x83, 0x61, 0x00]);
    assert_eq!(decode(&[0x83, 0x61, 0x00]), term);
}

#[test]
fn fix_integer_thousand_is_an_integer() {
    let term = fix(1000);
    assert_eq!(encode(&term), vec![0x83, 0x62, 0x00, 0x00, 0x03, 0xE8]);
    assert_eq!(decode(&[0x83, 0x62, 0x00, 0x00, 0x03, 0xE8]), term);
}

#[test]
fn ascii_atom() {
    let term = Term::Atom(atom("ok"));
    assert_eq!(encode(&term), vec![0x83, 0x64, 0x00, 0x02, 0x6F, 0x6B]);
    assert_eq!(decode(&[0x83, 0x64, 0x00, 0x02, 0x6F, 0x6B]), term);
}

#[test]
fn empty_list_is_nil() {
    let term = Term::List(List { elements: vec![] });
    assert_eq!(encode(&term), vec![0x83, 0x6A]);
    assert_eq!(decode(&[0x83, 0x6A]), term);
}

#[test]
fn list_of_bytes_is_a_string() {
    let term = Term::List(List { elements: vec![fix(1), fix(2), fix(3)] });
    assert_eq!(encode(&term), vec![0x83, 0x6B, 0x00, 0x03, 0x01, 0x02, 0x03]);
    assert_eq!(decode(&[0x83, 0x6B, 0x00, 0x03, 0x01, 0x02, 0x03]), term);
}

#[test]
fn small_tuple() {
    let term = Term::Tuple(Tuple { elements: vec![Term::Atom(atom("ok")), fix(42)] });
    let bytes = vec![0x83, 0x68, 0x02, 0x64, 0x00, 0x02, 0x6F, 0x6B, 0x61, 0x2A];
    assert_eq!(encode(&term), bytes);
    assert_eq!(decode(&bytes), term);
}

fn sample_pid() -> Pid {
    Pid { node: atom("nonode@nohost"), id: 49, serial: 2, creation: 1 }
}

fn samples() -> Vec<Term> {
    vec![
        Term::Atom(atom("")),
        Term::Atom(atom("héllo")),
        fix(-1),
        fix(255),
        fix(256),
        fix(i32::MIN),
        fix(i32::MAX),
        Term::BigInteger(BigInteger::from_bytes_le(Sign::Plus, &[0, 0, 0, 0, 1])),
        Term::BigInteger(BigInteger::from_bytes_le(Sign::Minus, &[1, 2, 3, 4, 5, 6, 7, 8, 9])),
        Term::BigInteger(BigInteger::from_bytes_le(Sign::Plus, &[])),
        Term::BigInteger(BigInteger::from_bytes_le(Sign::Plus, &[7u8; 300])),
        Term::Float(Float::from_bits(1.5f64.to_bits()).unwrap()),
        Term::Float(Float::from_bits((-0.0f64).to_bits()).unwrap()),
        Term::Pid(sample_pid()),
        Term::Port(Port { node: atom("nonode@nohost"), id: 366, creation: 0 }),
        Term::Reference(Reference { node: atom("foo"), id: vec![1, 2, 3], creation: 2 }),
        Term::ExternalFun(ExternalFun { module: atom("lists"), function: atom("map"), arity: 2 }),
        Term::InternalFun(InternalFun::Old {
            module: atom("m"),
            pid: sample_pid(),
            free_vars: vec![fix(1), Term::Atom(atom("x"))],
            index: 1,
            uniq: -7,
        }),
        Term::InternalFun(InternalFun::New {
            module: atom("m"),
            arity: 3,
            pid: sample_pid(),
            free_vars: vec![fix(1000), Term::Binary(Binary { bytes: vec![1, 2] })],
            index: 5,
            uniq: [9; 16],
            old_index: 4,
            old_uniq: 123456,
        }),
        Term::Binary(Binary { bytes: vec![] }),
        Term::Binary(Binary { bytes: vec![0, 255, 7] }),
        Term::BitBinary(BitBinary { bytes: vec![1, 2, 5], tail_bits_size: 3 }),
        Term::BitBinary(BitBinary { bytes: vec![0xff], tail_bits_size: 8 }),
        Term::List(List { elements: vec![fix(1), fix(256)] }),
        Term::List(List { elements: vec![Term::Atom(atom("a")), Term::List(List { elements: vec![] })] }),
        Term::ImproperList(ImproperList { elements: vec![fix(1), fix(2)], last: Box::new(fix(3)) }),
        Term::Tuple(Tuple { elements: vec![] }),
        Term::Tuple(Tuple { elements: (0..300).map(fix).collect() }),
        Term::Mapping(Mapping {
            entries: vec![(Term::Atom(atom("k")), fix(1)), (Term::Atom(atom("k")), fix(2))],
        }),
    ]
}

#[test]
fn round_trip_of_samples() {
    for term in samples() {
        let bytes = encode(&term);
        assert_eq!(bytes[0], 131);
        assert_eq!(decode(&bytes), term, "{:?}", bytes);
        assert_eq!(encode(&decode(&bytes)), bytes);
    }
}

#[test]
fn truncated_input_is_unexpected_eof() {
    for term in samples() {
        let bytes = encode(&term);
        for n in 0..bytes.len() {
            match Decoder::new(&bytes[..n]).decode() {
                Err(DecodeError::Io(e)) => assert_eq!(e.kind, IoErrorKind::UnexpectedEof),
                other => panic!("{:?} {:?}", other, &bytes[..n]),
            }
        }
    }
}
