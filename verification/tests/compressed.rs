use eetf::{Atom, DecodeError, Decoder, Encoder, FixInteger, IoErrorKind, List, Term, Tuple};
use std::io::Write;

fn deflate(bytes: &[u8]) -> Vec<u8> {
    let mut encoder = libflate::zlib::Encoder::new(Vec::new()).unwrap();
    encoder.write_all(bytes).unwrap();
    encoder.finish().into_result().unwrap()
}

fn compressed(encoding: &[u8]) -> Vec<u8> {
    let body = &encoding[1..];
    let mut bytes = vec![131, 80];
    bytes.extend_from_slice(&(body.len() as u32).to_be_bytes());
    bytes.extend_from_slice(&deflate(body));
    bytes
}

fn sample() -> Term {
    Term::Tuple(Tuple {
        elements: vec![
            Term::Atom(Atom { name: "compressed".to_string() }),
            Term::List(List {
                elements: (0..1000).map(|i| Term::FixInteger(FixInteger { value: i })).collect(),
            }),
        ],
    })
}

#[test]
fn compressed_term_is_the_term() {
    let encoding = Encoder::new(Vec::new()).encode(&sample()).unwrap();
    let bytes = compressed(&encoding);
    assert!(bytes.len() < encoding.len());
    assert_eq!(Decoder::new(&bytes).decode(), Ok(sample()));
}

#[test]
fn stated_size_of_a_compressed_term_is_not_looked_at() {
    let encoding = Encoder::new(Vec::new()).encode(&sample()).unwrap();
    let mut bytes = compressed(&encoding);
    bytes[2..6].copy_from_slice(&[0, 0, 0, 0]);
    assert_eq!(Decoder::new(&bytes).decode(), Ok(sample()));
}

#[test]
fn compressed_term_holds_no_version_byte() {
    let encoding = Encoder::new(Vec::new()).encode(&sample()).unwrap();
    let mut bytes = vec![131, 80, 0, 0, 0, 0];
    bytes.extend_from_slice(&deflate(&encoding));
    assert_eq!(Decoder::new(&bytes).decode(), Err(DecodeError::UnknownTag { tag: 131 }));
}

#[test]
fn stream_that_is_not_zlib_fails_as_the_inflater_says() {
    match Decoder::new(&[131, 80, 0, 0, 0, 1, 1, 2, 3, 4, 5, 6]).decode() {
        Err(DecodeError::Io(e)) => {
            assert_eq!(e.kind, IoErrorKind::InvalidData);
            assert!(!e.message.is_empty());
        }
        other => panic!("{:?}", other),
    }
}

#[test]
fn truncated_stream_fails_as_the_inflater_says() {
    let encoding = Encoder::new(Vec::new()).encode(&sample()).unwrap();
    let bytes = compressed(&encoding);
    match Decoder::new(&bytes[..bytes.len() - 5]).decode() {
        Err(DecodeError::Io(e)) => assert_eq!(e.kind, IoErrorKind::UnexpectedEof),
        other => panic!("{:?}", other),
    }
}

#[test]
fn stream_with_a_wrong_checksum_fails_as_the_inflater_says() {
    let encoding = Encoder::new(Vec::new()).encode(&sample()).unwrap();
    let mut bytes = compressed(&encoding);
    let last = bytes.len() - 1;
    bytes[last] ^= 0xff;
    match Decoder::new(&bytes).decode() {
        Err(DecodeError::Io(e)) => {
            assert_eq!(e.kind, IoErrorKind::InvalidData);
            assert!(e.message.contains("Adler32"), "{}", e.message);
        }
        other => panic!("{:?}", other),
    }
}

#[test]
fn compressed_form_needs_its_four_bytes_of_size() {
    match Decoder::new(&[131, 80, 0, 0]).decode() {
        Err(DecodeError::Io(e)) => assert_eq!(e.kind, IoErrorKind::UnexpectedEof),
        other => panic!("{:?}", other),
    }
}

#[test]
fn empty_stream_is_unexpected_eof() {
    let mut bytes = vec![131, 80, 0, 0, 0, 0];
    bytes.extend_from_slice(&deflate(&[]));
    match Decoder::new(&bytes).decode() {
        Err(DecodeError::Io(e)) => assert_eq!(e.kind, IoErrorKind::UnexpectedEof),
        other => panic!("{:?}", other),
    }
}

#[test]
fn term_without_a_version_byte_is_read_as_inside_a_compressed_term() {
    assert_eq!(
        Decoder::new(&[97, 5, 1, 2]).decode_body(),
        Ok(Term::FixInteger(FixInteger { value: 5 }))
    );
    assert_eq!(
        Decoder::new(&[104, 1, 100, 0, 1, b'a']).decode_body(),
        Ok(Term::Tuple(Tuple { elements: vec![Term::Atom(Atom { name: "a".to_string() })] }))
    );
    // the version byte is no tag, nor is the mark of the compressed form
    assert_eq!(
        Decoder::new(&[131, 97, 5]).decode_body(),
        Err(DecodeError::UnknownTag { tag: 131 })
    );
    assert_eq!(
        Decoder::new(&[80, 0, 0, 0, 0]).decode_body(),
        Err(DecodeError::UnknownTag { tag: 80 })
    );
    match Decoder::new(&[]).decode_body() {
        Err(DecodeError::Io(e)) => assert_eq!(e.kind, IoErrorKind::UnexpectedEof),
        other => panic!("{:?}", other),
    }
}
