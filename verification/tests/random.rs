use eetf::{DecodeError, Decoder, EncodeError, Encoder, FloatText};

struct Random(u64);

impl Random {
    fn next(&mut self) -> u64 {
        self.0 = self.0.wrapping_mul(6364136223846793005).wrapping_add(1442695040888963407);
        self.0 >> 33
    }

    fn below(&mut self, n: u64) -> u64 {
        self.next() % n
    }
}

const TAGS: [u8; 26] = [
    70, 77, 97, 98, 99, 100, 101, 102, 103, 104, 105, 106, 107, 108, 109, 110, 111, 112, 113, 114,
    115, 116, 117, 118, 119, 82,
];

fn input(random: &mut Random) -> Vec<u8> {
    let len = random.below(48) as usize;
    let mut bytes = vec![131];
    for _ in 0..len {
        let byte = match random.below(4) {
            0 => TAGS[random.below(26) as usize],
            1 => random.below(4) as u8,
            2 => b'a' + random.below(4) as u8,
            _ => random.below(256) as u8,
        };
        bytes.push(byte);
    }
    bytes
}

fn decode(bytes: &[u8]) -> Result<eetf::Term, DecodeError> {
    let mut floats: Vec<FloatText> = Vec::new();
    loop {
        match Decoder::new(bytes).with_floats(floats.clone()).decode() {
            Err(DecodeError::UnconvertedFloat { text }) => {
                assert!(floats.iter().all(|f| f.text != text));
                assert_eq!(text.len(), 31);
                let bits = eetf::float_decimal(&text)
                    .and_then(|decimal| decimal.parse::<f32>().ok())
                    .map(|value| f64::from(value).to_bits());
                floats.push(FloatText { text, bits });
            }
            other => return other,
        }
    }
}

#[test]
fn what_is_decoded_is_well_formed_and_is_read_back_from_its_encoding() {
    let mut random = Random(0x5eed);
    let mut decoded = 0;
    let mut refused = 0;
    for _ in 0..50_000 {
        let bytes = input(&mut random);
        if let Ok(term) = decode(&bytes) {
            decoded += 1;
            assert!(term.is_wf(), "{:?}", bytes);
            let encoding = match Encoder::new(Vec::new()).encode(&term) {
                Ok(encoding) => encoding,
                Err(EncodeError::EmptyImproperList(list)) => {
                    assert!(list.elements.is_empty(), "{:?}", bytes);
                    refused += 1;
                    continue;
                }
                Err(e) => panic!("{:?}: {:?}", bytes, e),
            };
            assert_eq!(encoding[0], 131);
            let again = decode(&encoding).unwrap();
            assert_eq!(again, term, "{:?}", bytes);
            assert_eq!(Encoder::new(Vec::new()).encode(&again).unwrap(), encoding);
            assert_eq!(term.clone(), term);
        }
    }
    assert!(decoded > 2_500, "{}", decoded);
    assert!(refused < decoded / 2, "{} of {}", refused, decoded);
}

#[test]
fn version_is_refused_exactly_where_the_first_byte_is_not_131() {
    let mut random = Random(0xfeed);
    let mut refused = 0;
    for _ in 0..20_000 {
        let mut bytes = input(&mut random);
        if random.below(2) == 0 {
            bytes.remove(0);
        }
        let result = decode(&bytes);
        let other = !bytes.is_empty() && bytes[0] != 131;
        match result {
            Err(DecodeError::UnsupportedVersion { version }) => {
                assert!(other, "{:?}", bytes);
                assert_eq!(version, bytes[0]);
                refused += 1;
            }
            _ => assert!(!other, "{:?}", bytes),
        }
        // behind the version byte no failure is that of the version
        if let Err(DecodeError::UnsupportedVersion { .. }) = Decoder::new(&bytes).decode_body() {
            panic!("{:?}", bytes);
        }
    }
    assert!(refused > 5_000, "{}", refused);
}

#[test]
fn float_of_64_bits_keeps_its_bits_or_is_refused() {
    let mut random = Random(0xf10a7);
    let mut patterns: Vec<u64> = vec![
        0,
        0x8000_0000_0000_0000,
        1,
        0x7fef_ffff_ffff_ffff,
        0xffef_ffff_ffff_ffff,
        0x7ff0_0000_0000_0000,
        0xfff0_0000_0000_0000,
        0x7ff0_0000_0000_0001,
        0x7ff8_0000_0000_0000,
        0xffff_ffff_ffff_ffff,
    ];
    for _ in 0..2_000 {
        let high = random.next() << 33;
        patterns.push(high ^ (random.next() << 11) ^ random.next());
        patterns.push(0x7ff0_0000_0000_0000 | random.next());
    }
    for bits in patterns {
        let mut bytes = vec![131, 70];
        bytes.extend_from_slice(&bits.to_be_bytes());
        let result = Decoder::new(&bytes).decode();
        if f64::from_bits(bits).is_finite() {
            assert_eq!(result, Ok(eetf::Term::Float(eetf::Float { bits })), "{:#x}", bits);
        } else {
            assert_eq!(result, Err(DecodeError::NonFiniteFloat), "{:#x}", bits);
        }
        assert_eq!(Decoder::new(&bytes[1..]).decode_body(), Decoder::new(&bytes).decode());
    }
}

#[test]
fn float_in_text_form_is_read_once_its_conversion_is_made() {
    let mut bytes = vec![131, 108, 0, 0, 0, 2];
    for text in ["1.50000000000000000000e+00", "-2.25000000000000000000e+02"] {
        bytes.push(99);
        let mut padded = text.as_bytes().to_vec();
        padded.resize(31, 0);
        bytes.extend_from_slice(&padded);
    }
    bytes.push(106);
    let term = decode(&bytes).unwrap();
    let expected = eetf::Term::List(eetf::List {
        elements: vec![
            eetf::Term::Float(eetf::Float { bits: 1.5f64.to_bits() }),
            eetf::Term::Float(eetf::Float { bits: (-225.0f64).to_bits() }),
        ],
    });
    assert_eq!(term, expected);
}
