//! Integers of any size, in the one form in which the `num` crate holds them.

use crate::error::{invalid_data_error, IoError, IoErrorKind, IoErrorView};
use crate::grammar::sign_message;
use crate::term::{canonical, trimmed, BigInteger, BigIntegerView, Sign};
use crate::text::append_digits;
use crate::wire::sign_byte;
use vstd::prelude::*;

verus! {

/// Calls `num::bigint::BigInt::from_bytes_le`, and `to_bytes_le` on the
/// integer that it made: the sign and the little-endian magnitude that the
/// crate holds for the integer with the given sign and magnitude. Not proved
/// here: that the magnitude comes back without its high zero bytes; that
/// zero comes back without a sign and as the single byte 0, whatever sign
/// went in; and that so does any magnitude that went in without a sign.
#[verifier::external_body]
pub(crate) fn normalize(sign: Sign, bytes: &[u8]) -> (r: (Sign, Vec<u8>))
    ensures
        r.0 == canonical(sign, bytes@).sign,
        r.1@ == canonical(sign, bytes@).magnitude,
{
    let sign = match sign {
        Sign::Minus => num::bigint::Sign::Minus,
        Sign::NoSign => num::bigint::Sign::NoSign,
        Sign::Plus => num::bigint::Sign::Plus,
    };
    match num::bigint::BigInt::from_bytes_le(sign, bytes).to_bytes_le() {
        (num::bigint::Sign::Minus, magnitude) => (Sign::Minus, magnitude),
        (num::bigint::Sign::NoSign, magnitude) => (Sign::NoSign, magnitude),
        (num::bigint::Sign::Plus, magnitude) => (Sign::Plus, magnitude),
    }
}

/// The sign that a byte of the format stands for: 0 for an integer that is
/// not negative, 1 for a negative one. Any other byte is refused, with a
/// message that names it.
pub fn byte_to_sign(b: u8) -> (r: Result<Sign, IoError>)
    ensures
        b == 0 ==> r == Ok::<Sign, IoError>(Sign::Plus),
        b == 1 ==> r == Ok::<Sign, IoError>(Sign::Minus),
        b > 1 ==> (r matches Err(e) && e@ == (IoErrorView {
            kind: IoErrorKind::InvalidData,
            message: sign_message(b),
        })),
{
    if b == 0 {
        Ok(Sign::Plus)
    } else if b == 1 {
        Ok(Sign::Minus)
    } else {
        let mut message = "A sign value must be 0 or 1: value=".to_owned();
        append_digits(&mut message, b);
        invalid_data_error(message)
    }
}

/// The byte of the format that stands for a sign.
pub fn sign_to_byte(sign: Sign) -> (b: u8)
    ensures
        b == sign_byte(sign),
{
    if sign == Sign::Minus {
        1
    } else {
        0
    }
}

/// Trimming leaves nothing to trim.
pub proof fn lemma_trimmed(bytes: Seq<u8>)
    ensures
        trimmed(bytes).len() <= bytes.len(),
        trimmed(bytes).len() > 0 ==> trimmed(bytes).last() != 0,
        trimmed(trimmed(bytes)) == trimmed(bytes),
    decreases bytes.len(),
{
    if bytes.len() > 0 && bytes.last() == 0 {
        lemma_trimmed(bytes.drop_last());
    }
}

/// The canonical form of an integer is well formed: it is its own canonical
/// form.
pub proof fn lemma_canonical(sign: Sign, bytes: Seq<u8>)
    ensures
        canonical(sign, bytes).wf(),
        canonical(sign, bytes).magnitude.len() <= bytes.len() || canonical(
            sign,
            bytes,
        ).magnitude.len() == 1,
        canonical(sign, bytes).magnitude.len() > 0,
{
    lemma_trimmed(bytes);
    let c = canonical(sign, bytes);
    if sign == Sign::NoSign || trimmed(bytes).len() == 0 {
        assert(trimmed(seq![0u8]) =~= Seq::<u8>::empty()) by {
            assert(seq![0u8].drop_last() =~= Seq::<u8>::empty());
            reveal_with_fuel(trimmed, 2);
        }
    }
}

/// The number that the bytes stand for, least significant byte first.
pub open spec fn magnitude_value(bytes: Seq<u8>) -> nat
    decreases bytes.len(),
{
    if bytes.len() == 0 {
        0
    } else {
        bytes[0] as nat + 256 * magnitude_value(bytes.drop_first())
    }
}

/// The integer that a sign and a magnitude stand for; without a sign it is
/// zero.
pub open spec fn signed_value(sign: Sign, bytes: Seq<u8>) -> int {
    match sign {
        Sign::Minus => -(magnitude_value(bytes) as int),
        Sign::NoSign => 0,
        Sign::Plus => magnitude_value(bytes) as int,
    }
}

impl BigIntegerView {
    /// The integer that the view stands for.
    pub open spec fn value(self) -> int {
        signed_value(self.sign, self.magnitude)
    }
}

/// A zero byte at the high end adds nothing.
pub proof fn lemma_high_zero(bytes: Seq<u8>)
    ensures
        magnitude_value(bytes.push(0)) == magnitude_value(bytes),
    decreases bytes.len(),
{
    if bytes.len() == 0 {
        assert(bytes.push(0).drop_first() =~= Seq::<u8>::empty());
        reveal_with_fuel(magnitude_value, 2);
    } else {
        assert(bytes.push(0).drop_first() =~= bytes.drop_first().push(0));
        lemma_high_zero(bytes.drop_first());
    }
}

/// Trimming keeps the number.
pub proof fn lemma_trimmed_value(bytes: Seq<u8>)
    ensures
        magnitude_value(trimmed(bytes)) == magnitude_value(bytes),
    decreases bytes.len(),
{
    if bytes.len() > 0 && bytes.last() == 0 {
        lemma_trimmed_value(bytes.drop_last());
        lemma_high_zero(bytes.drop_last());
        assert(bytes.drop_last().push(0) =~= bytes);
    }
}

/// Bytes that stand for zero and end in no zero byte are no bytes at all.
pub proof fn lemma_zero_magnitude(bytes: Seq<u8>)
    requires
        magnitude_value(bytes) == 0,
        bytes.len() > 0 ==> bytes.last() != 0,
    ensures
        bytes.len() == 0,
    decreases bytes.len(),
{
    if bytes.len() > 0 {
        let rest = bytes.drop_first();
        assert(magnitude_value(rest) == 0 && bytes[0] == 0) by (nonlinear_arith)
            requires
                bytes[0] as nat + 256 * magnitude_value(rest) == 0,
        ;
        if rest.len() > 0 {
            assert(rest.last() == bytes.last());
            lemma_zero_magnitude(rest);
        }
    }
}

/// The canonical form of an integer stands for the integer: the one that the
/// sign and the magnitude stand for.
pub proof fn lemma_canonical_value(sign: Sign, bytes: Seq<u8>)
    ensures
        canonical(sign, bytes).value() == signed_value(sign, bytes),
{
    lemma_trimmed(bytes);
    lemma_trimmed_value(bytes);
    assert(magnitude_value(seq![0u8]) == 0) by {
        assert(seq![0u8].drop_first() =~= Seq::<u8>::empty());
        reveal_with_fuel(magnitude_value, 2);
    }
    if sign != Sign::NoSign && trimmed(bytes).len() == 0 {
        assert(magnitude_value(trimmed(bytes)) == 0);
    }
}

/// Two little-endian magnitudes without high zero bytes that stand for the
/// same number are the same.
pub proof fn lemma_magnitude_unique(a: Seq<u8>, b: Seq<u8>)
    requires
        magnitude_value(a) == magnitude_value(b),
        a.len() > 0 ==> a.last() != 0,
        b.len() > 0 ==> b.last() != 0,
    ensures
        a == b,
    decreases a.len(),
{
    if a.len() == 0 {
        lemma_zero_magnitude(b);
        assert(a =~= b);
    } else if b.len() == 0 {
        lemma_zero_magnitude(a);
    } else {
        let ra = a.drop_first();
        let rb = b.drop_first();
        assert(a[0] == b[0] && magnitude_value(ra) == magnitude_value(rb)) by (nonlinear_arith)
            requires
                a[0] as nat + 256 * magnitude_value(ra) == b[0] as nat + 256 * magnitude_value(rb),
                a[0] < 256,
                b[0] < 256,
        ;
        if ra.len() > 0 {
            assert(ra.last() == a.last());
        }
        if rb.len() > 0 {
            assert(rb.last() == b.last());
        }
        lemma_magnitude_unique(ra, rb);
        assert(a =~= seq![a[0]] + ra);
        assert(b =~= seq![b[0]] + rb);
    }
}

/// Integers in their canonical form that stand for the same integer are the
/// same: the view of an integer tells all of the integer and nothing else.
pub proof fn lemma_value_unique(x: BigIntegerView, y: BigIntegerView)
    requires
        x.wf(),
        y.wf(),
        x.value() == y.value(),
    ensures
        x == y,
{
    lemma_trimmed(x.magnitude);
    lemma_trimmed(y.magnitude);
    assert(magnitude_value(seq![0u8]) == 0) by {
        assert(seq![0u8].drop_first() =~= Seq::<u8>::empty());
        reveal_with_fuel(magnitude_value, 2);
    }
    if x.sign == Sign::NoSign && y.sign == Sign::NoSign {
    } else if x.sign == Sign::NoSign {
        lemma_zero_magnitude(y.magnitude);
    } else if y.sign == Sign::NoSign {
        lemma_zero_magnitude(x.magnitude);
    } else {
        if x.sign != y.sign {
            lemma_zero_magnitude(x.magnitude);
        }
        lemma_magnitude_unique(x.magnitude, y.magnitude);
    }
}

/// The byte of `m` at the place `i`, counted from the least significant.
pub open spec fn low_byte(m: u64, i: int) -> u8
    decreases i,
{
    if i <= 0 {
        (m % 256) as u8
    } else {
        low_byte(m / 256, i - 1)
    }
}

/// The number that the bytes of `m` from the place `from` on stand for.
proof fn lemma_low_bytes(m: u64, bytes: Seq<u8>, from: int)
    requires
        0 <= from <= 8,
        bytes.len() == 8 - from,
        m < vstd::arithmetic::power::pow(256, (8 - from) as nat),
        forall|i: int| 0 <= i < bytes.len() ==> bytes[i] == low_byte(m, i),
    ensures
        magnitude_value(bytes) == m,
    decreases bytes.len(),
{
    if bytes.len() == 0 {
        assert(vstd::arithmetic::power::pow(256, 0) == 1) by {
            reveal_with_fuel(vstd::arithmetic::power::pow, 1);
        }
    } else {
        let rest = bytes.drop_first();
        assert forall|i: int| 0 <= i < rest.len() implies rest[i] == low_byte(m / 256, i) by {
            assert(rest[i] == bytes[i + 1]);
        }
        assert(m / 256 < vstd::arithmetic::power::pow(256, (8 - from - 1) as nat)) by {
            vstd::arithmetic::power::lemma_pow_adds(256, 1, (8 - from - 1) as nat);
            vstd::arithmetic::power::lemma_pow1(256);
            let rest_bound = vstd::arithmetic::power::pow(256, (8 - from - 1) as nat);
            assert(m < 256 * rest_bound);
            assert(m / 256 < rest_bound) by (nonlinear_arith)
                requires
                    m < 256 * rest_bound,
            ;
        }
        lemma_low_bytes(m / 256, rest, from + 1);
    }
}

impl BigInteger {
    /// The integer with the given sign and little-endian magnitude; without
    /// a sign it is zero.
    pub fn from_bytes_le(sign: Sign, bytes: &[u8]) -> (r: BigInteger)
        ensures
            r@ == canonical(sign, bytes@),
            r.sign == r@.sign,
            r.magnitude@ == r@.magnitude,
            r@.wf(),
            r@.value() == signed_value(sign, bytes@),
    {
        let (held, magnitude) = normalize(sign, bytes);
        proof {
            lemma_canonical(sign, bytes@);
            lemma_canonical_value(sign, bytes@);
        }
        BigInteger { sign: held, magnitude }
    }

    /// The integer `value`.
    pub fn from_i64(value: i64) -> (r: BigInteger)
        ensures
            r@.value() == value,
            r@.wf(),
            r.sign == r@.sign,
            r.magnitude@ == r@.magnitude,
    {
        let sign = if value < 0 {
            Sign::Minus
        } else {
            Sign::Plus
        };
        let magnitude: u64 = if value < 0 {
            (-(value + 1)) as u64 + 1
        } else {
            value as u64
        };
        let mut bytes: Vec<u8> = Vec::new();
        let mut rest: u64 = magnitude;
        let mut i: usize = 0;
        while i < 8
            invariant
                i <= 8,
                bytes@.len() == i,
                forall|j: int| 0 <= j < i ==> bytes@[j] == low_byte(magnitude, j),
                forall|j: int|
                    0 <= j ==> low_byte(rest, j) == #[trigger] low_byte(magnitude, i + j),
            decreases 8 - i,
        {
            assert(low_byte(rest, 0) == low_byte(magnitude, i + 0));
            bytes.push((rest % 256) as u8);
            assert forall|j: int| 0 <= j implies low_byte(rest / 256, j) == #[trigger] low_byte(
                magnitude,
                i + 1 + j,
            ) by {
                assert(low_byte(rest, j + 1) == low_byte(magnitude, i + (j + 1)));
            }
            rest = rest / 256;
            i += 1;
        }
        proof {
            assert(vstd::arithmetic::power::pow(256, 8) == 0x1_0000_0000_0000_0000) by {
                reveal_with_fuel(vstd::arithmetic::power::pow, 9);
            }
            lemma_low_bytes(magnitude, bytes@, 0);
        }
        BigInteger::from_bytes_le(sign, bytes.as_slice())
    }
}

} // verus!
