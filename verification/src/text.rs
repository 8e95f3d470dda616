//! Text in UTF-8.

use crate::term::trimmed;
use vstd::prelude::*;
use vstd::slice::slice_subrange;
use vstd::string::{StringExecFns, StringSliceAdditionalSpecFns};
use vstd::utf8::valid_utf8;

verus! {

/// Calls `std::str::from_utf8`. Not proved here: that it gives the text
/// whose bytes are `bytes` where they are UTF-8, and nothing where they are
/// not.
#[verifier::external_body]
pub(crate) fn from_utf8(bytes: &[u8]) -> (r: Option<&str>)
    ensures
        match r {
            Some(text) => valid_utf8(bytes@) && text.spec_bytes() == bytes@,
            None => !valid_utf8(bytes@),
        },
{
    std::str::from_utf8(bytes).ok()
}

/// The decimal number that the bytes of a float in the text form hold: the
/// bytes without the zero bytes that fill them up at the end, where those
/// are UTF-8, and nothing where they are not. What number the text stands
/// for is left to the caller.
pub fn float_decimal(text: &[u8]) -> (r: Option<&str>)
    ensures
        match r {
            Some(decimal) => valid_utf8(trimmed(text@)) && decimal.spec_bytes() == trimmed(text@),
            None => !valid_utf8(trimmed(text@)),
        },
{
    let mut end: usize = text.len();
    assert(text@.subrange(0, end as int) =~= text@);
    while end > 0 && text[end - 1] == 0
        invariant
            end <= text@.len(),
            trimmed(text@) == trimmed(text@.subrange(0, end as int)),
        decreases end,
    {
        assert(text@.subrange(0, end as int).drop_last() =~= text@.subrange(0, end - 1));
        end -= 1;
    }
    from_utf8(slice_subrange(text, 0, end))
}

/// The digit that stands for a number below ten.
pub open spec fn digit(d: nat) -> Seq<char> {
    if d == 0 {
        "0"@
    } else if d == 1 {
        "1"@
    } else if d == 2 {
        "2"@
    } else if d == 3 {
        "3"@
    } else if d == 4 {
        "4"@
    } else if d == 5 {
        "5"@
    } else if d == 6 {
        "6"@
    } else if d == 7 {
        "7"@
    } else if d == 8 {
        "8"@
    } else {
        "9"@
    }
}

/// A number written in decimal digits, with no zero before it.
pub open spec fn digits(n: nat) -> Seq<char>
    decreases n,
{
    if n < 10 {
        digit(n)
    } else {
        digits(n / 10) + digit(n % 10)
    }
}

fn digit_text(d: u8) -> (r: &'static str)
    requires
        d < 10,
    ensures
        r@ == digit(d as nat),
{
    if d == 0 {
        "0"
    } else if d == 1 {
        "1"
    } else if d == 2 {
        "2"
    } else if d == 3 {
        "3"
    } else if d == 4 {
        "4"
    } else if d == 5 {
        "5"
    } else if d == 6 {
        "6"
    } else if d == 7 {
        "7"
    } else if d == 8 {
        "8"
    } else {
        "9"
    }
}

/// Writes a byte in decimal digits behind `text`.
pub(crate) fn append_digits(text: &mut String, b: u8)
    ensures
        final(text)@ == old(text)@ + digits(b as nat),
{
    let ghost n = b as nat;
    if b >= 100 {
        text.append(digit_text(b / 100));
    }
    if b >= 10 {
        text.append(digit_text((b / 10) % 10));
    }
    text.append(digit_text(b % 10));
    proof {
        if n >= 100 {
            assert(digits(n / 10) == digits(n / 100) + digit((n / 10) % 10)) by {
                assert((n / 10) / 10 == n / 100);
                assert(n / 100 < 10);
            }
            assert(text@ =~= old(text)@ + digits(n));
        } else if n >= 10 {
            assert(digits(n / 10) == digit(n / 10));
            assert(text@ =~= old(text)@ + digits(n));
        } else {
            assert(text@ =~= old(text)@ + digits(n));
        }
    }
}

} // verus!
