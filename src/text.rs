//! Decimal numbers and bijective base-26 row labels as characters.

use vstd::prelude::*;

verus! {

/// The ASCII digit of `d`, for `d < 10`.
pub open spec fn digit_char(d: nat) -> char {
    ((d + 48) as u8) as char
}

/// The lower-case letter `a` + `d`, for `d < 26`.
pub open spec fn letter_char(d: nat) -> char {
    ((d + 97) as u8) as char
}

/// Decimal notation of `n`, without leading zeros.
pub open spec fn decimal(n: nat) -> Seq<char>
    decreases n,
{
    if n < 10 {
        seq![digit_char(n)]
    } else {
        decimal(n / 10).push(digit_char(n % 10))
    }
}

/// Bijective base-26 numeral of `m >= 1`: `a` to `z` are the digits 1 to 26,
/// so 1 is `a`, 26 is `z`, 27 is `aa` and 28 is `ab`.
pub open spec fn label(m: nat) -> Seq<char>
    decreases m,
{
    if m <= 26 {
        seq![letter_char((m - 1) as nat)]
    } else {
        label(((m - 1) / 26) as nat).push(letter_char(((m - 1) % 26) as nat))
    }
}

/// Appends the decimal notation of `n`.
pub fn push_decimal(out: &mut Vec<char>, n: u64)
    ensures
        final(out)@ == old(out)@ + decimal(n as nat),
    decreases n,
{
    if n >= 10 {
        push_decimal(out, n / 10);
    }
    let d = (n % 10) as u8;
    out.push((d + 48) as char);
    assert(final(out)@ =~= old(out)@ + decimal(n as nat));
}

/// Appends the bijective base-26 numeral of `m`.
pub fn push_label(out: &mut Vec<char>, m: u64)
    requires
        m >= 1,
    ensures
        final(out)@ == old(out)@ + label(m as nat),
    decreases m,
{
    if m > 26 {
        push_label(out, (m - 1) / 26);
    }
    let d = ((m - 1) % 26) as u8;
    out.push((d + 97) as char);
    assert(final(out)@ =~= old(out)@ + label(m as nat));
}

/// Relies on std's `FromIterator<char>` for `String`: collecting characters
/// yields the string of exactly those characters, in order.
#[verifier::external_body]
pub(crate) fn chars_to_string(chars: &Vec<char>) -> (r: String)
    ensures
        r@ == chars@,
{
    chars.iter().collect()
}

} // verus!
