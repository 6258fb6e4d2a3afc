//! Decimal text of integers and the few `String` operations the writers need.
use vstd::prelude::*;

verus! {

/// The ASCII character of the decimal digit `d`.
pub open spec fn digit_char(d: nat) -> char {
    ((48 + d) as u8) as char
}

/// The decimal text of `n`, without sign or padding.
pub open spec fn decimal_text(n: nat) -> Seq<char>
    decreases n,
{
    if n < 10 {
        seq![digit_char(n)]
    } else {
        decimal_text(n / 10).push(digit_char(n % 10))
    }
}

/// Prints `n` in decimal with `itoa::Buffer::format`. Trusted: the text is the
/// plain base-ten representation of `n`, most significant digit first, with no
/// sign, separator or padding.
#[verifier::external_body]
pub(crate) fn format_decimal(n: u128) -> (s: String)
    ensures
        s@ == decimal_text(n as nat),
{
    itoa::Buffer::new().format(n).to_owned()
}

/// `String::push` appends one character to the end of the string.
pub assume_specification[ String::push ](s: &mut String, c: char)
    ensures
        final(s)@ == old(s)@.push(c),
;

/// The decimal text of a number has as many characters as the number has digits.
pub proof fn lemma_decimal_text_len(n: nat)
    ensures
        decimal_text(n).len() == crate::spec_digit_cnt(n),
    decreases n,
{
    if n >= 10 {
        lemma_decimal_text_len(n / 10);
    }
}

} // verus!
