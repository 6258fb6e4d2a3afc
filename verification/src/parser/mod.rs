//! Byte-level readers shared by the atom codec and the part parser.
use vstd::prelude::*;

pub mod dump;
pub mod laws;
pub mod locator;
pub mod model;
pub mod parser;
pub mod parser3;
pub mod tab_element;
pub mod tick;

verus! {

/// ASCII `0`.
pub const DIGIT_ZERO: u8 = 48;

/// ASCII `9`.
pub const DIGIT_NINE: u8 = 57;

/// ASCII `|`, the barline.
pub const BAR: u8 = 124;

/// ASCII `-`, the rest.
pub const DASH: u8 = 45;

/// `b` is one of the ASCII digits `0` to `9`.
pub open spec fn is_digit(b: u8) -> bool {
    DIGIT_ZERO <= b <= DIGIT_NINE
}

/// `b` is an ASCII letter or digit.
pub open spec fn is_name_byte(b: u8) -> bool {
    is_digit(b) || (97 <= b <= 122) || (65 <= b <= 90)
}

/// Tests whether `b` is an ASCII digit.
pub fn byte_is_digit(b: u8) -> (r: bool)
    ensures
        r == is_digit(b),
{
    DIGIT_ZERO <= b && b <= DIGIT_NINE
}

/// Tests whether `b` is an ASCII letter or digit.
pub fn byte_is_name(b: u8) -> (r: bool)
    ensures
        r == is_name_byte(b),
{
    byte_is_digit(b) || (97 <= b && b <= 122) || (65 <= b && b <= 90)
}

/// Length of the longest prefix of `s` made of ASCII digits.
pub open spec fn digit_run(s: Seq<u8>) -> nat
    decreases s.len(),
{
    if s.len() > 0 && is_digit(s[0]) {
        1 + digit_run(s.skip(1))
    } else {
        0
    }
}

/// The number that the ASCII digits `digits` spell in base ten.
pub open spec fn decimal_value(digits: Seq<u8>) -> nat
    decreases digits.len(),
{
    if digits.len() == 0 {
        0
    } else {
        10 * decimal_value(digits.drop_last()) + (digits.last() - DIGIT_ZERO) as nat
    }
}

/// What `numeric` reads at the start of `s`: the value of the longest digit
/// run and its length, or nothing where there is no digit or the value does
/// not fit in a `u8`.
pub open spec fn spec_numeric(s: Seq<u8>) -> Option<(u8, nat)> {
    let n = digit_run(s);
    let v = decimal_value(s.take(n as int));
    if n == 0 || v > u8::MAX {
        None
    } else {
        Some((v as u8, n))
    }
}

/// A digit run is exactly `n` long when the first `n` bytes are digits and
/// the byte after them, if any, is not.
pub proof fn lemma_digit_run_is(s: Seq<u8>, n: nat)
    requires
        n <= s.len(),
        forall|j: int| 0 <= j < n ==> is_digit(#[trigger] s[j]),
        n == s.len() || !is_digit(s[n as int]),
    ensures
        digit_run(s) == n,
    decreases n,
{
    if n > 0 {
        let t = s.skip(1);
        assert forall|j: int| 0 <= j < n - 1 implies is_digit(#[trigger] t[j]) by {
            assert(t[j] == s[j + 1]);
        }
        lemma_digit_run_is(t, (n - 1) as nat);
    }
}

/// A digit run is at least `n` long when the first `n` bytes are digits.
pub proof fn lemma_digit_run_at_least(s: Seq<u8>, n: nat)
    requires
        n <= s.len(),
        forall|j: int| 0 <= j < n ==> is_digit(#[trigger] s[j]),
    ensures
        digit_run(s) >= n,
        digit_run(s) <= s.len(),
    decreases s.len(),
{
    if s.len() > 0 && is_digit(s[0]) {
        let t = s.skip(1);
        if n > 0 {
            assert forall|j: int| 0 <= j < n - 1 implies is_digit(#[trigger] t[j]) by {
                assert(t[j] == s[j + 1]);
            }
            lemma_digit_run_at_least(t, (n - 1) as nat);
        } else {
            lemma_digit_run_at_least(t, 0);
        }
    }
}

/// Every byte inside the digit run is a digit, and the byte after it is not.
pub proof fn lemma_digit_run_bytes(s: Seq<u8>)
    ensures
        digit_run(s) <= s.len(),
        forall|j: int| 0 <= j < digit_run(s) ==> is_digit(#[trigger] s[j]),
        digit_run(s) < s.len() ==> !is_digit(s[digit_run(s) as int]),
    decreases s.len(),
{
    if s.len() > 0 && is_digit(s[0]) {
        let t = s.skip(1);
        lemma_digit_run_bytes(t);
        assert forall|j: int| 0 <= j < digit_run(s) implies is_digit(#[trigger] s[j]) by {
            if j > 0 {
                assert(s[j] == t[j - 1]);
            }
        }
        if digit_run(s) < s.len() {
            assert(s[digit_run(s) as int] == t[digit_run(t) as int]);
        }
    }
}

/// The value of a longer prefix is never smaller than that of a shorter one.
pub proof fn lemma_decimal_value_grows(s: Seq<u8>, a: nat, b: nat)
    requires
        a <= b <= s.len(),
        forall|j: int| 0 <= j < b ==> is_digit(#[trigger] s[j]),
    ensures
        decimal_value(s.take(a as int)) <= decimal_value(s.take(b as int)),
    decreases b,
{
    if a < b {
        lemma_decimal_value_grows(s, a, (b - 1) as nat);
        assert(s.take(b as int).drop_last() =~= s.take(b - 1));
    }
}

/// Reads the byte `c` at the start of `s`.
pub fn expect_byte(c: u8, s: &[u8]) -> (r: Result<(&[u8], u8), &[u8]>)
    ensures
        match r {
            Ok((rest, found)) => s@.len() > 0 && s@[0] == c && found == c && rest@ == s@.skip(1),
            Err(rem) => rem@ == s@ && (s@.len() == 0 || s@[0] != c),
        },
{
    if s.len() > 0 && s[0] == c {
        Ok((&s[1..s.len()], c))
    } else {
        Err(s)
    }
}

/// Reads the name of a string: one ASCII letter or digit at the start of `s`.
pub fn string_name(s: &[u8]) -> (r: Result<(&[u8], char), &[u8]>)
    ensures
        match r {
            Ok((rest, name)) => s@.len() > 0 && is_name_byte(s@[0]) && name == s@[0] as char
                && rest@ == s@.skip(1),
            Err(rem) => rem@ == s@ && (s@.len() == 0 || !is_name_byte(s@[0])),
        },
{
    if s.len() > 0 && byte_is_name(s[0]) {
        Ok((&s[1..s.len()], s[0] as char))
    } else {
        Err(s)
    }
}

/// Reads the longest run of ASCII digits at the start of `s` as a `u8`.
/// Fails where there is no digit, or where the number is above 255.
pub fn numeric(s: &[u8]) -> (r: Result<(&[u8], u8), &[u8]>)
    ensures
        match r {
            Ok((rest, value)) => spec_numeric(s@) == Some((value, (s@.len() - rest@.len()) as nat))
                && rest@.len() < s@.len() && rest@ == s@.skip(s@.len() - rest@.len()),
            Err(rem) => rem@ == s@ && spec_numeric(s@) is None,
        },
{
    let mut i: usize = 0;
    let mut sum: u8 = 0;
    assert(s@.take(0) =~= Seq::<u8>::empty());
    while i < s.len() && byte_is_digit(s[i])
        invariant
            i <= s.len(),
            forall|j: int| 0 <= j < i ==> is_digit(#[trigger] s@[j]),
            sum == decimal_value(s@.take(i as int)),
        decreases s.len() - i,
    {
        let digit: u8 = s[i] - DIGIT_ZERO;
        proof {
            assert(s@.take(i + 1).drop_last() =~= s@.take(i as int));
            assert(s@.take(i + 1).last() == s@[i as int]);
        }
        if sum > 25 || (sum == 25 && digit > 5) {
            proof {
                lemma_digit_run_at_least(s@, (i + 1) as nat);
                lemma_digit_run_bytes(s@);
                lemma_decimal_value_grows(s@, (i + 1) as nat, digit_run(s@));
            }
            return Err(s);
        }
        sum = sum * 10 + digit;
        i = i + 1;
    }
    proof {
        lemma_digit_run_is(s@, i as nat);
    }
    if i == 0 {
        return Err(s);
    }
    Ok((&s[i..s.len()], sum))
}

/// ASCII `/`, of which two open a comment.
pub const SLASH: u8 = 47;

/// `line` is a comment: it starts with `//`.
pub open spec fn is_comment(line: Seq<u8>) -> bool {
    line.len() >= 2 && line[0] == SLASH && line[1] == SLASH
}

/// The number of bytes at the start of `s` that end no line: that are
/// neither a line feed nor a carriage return.
pub open spec fn line_run(s: Seq<u8>) -> nat
    decreases s.len(),
{
    if s.len() > 0 && s[0] != 10 && s[0] != 13 {
        1 + line_run(s.skip(1))
    } else {
        0
    }
}

/// The body of a comment line: what follows the `//`, up to the first line
/// feed or carriage return.
pub open spec fn comment_body(line: Seq<u8>) -> Seq<u8> {
    line.skip(2).take(line_run(line.skip(2)) as int)
}

/// The run that ends no line is `n` long when its `n` bytes end no line and
/// the byte after them, if any, does.
pub proof fn lemma_line_run_is(s: Seq<u8>, n: nat)
    requires
        n <= s.len(),
        forall|j: int| 0 <= j < n ==> (#[trigger] s[j]) != 10 && s[j] != 13,
        n == s.len() || s[n as int] == 10 || s[n as int] == 13,
    ensures
        line_run(s) == n,
    decreases n,
{
    if n > 0 {
        let t = s.skip(1);
        assert forall|j: int| 0 <= j < n - 1 implies (#[trigger] t[j]) != 10 && t[j] != 13 by {
            assert(t[j] == s[j + 1]);
        }
        lemma_line_run_is(t, (n - 1) as nat);
    }
}

/// Reads a comment line: gives what is left of the line after the comment,
/// and the body of the comment. Fails on a line that does not start with `//`.
pub fn comment_line(line: &[u8]) -> (r: Result<(&[u8], &[u8]), &[u8]>)
    ensures
        match r {
            Ok((rest, body)) => is_comment(line@) && body@ == comment_body(line@) && rest@
                == line@.skip(2 + body@.len() as int),
            Err(rem) => !is_comment(line@) && rem@ == line@,
        },
{
    if line.len() < 2 || line[0] != SLASH || line[1] != SLASH {
        return Err(line);
    }
    let after = &line[2..line.len()];
    let mut end: usize = 0;
    while end < after.len() && after[end] != 10 && after[end] != 13
        invariant
            end <= after@.len(),
            forall|j: int| 0 <= j < end ==> (#[trigger] after@[j]) != 10 && after@[j] != 13,
        decreases after.len() - end,
    {
        end = end + 1;
    }
    proof {
        lemma_line_run_is(after@, end as nat);
    }
    let body = &after[0..end];
    let rest = &after[end..after.len()];
    assert(body@ =~= comment_body(line@));
    assert(rest@ =~= line@.skip(2 + body@.len() as int));
    Ok((rest, body))
}

} // verus!
