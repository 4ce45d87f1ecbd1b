//! Small text helpers: decimal rendering of numbers and building strings
//! one character at a time.
use vstd::prelude::*;
use vstd::string::StringExecFns;

verus! {

/// The ASCII digit for a value below ten.
pub open spec fn digit(d: nat) -> char {
    (48 + d) as char
}

/// The decimal rendering of `n`, most significant digit first, without
/// leading zeros (zero itself is `"0"`).
pub open spec fn decimal(n: nat) -> Seq<char>
    decreases n,
{
    if n < 10 {
        seq![digit(n)]
    } else {
        decimal(n / 10).push(digit(n % 10))
    }
}

/// Appends one character to a string.
///
/// Calls `String::push`; the contract claims that the character is added
/// at the end and nothing else changes.
#[verifier::external_body]
pub fn push_char(s: &mut String, c: char)
    ensures
        final(s)@ == old(s)@.push(c),
{
    s.push(c);
}

/// The digit character for a value below ten.
pub fn digit_char(d: usize) -> (c: char)
    requires
        d < 10,
    ensures
        c == digit(d as nat),
{
    let b: u8 = 48u8 + (d as u8);
    b as char
}

/// Appends the decimal rendering of `n` to `s`.
pub fn push_decimal(s: &mut String, n: usize)
    ensures
        final(s)@ == old(s)@ + decimal(n as nat),
    decreases n,
{
    if n < 10 {
        push_char(s, digit_char(n));
        assert(old(s)@.push(digit(n as nat)) =~= old(s)@ + decimal(n as nat));
    } else {
        push_decimal(s, n / 10);
        let ghost mid = s@;
        push_char(s, digit_char(n % 10));
        assert(mid.push(digit((n % 10) as nat)) =~= old(s)@ + decimal(n as nat));
    }
}

/// A string made of the given literal.
pub fn string_of(lit: &str) -> (s: String)
    ensures
        s@ == lit@,
{
    String::from_str(lit)
}

/// Appends a string slice to `s`.
pub fn push_str(s: &mut String, more: &str)
    ensures
        final(s)@ == old(s)@ + more@,
{
    s.append(more);
}

/// The characters of a string slice, in order.
pub fn chars_of(s: &str) -> (v: Vec<char>)
    ensures
        v@ == s@,
{
    let mut v: Vec<char> = Vec::new();
    for c in it: s.chars()
        invariant
            v@ == it.seq().take(it.index() as int),
            it.seq() == s@,
    {
        v.push(c);
    }
    v
}

} // verus!
