//! Small text-building helpers shared by the modules: appending characters
//! and rendering unsigned integers in decimal.

use vstd::prelude::*;

verus! {

/// `String::push` from std: appends one character.
#[verifier::external_body]
pub(crate) fn push_char(s: &mut String, c: char)
    ensures
        final(s)@ == old(s)@.push(c),
{
    s.push(c);
}

/// The ASCII digit for `d` (`0 <= d < 10`).
pub open spec fn digit_char(d: nat) -> char {
    (48 + d) as char
}

/// Decimal rendering of a natural number, most significant digit first,
/// with no leading zeros (zero renders as `"0"`).
pub open spec fn spec_decimal(n: nat) -> Seq<char>
    decreases n,
{
    if n < 10 {
        seq![digit_char(n)]
    } else {
        spec_decimal(n / 10).push(digit_char(n % 10))
    }
}

/// Appends the decimal rendering of `n` to `s`.
pub fn push_decimal(s: &mut String, n: u64)
    ensures
        final(s)@ == old(s)@ + spec_decimal(n as nat),
    decreases n,
{
    if n >= 10 {
        push_decimal(s, n / 10);
    }
    let d = (n % 10) as u8;
    let c = (48u8 + d) as char;
    push_char(s, c);
    proof {
        assert(c == digit_char((n % 10) as nat));
        if n >= 10 {
            assert(spec_decimal(n as nat) == spec_decimal((n / 10) as nat).push(digit_char((n % 10) as nat)));
        }
        assert(final(s)@ =~= old(s)@ + spec_decimal(n as nat));
    }
}

/// The decimal rendering of `n` as a new string (what `u64::to_string` gives).
pub fn decimal_string(n: u64) -> (r: String)
    ensures
        r@ == spec_decimal(n as nat),
{
    let mut s = String::new();
    push_decimal(&mut s, n);
    proof {
        assert(s@ =~= spec_decimal(n as nat));
    }
    s
}

} // verus!

verus! {

/// Decimal rendering of a signed 64-bit number, with a leading `-` when negative.
pub open spec fn spec_signed_decimal(n: i64) -> Seq<char> {
    if n < 0 {
        seq!['-'] + spec_decimal((-n) as nat)
    } else {
        spec_decimal(n as nat)
    }
}

/// The decimal rendering of `n` (what `i64::to_string` gives).
pub fn signed_decimal_string(n: i64) -> (r: String)
    ensures
        r@ == spec_signed_decimal(n),
{
    let mut s = String::new();
    if n < 0 {
        push_char(&mut s, '-');
        let m: u64 = (0i128 - (n as i128)) as u64;
        push_decimal(&mut s, m);
        proof {
            assert(s@ =~= seq!['-'] + spec_decimal((-n) as nat));
        }
    } else {
        push_decimal(&mut s, n as u64);
        proof {
            assert(s@ =~= spec_decimal(n as nat));
        }
    }
    s
}

/// `"true"` or `"false"`.
pub open spec fn spec_bool_text(b: bool) -> Seq<char> {
    if b {
        seq!['t', 'r', 'u', 'e']
    } else {
        seq!['f', 'a', 'l', 's', 'e']
    }
}

/// The text of a boolean (what `bool::to_string` gives).
pub fn bool_string(b: bool) -> (r: String)
    ensures
        r@ == spec_bool_text(b),
{
    let mut s = String::new();
    if b {
        push_char(&mut s, 't');
        push_char(&mut s, 'r');
        push_char(&mut s, 'u');
        push_char(&mut s, 'e');
    } else {
        push_char(&mut s, 'f');
        push_char(&mut s, 'a');
        push_char(&mut s, 'l');
        push_char(&mut s, 's');
        push_char(&mut s, 'e');
    }
    proof {
        assert(s@ =~= spec_bool_text(b));
    }
    s
}

/// Builds a string from a short list of characters.
pub fn string_of_chars(chars: &[char]) -> (r: String)
    ensures
        r@ == chars@,
{
    let mut s = String::new();
    let n = chars.len();
    for i in 0..n
        invariant
            n == chars@.len(),
            s@ == chars@.take(i as int),
    {
        push_char(&mut s, chars[i]);
        proof {
            assert(chars@.take(i + 1) =~= chars@.take(i as int).push(chars@[i as int]));
        }
    }
    proof {
        assert(chars@.take(n as int) =~= chars@);
    }
    s
}

} // verus!
