//! Minimal lower-case hex encoder used for checksums.

use vstd::prelude::*;
use crate::text::push_char;

verus! {

/// The lower-case hex digit for a nibble `n < 16`.
pub open spec fn hex_char(n: u8) -> char {
    if n < 10 {
        (48 + n) as char
    } else {
        (87 + n) as char
    }
}

/// Lower-case hex of `bytes`: two digits per byte, high nibble first.
pub open spec fn spec_hex(bytes: Seq<u8>) -> Seq<char>
    decreases bytes.len(),
{
    if bytes.len() == 0 {
        seq![]
    } else {
        spec_hex(bytes.drop_last()).push(hex_char(bytes.last() / 16)).push(
            hex_char(bytes.last() % 16),
        )
    }
}

fn nibble_char(n: u8) -> (c: char)
    requires
        n < 16,
    ensures
        c == hex_char(n),
{
    if n < 10 {
        (48u8 + n) as char
    } else {
        (87u8 + n) as char
    }
}

/// Encodes `bytes` as lower-case hex.
pub fn encode(bytes: &[u8]) -> (s: String)
    ensures
        s@ == spec_hex(bytes@),
        s@.len() == 2 * bytes@.len(),
{
    let mut s = String::new();
    let n = bytes.len();
    for i in 0..n
        invariant
            n == bytes@.len(),
            s@ == spec_hex(bytes@.take(i as int)),
            s@.len() == 2 * i,
    {
        let b = bytes[i];
        push_char(&mut s, nibble_char(b / 16));
        push_char(&mut s, nibble_char(b % 16));
        proof {
            assert(bytes@.take(i + 1).drop_last() =~= bytes@.take(i as int));
        }
    }
    proof {
        assert(bytes@.take(n as int) =~= bytes@);
    }
    s
}

} // verus!
