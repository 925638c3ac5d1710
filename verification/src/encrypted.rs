//! The `enc:v1:` payload envelope: a marker followed by the standard base64
//! encoding of the payload bytes. It is an encoding only and provides no
//! confidentiality; payloads must be encrypted before they are wrapped.

use vstd::prelude::*;
use vstd::string::*;
use vstd::utf8::*;
use crate::migration::{MigrationError, MAX_MIGRATION_PAYLOAD_BYTES};
use crate::text::string_of_chars;

verus! {

/// Maximum size in bytes of an encoded envelope: the marker plus the base64
/// encoding of a payload at the payload limit (7 + 4 * 21846).
pub const MAX_ENCRYPTED_PAYLOAD_BYTES: usize = 87391;

/// The envelope marker `enc:v1:`.
pub open spec fn envelope_marker() -> Seq<char> {
    seq!['e', 'n', 'c', ':', 'v', '1', ':']
}

/// The character of a 6-bit value in the standard base64 alphabet
/// (`A`-`Z`, `a`-`z`, `0`-`9`, `+`, `/`).
pub open spec fn base64_char(n: int) -> char {
    if n < 26 {
        (65 + n) as char
    } else if n < 52 {
        (71 + n) as char
    } else if n < 62 {
        (n - 4) as char
    } else if n == 62 {
        '+'
    } else {
        '/'
    }
}

/// The standard (padded) base64 text of a byte string: each group of three
/// bytes becomes four characters, six bits each, high bits first; a final
/// group of one or two bytes is zero-filled and padded with `=` to four.
pub open spec fn base64_text(data: Seq<u8>) -> Seq<char>
    decreases data.len(),
{
    if data.len() == 0 {
        seq![]
    } else if data.len() == 1 {
        seq![base64_char(data[0] as int / 4), base64_char((data[0] % 4) * 16), '=', '=']
    } else if data.len() == 2 {
        seq![
            base64_char(data[0] as int / 4),
            base64_char((data[0] % 4) * 16 + data[1] / 16),
            base64_char((data[1] % 16) * 4),
            '=',
        ]
    } else {
        seq![
            base64_char(data[0] as int / 4),
            base64_char((data[0] % 4) * 16 + data[1] / 16),
            base64_char((data[1] % 16) * 4 + data[2] / 64),
            base64_char(data[2] as int % 64),
        ] + base64_text(data.subrange(3, data.len() as int))
    }
}

/// What standard base64 decoding gives for a text: the bytes, or `None` when
/// the text is not valid padded base64.
pub uninterp spec fn base64_bytes(text: Seq<char>) -> Option<Seq<u8>>;

/// `base64::Engine::encode` with the standard padded alphabet. The result is
/// ASCII, `4 * ceil(n / 3)` characters long, and decodes back to `data`.
/// (Inputs are capped at the payload limit, far below the length at which the
/// crate panics on overflow.)
#[verifier::external_body]
fn base64_encode(data: &[u8]) -> (s: String)
    requires
        data@.len() <= MAX_MIGRATION_PAYLOAD_BYTES,
    ensures
        s@ == base64_text(data@),
        s@.len() == 4 * ((data@.len() + 2) / 3),
        is_ascii_chars(s@),
        base64_bytes(s@) == Some(data@),
{
    base64::Engine::encode(&base64::engine::general_purpose::STANDARD, data)
}

/// `base64::Engine::decode` with the standard padded alphabet: the decoded
/// bytes, or the decoder's message when the text is not valid base64.
#[verifier::external_body]
fn base64_decode(text: &str) -> (r: Result<Vec<u8>, String>)
    ensures
        r is Ok <==> base64_bytes(text@) is Some,
        r is Ok ==> Some(r->Ok_0@) == base64_bytes(text@),
{
    match base64::Engine::decode(&base64::engine::general_purpose::STANDARD, text) {
        Ok(v) => Ok(v),
        Err(e) => Err(e.to_string()),
    }
}

/// How importing an envelope text ends.
pub enum EnvelopeVerdict {
    /// The text is longer than the envelope limit (its byte length).
    Oversized(nat),
    /// The text does not start with the marker.
    MissingMarker,
    /// Nothing follows the marker.
    EmptyBody,
    /// The body is not valid base64.
    InvalidBase64,
    /// The decoded payload exceeds the payload limit (its length).
    DecodedTooLarge(nat),
    /// The payload.
    Decoded(Seq<u8>),
}

/// The verdict on an envelope text, checked in that order.
pub open spec fn envelope_verdict(text: Seq<char>) -> EnvelopeVerdict {
    let marker = envelope_marker();
    // the byte length as `str::len` reports it
    let byte_len = encode_utf8(text).len() as usize;
    if byte_len > MAX_ENCRYPTED_PAYLOAD_BYTES {
        EnvelopeVerdict::Oversized(byte_len as nat)
    } else if !(text.len() >= marker.len() && text.subrange(0, marker.len() as int) == marker) {
        EnvelopeVerdict::MissingMarker
    } else if text.len() == marker.len() {
        EnvelopeVerdict::EmptyBody
    } else {
        match base64_bytes(text.subrange(marker.len() as int, text.len() as int)) {
            None => EnvelopeVerdict::InvalidBase64,
            Some(d) => if d.len() > MAX_MIGRATION_PAYLOAD_BYTES {
                EnvelopeVerdict::DecodedTooLarge(d.len())
            } else {
                EnvelopeVerdict::Decoded(d)
            },
        }
    }
}

/// The import outcome owed for each envelope verdict.
pub open spec fn answers_verdict(r: Result<Vec<u8>, MigrationError>, v: EnvelopeVerdict) -> bool {
    match v {
        EnvelopeVerdict::Oversized(n) => r == Err::<Vec<u8>, MigrationError>(
            MigrationError::PayloadTooLarge { size: n as usize, max: MAX_ENCRYPTED_PAYLOAD_BYTES },
        ),
        EnvelopeVerdict::MissingMarker => r is Err && r->Err_0 is InvalidFormat,
        EnvelopeVerdict::EmptyBody => r is Err && r->Err_0 is InvalidFormat,
        EnvelopeVerdict::InvalidBase64 => r is Err && r->Err_0 is InvalidFormat,
        EnvelopeVerdict::DecodedTooLarge(n) => r == Err::<Vec<u8>, MigrationError>(
            MigrationError::PayloadTooLarge { size: n as usize, max: MAX_MIGRATION_PAYLOAD_BYTES },
        ),
        EnvelopeVerdict::Decoded(d) => r is Ok && r->Ok_0@ == d,
    }
}

proof fn lemma_ascii_utf8_len(s: Seq<char>)
    requires
        is_ascii_chars(s),
    ensures
        encode_utf8(s).len() == s.len(),
{
    is_ascii_chars_encode_utf8(s);
}

/// Wrap payload bytes into an `enc:v1:` envelope. Payloads above the payload
/// limit are refused. A wrapped payload always imports back to itself when it
/// is not empty (an empty body is refused on import).
pub fn export_to_encrypted_payload(plain_bytes: &[u8]) -> (r: Result<String, MigrationError>)
    ensures
        plain_bytes@.len() > MAX_MIGRATION_PAYLOAD_BYTES ==> r == Err::<String, MigrationError>(
            MigrationError::PayloadTooLarge {
                size: plain_bytes@.len() as usize,
                max: MAX_MIGRATION_PAYLOAD_BYTES,
            },
        ),
        plain_bytes@.len() <= MAX_MIGRATION_PAYLOAD_BYTES ==> {
            &&& r is Ok
            &&& r->Ok_0@ == envelope_marker() + base64_text(plain_bytes@)
            &&& r->Ok_0@.len() == 7 + 4 * ((plain_bytes@.len() + 2) / 3)
            &&& encode_utf8(r->Ok_0@).len() == r->Ok_0@.len()
            &&& encode_utf8(r->Ok_0@).len() <= MAX_ENCRYPTED_PAYLOAD_BYTES
            &&& plain_bytes@.len() > 0 ==> envelope_verdict(r->Ok_0@) == EnvelopeVerdict::Decoded(
                plain_bytes@,
            )
        },
{
    if plain_bytes.len() > MAX_MIGRATION_PAYLOAD_BYTES {
        return Err(
            MigrationError::PayloadTooLarge {
                size: plain_bytes.len(),
                max: MAX_MIGRATION_PAYLOAD_BYTES,
            },
        );
    }
    let b64 = base64_encode(plain_bytes);
    let mut encoded = string_of_chars(&['e', 'n', 'c', ':', 'v', '1', ':']);
    encoded.append(b64.as_str());
    proof {
        let m = envelope_marker();
        let t = encoded@;
        assert(t =~= m + b64@);
        assert(is_ascii_chars(m));
        is_ascii_chars_concat(t, m, b64@);
        lemma_ascii_utf8_len(t);
        let n = plain_bytes@.len();
        assert(4 * ((n + 2) / 3) <= 87384) by (nonlinear_arith)
            requires
                n <= 65536,
        ;
        if n > 0 {
            assert(t.subrange(0, 7) =~= m);
            assert(t.subrange(7, t.len() as int) =~= b64@);
            assert(b64@.len() > 0) by (nonlinear_arith)
                requires
                    b64@.len() == 4 * ((n + 2) / 3),
                    n > 0,
            ;
        }
    }
    Ok(encoded)
}

fn has_marker(text: &str) -> (b: bool)
    ensures
        b == (text@.len() >= envelope_marker().len() && text@.subrange(
            0,
            envelope_marker().len() as int,
        ) == envelope_marker()),
{
    let m = ['e', 'n', 'c', ':', 'v', '1', ':'];
    let n = text.unicode_len();
    if n < 7 {
        return false;
    }
    let mut i: usize = 0;
    while i < 7
        invariant
            i <= 7,
            n == text@.len(),
            n >= 7,
            m@ == envelope_marker(),
            forall|j: int| 0 <= j < i ==> text@[j] == m@[j],
        decreases 7 - i,
    {
        if text.get_char(i) != m[i] {
            proof {
                assert(text@.subrange(0, 7)[i as int] != envelope_marker()[i as int]);
            }
            return false;
        }
        i += 1;
    }
    proof {
        assert(text@.subrange(0, 7) =~= envelope_marker());
    }
    true
}

/// Refuse an envelope whose encoded length exceeds the envelope limit.
pub fn validate_encrypted_payload_size(encoded_len: usize) -> (r: Result<(), MigrationError>)
    ensures
        encoded_len <= MAX_ENCRYPTED_PAYLOAD_BYTES ==> r is Ok,
        encoded_len > MAX_ENCRYPTED_PAYLOAD_BYTES ==> r == Err::<(), MigrationError>(
            MigrationError::PayloadTooLarge { size: encoded_len, max: MAX_ENCRYPTED_PAYLOAD_BYTES },
        ),
{
    if encoded_len > MAX_ENCRYPTED_PAYLOAD_BYTES {
        return Err(
            MigrationError::PayloadTooLarge { size: encoded_len, max: MAX_ENCRYPTED_PAYLOAD_BYTES },
        );
    }
    Ok(())
}

/// Unwrap an `enc:v1:` envelope and return the payload bytes. The text is
/// refused when it exceeds the envelope limit, lacks the marker, has nothing
/// after the marker, is not valid base64, or decodes to more than the payload
/// limit.
pub fn import_from_encrypted_payload(encoded: &str) -> (r: Result<Vec<u8>, MigrationError>)
    ensures
        answers_verdict(r, envelope_verdict(encoded@)),
{
    let byte_len = encoded.len();
    match validate_encrypted_payload_size(byte_len) {
        Err(e) => {
            return Err(e);
        },
        Ok(()) => {},
    }
    if !has_marker(encoded) {
        proof {
            reveal_strlit("missing or invalid encrypted payload marker");
        }
        return Err(
            MigrationError::InvalidFormat(
                String::from_str("missing or invalid encrypted payload marker"),
            ),
        );
    }
    let n = encoded.unicode_len();
    if n == 7 {
        return Err(
            MigrationError::InvalidFormat(String::from_str("empty encrypted payload ciphertext")),
        );
    }
    let rest = encoded.substring_char(7, n);
    match base64_decode(rest) {
        Err(m) => Err(MigrationError::InvalidFormat(m)),
        Ok(bytes) => {
            if bytes.len() > MAX_MIGRATION_PAYLOAD_BYTES {
                Err(
                    MigrationError::PayloadTooLarge {
                        size: bytes.len(),
                        max: MAX_MIGRATION_PAYLOAD_BYTES,
                    },
                )
            } else {
                Ok(bytes)
            }
        },
    }
}

} // verus!
