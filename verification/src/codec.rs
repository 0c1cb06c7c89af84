//! Byte and text encodings (Base64, percent-encoding, hex, JSON string literals, UTF-8),
//! and the random numbers that tokens and identifiers are drawn from.
//!
//! The encoders are the outside crates themselves, reached through trusted wrappers whose
//! contracts state each encoding as a specification function of a few lines.
use vstd::prelude::*;
use vstd::utf8::*;

verus! {

broadcast use vstd::string::group_string_axioms;

/// One character of the standard Base64 alphabet (`A-Z a-z 0-9 + /`).
pub open spec fn b64_char(v: nat) -> char {
    if v < 26 {
        ((65 + v) as u8) as char
    } else if v < 52 {
        ((97 + v - 26) as u8) as char
    } else if v < 62 {
        ((48 + v - 52) as u8) as char
    } else if v == 62 {
        '+'
    } else {
        '/'
    }
}

/// Standard Base64 with `=` padding (RFC 4648, section 4).
pub open spec fn b64_encode(b: Seq<u8>) -> Seq<char>
    decreases b.len(),
{
    if b.len() == 0 {
        seq![]
    } else if b.len() == 1 {
        seq![b64_char((b[0] / 4) as nat), b64_char(((b[0] % 4) * 16) as nat), '=', '=']
    } else if b.len() == 2 {
        seq![
            b64_char((b[0] / 4) as nat),
            b64_char(((b[0] % 4) * 16 + b[1] / 16) as nat),
            b64_char(((b[1] % 16) * 4) as nat),
            '=',
        ]
    } else {
        seq![
            b64_char((b[0] / 4) as nat),
            b64_char(((b[0] % 4) * 16 + b[1] / 16) as nat),
            b64_char(((b[1] % 16) * 4 + b[2] / 64) as nat),
            b64_char((b[2] % 64) as nat),
        ] + b64_encode(b.skip(3))
    }
}

/// Standard padded Base64 read in its canonical form only: the bytes whose encoding is
/// exactly the input, or `None` when no bytes encode to it.
pub open spec fn b64_decoded(input: Seq<u8>) -> Option<Seq<u8>> {
    if exists|v: Seq<u8>| encode_utf8(#[trigger] b64_encode(v)) == input {
        Some(choose|v: Seq<u8>| encode_utf8(#[trigger] b64_encode(v)) == input)
    } else {
        None
    }
}

pub open spec fn hex_upper(v: nat) -> char {
    if v < 10 {
        ((48 + v) as u8) as char
    } else {
        ((55 + v) as u8) as char
    }
}

pub open spec fn hex_lower(v: nat) -> char {
    if v < 10 {
        ((48 + v) as u8) as char
    } else {
        ((87 + v) as u8) as char
    }
}

pub open spec fn is_alnum_byte(b: u8) -> bool {
    (48 <= b <= 57) || (65 <= b <= 90) || (97 <= b <= 122)
}

/// Every byte that is not an ASCII letter or digit becomes `%XX` (upper-case hex).
pub open spec fn pct_bytes(b: Seq<u8>) -> Seq<char>
    decreases b.len(),
{
    if b.len() == 0 {
        seq![]
    } else {
        let x = b[0];
        (if is_alnum_byte(x) {
            seq![x as char]
        } else {
            seq!['%', hex_upper((x / 16) as nat), hex_upper((x % 16) as nat)]
        }) + pct_bytes(b.drop_first())
    }
}

/// `utf8_percent_encode(s, NON_ALPHANUMERIC)`.
pub open spec fn pct_encode(s: Seq<char>) -> Seq<char> {
    pct_bytes(encode_utf8(s))
}

/// Lower-case hex of each byte (`hex::encode`).
pub open spec fn hex_encode(b: Seq<u8>) -> Seq<char>
    decreases b.len(),
{
    if b.len() == 0 {
        seq![]
    } else {
        seq![hex_lower((b[0] / 16) as nat), hex_lower((b[0] % 16) as nat)] + hex_encode(
            b.drop_first(),
        )
    }
}

/// How one character appears inside a JSON string literal written by `serde_json`.
pub open spec fn json_escape_char(c: char) -> Seq<char> {
    let u = c as u32;
    if c == '"' {
        seq!['\\', '"']
    } else if c == '\\' {
        seq!['\\', '\\']
    } else if u == 8 {
        seq!['\\', 'b']
    } else if u == 9 {
        seq!['\\', 't']
    } else if u == 10 {
        seq!['\\', 'n']
    } else if u == 12 {
        seq!['\\', 'f']
    } else if u == 13 {
        seq!['\\', 'r']
    } else if u < 32 {
        seq!['\\', 'u', '0', '0', hex_lower((u / 16) as nat), hex_lower((u % 16) as nat)]
    } else {
        seq![c]
    }
}

pub open spec fn json_escape(s: Seq<char>) -> Seq<char>
    decreases s.len(),
{
    if s.len() == 0 {
        seq![]
    } else {
        json_escape(s.drop_last()) + json_escape_char(s.last())
    }
}

/// A JSON string literal holding `s`.
pub open spec fn json_quote(s: Seq<char>) -> Seq<char> {
    seq!['"'] + json_escape(s) + seq!['"']
}

/// What `String::from_utf8_lossy` makes of the bytes.
pub uninterp spec fn lossy_utf8(b: Seq<u8>) -> Seq<char>;

/// Base64 (standard alphabet, padded) of the bytes: `base64`'s `STANDARD.encode`.
#[verifier::external_body]
pub(crate) fn b64_encode_bytes(b: &[u8]) -> (s: String)
    ensures
        s@ == b64_encode(b@),
{
    base64::Engine::encode(&base64::engine::general_purpose::STANDARD, b)
}

/// `base64`'s `STANDARD.decode`, `None` on its error. That engine asks for `=` padding
/// to a whole quad and for zero bits after the last byte, so it accepts exactly the
/// encodings of byte strings: it returns `v` when the input is the encoding of `v`, and
/// fails on every other input.
#[verifier::external_body]
fn b64_decode_raw(b: &[u8]) -> (r: Option<Vec<u8>>)
    ensures
        r matches Some(w) ==> encode_utf8(b64_encode(w@)) == b@,
        r is None ==> (forall|v: Seq<u8>| encode_utf8(#[trigger] b64_encode(v)) != b@),
        forall|v: Seq<u8>| encode_utf8(#[trigger] b64_encode(v)) == b@ ==> r is Some && r->Some_0@ == v,
{
    base64::Engine::decode(&base64::engine::general_purpose::STANDARD, b).ok()
}

/// Decodes standard Base64 (see `b64_decoded`).
pub(crate) fn b64_decode_bytes(b: &[u8]) -> (r: Option<Vec<u8>>)
    ensures
        match r {
            Some(v) => b64_decoded(b@) == Some(v@),
            None => b64_decoded(b@) is None,
        },
{
    let r = b64_decode_raw(b);
    proof {
        if exists|v: Seq<u8>| encode_utf8(#[trigger] b64_encode(v)) == b@ {
            let c = choose|v: Seq<u8>| encode_utf8(#[trigger] b64_encode(v)) == b@;
            assert(encode_utf8(b64_encode(c)) == b@);
        }
    }
    r
}

/// Base64 of the UTF-8 bytes of `s`.
pub fn b64_of_str(s: &str) -> (r: String)
    ensures
        r@ == b64_encode(encode_utf8(s@)),
{
    b64_encode_bytes(s.as_bytes())
}

/// `percent_encoding::utf8_percent_encode(s, NON_ALPHANUMERIC)`: the UTF-8 bytes of `s`,
/// each byte that is not an ASCII letter or digit written as `%XX` in upper-case hex.
#[verifier::external_body]
pub(crate) fn pct_encode_str(s: &str) -> (r: String)
    ensures
        r@ == pct_encode(s@),
{
    percent_encoding::utf8_percent_encode(s, percent_encoding::NON_ALPHANUMERIC).to_string()
}

/// `hex::encode`: two lower-case hex digits per byte.
#[verifier::external_body]
pub(crate) fn hex_encode_bytes(b: &[u8]) -> (r: String)
    ensures
        r@ == hex_encode(b@),
{
    hex::encode(b)
}

/// `serde_json::to_string` of a string: the JSON string literal, with `"`, `\` and the
/// control characters escaped as `serde_json` escapes them.
#[verifier::external_body]
pub(crate) fn json_quote_str(s: &str) -> (r: String)
    ensures
        r@ == json_quote(s@),
{
    match serde_json::to_string(s) {
        Ok(t) => t,
        Err(_) => String::new(),
    }
}

/// `String::from_utf8`: the text when the bytes are valid UTF-8, else `None`.
#[verifier::external_body]
pub(crate) fn utf8_decode(b: Vec<u8>) -> (r: Option<String>)
    ensures
        r is Some <==> valid_utf8(b@),
        r matches Some(s) ==> s@ == decode_utf8(b@),
{
    String::from_utf8(b).ok()
}

/// `String::from_utf8_lossy`: invalid sequences become U+FFFD; valid UTF-8 is decoded as is.
#[verifier::external_body]
pub(crate) fn utf8_lossy(b: &[u8]) -> (r: String)
    ensures
        r@ == lossy_utf8(b@),
        valid_utf8(b@) ==> r@ == decode_utf8(b@),
{
    String::from_utf8_lossy(b).to_string()
}

/// A uniformly drawn number below 16: `rand::thread_rng().gen_range(0..16)`.
#[verifier::external_body]
pub(crate) fn random_nibble() -> (r: u8)
    ensures
        r < 16,
{
    rand::Rng::gen_range(&mut rand::thread_rng(), 0..16u8)
}

/// Sixteen bytes from the operating system's generator: `OsRng.fill_bytes`.
#[verifier::external_body]
pub(crate) fn random_16() -> (r: Vec<u8>)
    ensures
        r@.len() == 16,
{
    let mut b = [0u8; 16];
    rand::RngCore::fill_bytes(&mut rand::rngs::OsRng, &mut b);
    b.to_vec()
}

/// A uniformly drawn 64-bit number: `rand::random::<u64>()`.
#[verifier::external_body]
pub(crate) fn random_u64() -> (r: u64) {
    rand::random::<u64>()
}

} // verus!
