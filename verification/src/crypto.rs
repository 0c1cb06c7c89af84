//! The login password's encryption, as the panel's web front end does it, and the
//! percent-decoding of the public key that the panel hands out in a cookie.
//!
//! A fresh 16-byte AES key is drawn and written as 32 hex digits; those digits are
//! encrypted with the panel's RSA key (PKCS#1 v1.5) and also serve as the AES-256 key
//! that encrypts the password (CBC, PKCS#7, random IV). The result is
//! `base64(key cipher):base64(iv):base64(password cipher)`.
use vstd::prelude::*;
use vstd::utf8::*;
use crate::codec::{
    b64_encode, b64_encode_bytes, hex_encode, hex_encode_bytes, hex_upper, is_alnum_byte, pct_bytes,
    pct_encode, random_16, utf8_decode,
};
use crate::text::{chars_of, push_all, string_of};

verus! {

broadcast use vstd::string::group_string_axioms;

#[derive(Debug, PartialEq, Eq, Structural)]
pub enum CryptoError {
    /// `%` followed by a byte that is not a hex digit (the byte).
    BadEscape(u8),
    /// The decoded bytes are not UTF-8.
    InvalidUtf8,
    /// The panel's public key is not a PEM `PUBLIC KEY` block that `rsa` can read.
    BadPublicKey,
    /// RSA encryption of the AES key failed.
    KeyEncryptFailed,
}

/// The value of one hex digit (either case).
pub open spec fn hex_val_spec(b: u8) -> Option<u8> {
    if 48 <= b <= 57 {
        Some((b - 48) as u8)
    } else if 97 <= b <= 102 {
        Some((b - 97 + 10) as u8)
    } else if 65 <= b <= 70 {
        Some((b - 65 + 10) as u8)
    } else {
        None
    }
}

/// Percent-decoding of `b` from index `i` on: `%` with two more bytes after it is an
/// escape whose two hex digits give one byte (an error names the first bad digit);
/// every other byte, `+` included, stands for itself.
pub open spec fn pct_decode_from(b: Seq<u8>, i: int) -> Result<Seq<u8>, u8>
    decreases b.len() - i,
{
    if i < 0 || i >= b.len() {
        Ok(Seq::empty())
    } else if b[i] == 37 && i + 2 < b.len() {
        match hex_val_spec(b[i + 1]) {
            None => Err(b[i + 1]),
            Some(hi) => match hex_val_spec(b[i + 2]) {
                None => Err(b[i + 2]),
                Some(lo) => match pct_decode_from(b, i + 3) {
                    Ok(rest) => Ok(seq![(hi * 16 + lo) as u8] + rest),
                    Err(e) => Err(e),
                },
            },
        }
    } else {
        match pct_decode_from(b, i + 1) {
            Ok(rest) => Ok(seq![b[i]] + rest),
            Err(e) => Err(e),
        }
    }
}

pub open spec fn pct_decode(b: Seq<u8>) -> Result<Seq<u8>, u8> {
    pct_decode_from(b, 0)
}

pub open spec fn url_decode_spec(s: Seq<char>) -> Result<Seq<char>, CryptoError> {
    match pct_decode(encode_utf8(s)) {
        Err(c) => Err(CryptoError::BadEscape(c)),
        Ok(b) => if valid_utf8(b) {
            Ok(decode_utf8(b))
        } else {
            Err(CryptoError::InvalidUtf8)
        },
    }
}

/// The value of a hex digit byte.
pub fn hex_val(b: u8) -> (r: Option<u8>)
    ensures
        r == hex_val_spec(b),
{
    if 48 <= b && b <= 57 {
        Some(b - 48)
    } else if 97 <= b && b <= 102 {
        Some(b - 97 + 10)
    } else if 65 <= b && b <= 70 {
        Some(b - 65 + 10)
    } else {
        None
    }
}

pub open spec fn prepend(p: Seq<u8>, r: Result<Seq<u8>, u8>) -> Result<Seq<u8>, u8> {
    match r {
        Ok(x) => Ok(p + x),
        Err(e) => Err(e),
    }
}

/// Decodes `%XX` escapes and keeps `+` as it is; the result must be UTF-8.
pub fn url_decode(s: &str) -> (r: Result<String, CryptoError>)
    ensures
        match url_decode_spec(s@) {
            Ok(t) => r matches Ok(x) && x@ == t,
            Err(e) => r == Err::<String, CryptoError>(e),
        },
{
    let bytes = s.as_bytes();
    let ghost b = bytes@;
    assert(b == encode_utf8(s@));
    let mut out: Vec<u8> = Vec::new();
    let mut i: usize = 0;
    while i < bytes.len()
        invariant
            b == bytes@,
            b == encode_utf8(s@),
            0 <= i <= b.len(),
            pct_decode(b) == prepend(out@, pct_decode_from(b, i as int)),
        decreases b.len() - i,
    {
        if bytes[i] == 37 && bytes.len() - i > 2 {
            let hi = match hex_val(bytes[i + 1]) {
                Some(v) => v,
                None => {
                    assert(pct_decode_from(b, i as int) == Err::<Seq<u8>, u8>(b[i + 1]));
                    assert(url_decode_spec(s@) == Err::<Seq<char>, CryptoError>(CryptoError::BadEscape(b[i + 1])));
                    return Err(CryptoError::BadEscape(bytes[i + 1]));
                },
            };
            let lo = match hex_val(bytes[i + 2]) {
                Some(v) => v,
                None => {
                    assert(pct_decode_from(b, i as int) == Err::<Seq<u8>, u8>(b[i + 2]));
                    assert(url_decode_spec(s@) == Err::<Seq<char>, CryptoError>(CryptoError::BadEscape(b[i + 2])));
                    return Err(CryptoError::BadEscape(bytes[i + 2]));
                },
            };
            let ghost before = out@;
            out.push(hi * 16 + lo);
            proof {
                assert(out@ == before + seq![(hi * 16 + lo) as u8]);
                match pct_decode_from(b, i + 3) {
                    Ok(rest) => assert(before + (seq![(hi * 16 + lo) as u8] + rest) =~= out@ + rest),
                    Err(_) => {},
                }
            }
            i += 3;
        } else {
            let ghost before = out@;
            out.push(bytes[i]);
            proof {
                match pct_decode_from(b, i + 1) {
                    Ok(rest) => assert(before + (seq![b[i as int]] + rest) =~= out@ + rest),
                    Err(_) => {},
                }
            }
            i += 1;
        }
    }
    proof {
        assert(out@ + Seq::<u8>::empty() =~= out@);
    }
    match utf8_decode(out) {
        Some(t) => Ok(t),
        None => Err(CryptoError::InvalidUtf8),
    }
}

/// Whether `rsa` reads the text as a PEM `PUBLIC KEY` block
/// (`RsaPublicKey::from_public_key_pem` succeeds).
pub uninterp spec fn pem_key_readable(pem: Seq<char>) -> bool;

/// AES-256-CBC encryption with PKCS#7 padding of `plain` under `key` and `iv`
/// (`cbc::Encryptor<aes::Aes256>`).
pub uninterp spec fn aes256_cbc_pkcs7(key: Seq<u8>, iv: Seq<u8>, plain: Seq<u8>) -> Seq<u8>;

/// The size in bytes of the modulus of the RSA key that `pem` holds
/// (`RsaPublicKey::size` of the key that `from_public_key_pem` reads).
pub uninterp spec fn rsa_key_bytes(pem: Seq<char>) -> nat;

/// `c` is a PKCS#1 v1.5 encryption of `msg` under the RSA key that `pem` holds: the holder
/// of the private key decrypts `c` to `msg`. The padding is random, so this relates the
/// bytes to the message without fixing them.
pub uninterp spec fn pkcs1v15_encrypts(pem: Seq<char>, msg: Seq<u8>, c: Seq<u8>) -> bool;

/// What RSA encryption of the AES key gives.
enum RsaOutcome {
    /// The ciphertext.
    Encrypted(Vec<u8>),
    /// `rsa` cannot read the key.
    Unreadable,
    /// `rsa` refused to encrypt.
    Refused,
}

/// Reads the key (`RsaPublicKey::from_public_key_pem`) and encrypts `msg` with it
/// (`RsaPublicKey::encrypt` with `Pkcs1v15Encrypt` and the operating system's
/// generator). A key that `rsa` reads has passed its own checks (`RsaPublicKey::new`), so
/// the encryption fails only when the message is longer than the key's size less 11
/// bytes; the ciphertext is as long as the key.
#[verifier::external_body]
fn rsa_encrypt(pem: &str, msg: &[u8]) -> (r: RsaOutcome)
    ensures
        r is Unreadable <==> !pem_key_readable(pem@),
        r is Refused <==> (pem_key_readable(pem@) && msg@.len() + 11 > rsa_key_bytes(pem@)),
        r matches RsaOutcome::Encrypted(c) ==> c@.len() == rsa_key_bytes(pem@) && pkcs1v15_encrypts(
            pem@,
            msg@,
            c@,
        ),
{
    let key: rsa::RsaPublicKey = match rsa::pkcs8::DecodePublicKey::from_public_key_pem(pem) {
        Ok(k) => k,
        Err(_) => return RsaOutcome::Unreadable,
    };
    match key.encrypt(&mut rand::rngs::OsRng, rsa::Pkcs1v15Encrypt, msg) {
        Ok(c) => RsaOutcome::Encrypted(c),
        Err(_) => RsaOutcome::Refused,
    }
}

/// `Encryptor::<Aes256>::new(key, iv).encrypt_padded_mut::<Pkcs7>(buf, msg_len)`: encrypts
/// the first `msg_len` bytes of `buf`, padded to the next whole block, in place. With a
/// 32-byte key, a 16-byte IV and room for the padding, `cipher` never fails and the
/// result has one block more than the whole blocks of the message.
#[verifier::external_body]
fn aes_cbc_encrypt(key: &[u8], iv: &[u8], buf: Vec<u8>, msg_len: usize) -> (r: Vec<u8>)
    requires
        key@.len() == 32,
        iv@.len() == 16,
        msg_len <= buf@.len(),
        buf@.len() == (msg_len / 16 + 1) * 16,
    ensures
        r@ == aes256_cbc_pkcs7(key@, iv@, buf@.take(msg_len as int)),
        r@.len() == (msg_len / 16 + 1) * 16,
{
    let mut buf = buf;
    let enc = <cbc::Encryptor<aes::Aes256> as cipher::KeyIvInit>::new_from_slices(key, iv);
    match enc {
        Ok(e) => match cipher::BlockEncryptMut::encrypt_padded_mut::<cipher::block_padding::Pkcs7>(e, &mut buf, msg_len) {
            Ok(c) => c.to_vec(),
            Err(_) => Vec::new(),
        },
        Err(_) => Vec::new(),
    }
}

/// `base64(key cipher):base64(iv):base64(password cipher)`.
pub open spec fn envelope(key_cipher: Seq<u8>, iv: Seq<u8>, cipher: Seq<u8>) -> Seq<char> {
    b64_encode(key_cipher) + ":"@ + b64_encode(iv) + ":"@ + b64_encode(cipher)
}

/// The AES key as it is used: the 32 lower-case hex digits of the raw key, as bytes.
pub open spec fn aes_key_of(raw: Seq<u8>) -> Seq<u8> {
    encode_utf8(hex_encode(raw))
}

/// What an encrypted password is made of, given the random parts it was built from: the
/// RSA part encrypts, under the panel's key, the AES key that encrypts the password.
pub open spec fn sealed(password: Seq<char>, pem: Seq<char>, raw: Seq<u8>, key_cipher: Seq<u8>, iv: Seq<u8>, out: Seq<char>) -> bool {
    &&& raw.len() == 16
    &&& iv.len() == 16
    &&& pkcs1v15_encrypts(pem, aes_key_of(raw), key_cipher)
    &&& out == envelope(key_cipher, iv, aes256_cbc_pkcs7(aes_key_of(raw), iv, encode_utf8(password)))
}

/// `out` is the encrypted form of `password` for the panel whose key is `pem`, under some
/// fresh AES key and IV.
pub open spec fn sealed_some(password: Seq<char>, pem: Seq<char>, out: Seq<char>) -> bool {
    exists|raw: Seq<u8>, kc: Seq<u8>, iv: Seq<u8>| #[trigger] sealed(password, pem, raw, kc, iv, out)
}

/// Joins the three encrypted parts into the form the panel expects.
pub fn password_envelope(key_cipher: &[u8], iv: &[u8], cipher: &[u8]) -> (r: String)
    ensures
        r@ == envelope(key_cipher@, iv@, cipher@),
{
    let mut out = chars_of(b64_encode_bytes(key_cipher).as_str());
    push_all(&mut out, &chars_of(":"));
    push_all(&mut out, &chars_of(b64_encode_bytes(iv).as_str()));
    push_all(&mut out, &chars_of(":"));
    push_all(&mut out, &chars_of(b64_encode_bytes(cipher).as_str()));
    string_of(&out)
}

/// Encrypts the login password for the panel whose public key is `public_key_pem`.
/// Fails with `BadPublicKey` exactly when the key cannot be read, with `KeyEncryptFailed`
/// exactly when the key is too small for the 32-byte AES key (under 43 bytes), and
/// otherwise gives the envelope of the password under a fresh AES key and IV, with that
/// AES key encrypted under the panel's RSA key.
pub fn encrypt_password(password: &str, public_key_pem: &str) -> (r: Result<String, CryptoError>)
    requires
        encode_utf8(password@).len() + 16 <= usize::MAX,
    ensures
        !pem_key_readable(public_key_pem@) <==> r == Err::<String, CryptoError>(
            CryptoError::BadPublicKey,
        ),
        pem_key_readable(public_key_pem@) && rsa_key_bytes(public_key_pem@) < 43 <==> r == Err::<
            String,
            CryptoError,
        >(CryptoError::KeyEncryptFailed),
        r is Ok <==> pem_key_readable(public_key_pem@) && rsa_key_bytes(public_key_pem@) >= 43,
        r matches Ok(s) ==> sealed_some(password@, public_key_pem@, s@),
{
    let raw = random_16();
    let key_hex = hex_encode_bytes(raw.as_slice());
    let key = key_hex.as_str().as_bytes();
    proof {
        lemma_hex_len(raw@);
        lemma_ascii_bytes(hex_encode(raw@));
    }
    assert(key@.len() == 32);
    let key_cipher = match rsa_encrypt(public_key_pem, key) {
        RsaOutcome::Encrypted(c) => c,
        RsaOutcome::Unreadable => return Err(CryptoError::BadPublicKey),
        RsaOutcome::Refused => return Err(CryptoError::KeyEncryptFailed),
    };
    let iv = random_16();
    let msg = password.as_bytes();
    let n = msg.len();
    let padded: usize = n - n % 16 + 16;
    assert(padded == (n / 16 + 1) * 16) by (nonlinear_arith)
        requires
            padded == n - n % 16 + 16,
    ;
    let mut buf: Vec<u8> = Vec::new();
    let mut i: usize = 0;
    while i < padded
        invariant
            0 <= i <= padded,
            n <= padded,
            msg@.len() == n,
            buf@.len() == i,
            forall|k: int| 0 <= k < i && k < n ==> buf@[k] == msg@[k],
        decreases padded - i,
    {
        if i < n {
            buf.push(msg[i]);
        } else {
            buf.push(0);
        }
        i += 1;
    }
    proof {
        assert(buf@.take(n as int) =~= msg@);
        assert(key@.len() == 32) by {
            lemma_hex_len(raw@);
            lemma_ascii_bytes(hex_encode(raw@));
        }
    }
    let cipher = aes_cbc_encrypt(key, iv.as_slice(), buf, n);
    let out = password_envelope(key_cipher.as_slice(), iv.as_slice(), cipher.as_slice());
    assert(sealed(password@, public_key_pem@, raw@, key_cipher@, iv@, out@));
    Ok(out)
}

pub proof fn lemma_hex_len(b: Seq<u8>)
    ensures
        hex_encode(b).len() == 2 * b.len(),
        forall|i: int| 0 <= i < hex_encode(b).len() ==> (#[trigger] hex_encode(b)[i] as u32) < 128,
    decreases b.len(),
{
    if b.len() > 0 {
        lemma_hex_len(b.drop_first());
    }
}

pub proof fn lemma_ascii_bytes(s: Seq<char>)
    requires
        forall|i: int| 0 <= i < s.len() ==> (#[trigger] s[i] as u32) < 128,
    ensures
        encode_utf8(s).len() == s.len(),
    decreases s.len(),
{
    if s.len() > 0 {
        lemma_ascii_bytes(s.drop_first());
    }
}

proof fn lemma_scalar_no_percent(c: char)
    requires
        c != '%',
    ensures
        forall|i: int| 0 <= i < encode_scalar(c as u32).len() ==> #[trigger] encode_scalar(c as u32)[i] != 37,
{
    broadcast use vstd::utf8::char_is_scalar;

    let u = c as u32;
    assert('%' as u32 == 37);
    assert(u != 37);
    assert(is_scalar(u));
    if has_width_1_encoding(u) {
        assert((u & 0x7F) == u) by (bit_vector)
            requires
                u <= 0x7F,
        ;
        assert(((u & 0x7F) as u8) as u32 == u & 0x7F) by (bit_vector);
    } else {
        assert((0x80u8 | ((u & 0x3F) as u8)) != 37u8) by (bit_vector);
        assert((0x80u8 | (((u >> 6) & 0x3F) as u8)) != 37u8) by (bit_vector);
        assert((0x80u8 | (((u >> 12) & 0x3F) as u8)) != 37u8) by (bit_vector);
        assert((0xC0u8 | (((u >> 6) & 0x1F) as u8)) != 37u8) by (bit_vector);
        assert((0xE0u8 | (((u >> 12) & 0x0F) as u8)) != 37u8) by (bit_vector);
        assert((0xF0u8 | (((u >> 18) & 0x7) as u8)) != 37u8) by (bit_vector);
    }
}

proof fn lemma_encode_no_percent(s: Seq<char>)
    requires
        !s.contains('%'),
    ensures
        forall|i: int| 0 <= i < encode_utf8(s).len() ==> encode_utf8(s)[i] != 37,
    decreases s.len(),
{
    if s.len() > 0 {
        assert(s[0] != '%');
        lemma_scalar_no_percent(s[0]);
        assert(!s.drop_first().contains('%')) by {
            assert forall|k: int| 0 <= k < s.drop_first().len() implies s.drop_first()[k] != '%' by {
                assert(s.drop_first()[k] == s[k + 1]);
            }
        }
        lemma_encode_no_percent(s.drop_first());
        let a = encode_scalar(s[0] as u32);
        let b = encode_utf8(s.drop_first());
        assert(encode_utf8(s) == a + b);
        assert forall|i: int| 0 <= i < (a + b).len() implies (a + b)[i] != 37 by {
            if i < a.len() {
                assert((a + b)[i] == a[i]);
            } else {
                assert((a + b)[i] == b[i - a.len()]);
            }
        }
    }
}

proof fn lemma_pct_plain(b: Seq<u8>, i: int)
    requires
        0 <= i <= b.len(),
        forall|k: int| 0 <= k < b.len() ==> b[k] != 37,
    ensures
        pct_decode_from(b, i) == Ok::<Seq<u8>, u8>(b.skip(i)),
    decreases b.len() - i,
{
    if i < b.len() {
        lemma_pct_plain(b, i + 1);
        assert(seq![b[i]] + b.skip(i + 1) =~= b.skip(i));
    } else {
        assert(b.skip(i) =~= Seq::<u8>::empty());
    }
}

/// Percent-decoding changes only `%XX` escapes: text without `%` (with `+` or anything
/// else in it) decodes to itself.
pub proof fn law_url_decode_plain(s: Seq<char>)
    requires
        !s.contains('%'),
    ensures
        url_decode_spec(s) == Ok::<Seq<char>, CryptoError>(s),
{
    broadcast use vstd::utf8::encode_utf8_valid_utf8, vstd::utf8::encode_utf8_decode_utf8;

    let b = encode_utf8(s);
    lemma_encode_no_percent(s);
    lemma_pct_plain(b, 0);
    assert(b.skip(0) =~= b);
    assert(valid_utf8(b));
    assert(decode_utf8(b) == s);
}


/// The bytes of an upper-case hex digit.
pub open spec fn hex_upper_byte(v: nat) -> u8 {
    if v < 10 {
        (48 + v) as u8
    } else {
        (55 + v) as u8
    }
}

/// The bytes of `pct_bytes(b)`: each byte that is not an ASCII letter or digit becomes
/// `%` and two upper-case hex digits.
pub open spec fn pct_raw(b: Seq<u8>) -> Seq<u8>
    decreases b.len(),
{
    if b.len() == 0 {
        seq![]
    } else {
        let x = b[0];
        (if is_alnum_byte(x) {
            seq![x]
        } else {
            seq![37u8, hex_upper_byte((x / 16) as nat), hex_upper_byte((x % 16) as nat)]
        }) + pct_raw(b.drop_first())
    }
}

proof fn lemma_encode_concat(a: Seq<char>, b: Seq<char>)
    ensures
        encode_utf8(a + b) == encode_utf8(a) + encode_utf8(b),
    decreases a.len(),
{
    if a.len() > 0 {
        assert((a + b).drop_first() =~= a.drop_first() + b);
        assert((a + b)[0] == a[0]);
        lemma_encode_concat(a.drop_first(), b);
        assert(encode_scalar(a[0] as u32) + (encode_utf8(a.drop_first()) + encode_utf8(b))
            =~= (encode_scalar(a[0] as u32) + encode_utf8(a.drop_first())) + encode_utf8(b));
    } else {
        assert(a + b =~= b);
    }
}

proof fn lemma_pct_bytes_encode(b: Seq<u8>)
    ensures
        encode_utf8(pct_bytes(b)) == pct_raw(b),
    decreases b.len(),
{
    broadcast use is_ascii_chars_encode_utf8;

    if b.len() > 0 {
        let x = b[0];
        let h = if is_alnum_byte(x) {
            seq![x as char]
        } else {
            seq!['%', hex_upper((x / 16) as nat), hex_upper((x % 16) as nat)]
        };
        let hb = if is_alnum_byte(x) {
            seq![x]
        } else {
            seq![37u8, hex_upper_byte((x / 16) as nat), hex_upper_byte((x % 16) as nat)]
        };
        assert(is_ascii_chars(h));
        assert(encode_utf8(h) =~= hb);
        lemma_pct_bytes_encode(b.drop_first());
        lemma_encode_concat(h, pct_bytes(b.drop_first()));
    }
}

proof fn lemma_hex_upper_val(v: nat)
    requires
        v < 16,
    ensures
        hex_val_spec(hex_upper_byte(v)) == Some(v as u8),
{
}

/// Percent-decoding undoes `pct_raw` wherever it stands at the end of the input.
proof fn lemma_pct_decode_raw(x: Seq<u8>, b: Seq<u8>)
    ensures
        pct_decode_from(x + pct_raw(b), x.len() as int) == Ok::<Seq<u8>, u8>(b),
    decreases b.len(),
{
    let all = x + pct_raw(b);
    let i = x.len() as int;
    if b.len() == 0 {
        assert(pct_raw(b) =~= Seq::<u8>::empty());
        assert(all =~= x);
        assert(b =~= Seq::<u8>::empty());
    } else {
        let c = b[0];
        let rest = b.drop_first();
        if is_alnum_byte(c) {
            let x2 = x + seq![c];
            assert(all =~= x2 + pct_raw(rest));
            assert(all[i] == c);
            lemma_pct_decode_raw(x2, rest);
            assert(c != 37);
            assert(pct_decode_from(all, i + 1) == Ok::<Seq<u8>, u8>(rest));
            assert(seq![c] + rest =~= b);
            assert(pct_decode_from(all, i) == Ok::<Seq<u8>, u8>(seq![all[i]] + rest));
        } else {
            let h = seq![37u8, hex_upper_byte((c / 16) as nat), hex_upper_byte((c % 16) as nat)];
            let x2 = x + h;
            assert(all =~= x2 + pct_raw(rest));
            assert(all[i] == 37 && all[i + 1] == h[1] && all[i + 2] == h[2]);
            lemma_hex_upper_val((c / 16) as nat);
            lemma_hex_upper_val((c % 16) as nat);
            lemma_pct_decode_raw(x2, rest);
            assert(pct_decode_from(all, i + 3) == Ok::<Seq<u8>, u8>(rest));
            let hi = (c / 16) as u8;
            let lo = (c % 16) as u8;
            assert((hi * 16 + lo) as u8 == c);
            assert(i + 2 < all.len());
            assert(seq![c] + rest =~= b);
            assert(pct_decode_from(all, i) == Ok::<Seq<u8>, u8>(seq![(hi * 16 + lo) as u8] + rest));
        }
    }
}

/// Decoding undoes percent-encoding: `url_decode` of the `NON_ALPHANUMERIC`
/// percent-encoding of any text gives the text back.
pub proof fn law_url_decode_undoes_encoding(s: Seq<char>)
    ensures
        url_decode_spec(pct_encode(s)) == Ok::<Seq<char>, CryptoError>(s),
{
    broadcast use vstd::utf8::encode_utf8_valid_utf8, vstd::utf8::encode_utf8_decode_utf8;

    let b = encode_utf8(s);
    lemma_pct_bytes_encode(b);
    lemma_pct_decode_raw(Seq::empty(), b);
    assert(Seq::<u8>::empty() + pct_raw(b) =~= pct_raw(b));
    assert(valid_utf8(b));
    assert(decode_utf8(b) == s);
}


/// The byte of a hex digit for `v` (below 16): `A`-`F` when `upper` holds, `a`-`f`
/// otherwise.
pub open spec fn hex_digit_byte(v: nat, upper: bool) -> u8 {
    if v < 10 {
        (48 + v) as u8
    } else if upper {
        (55 + v) as u8
    } else {
        (87 + v) as u8
    }
}

/// Every byte of `b` written as `%` and its two hex digits, the letter case of each
/// digit picked by `upper` (two entries per byte, in order).
pub open spec fn pct_every_byte(b: Seq<u8>, upper: Seq<bool>) -> Seq<char>
    decreases b.len(),
{
    if b.len() == 0 {
        seq![]
    } else {
        seq![
            '%',
            hex_digit_byte((b[0] / 16) as nat, upper[0]) as char,
            hex_digit_byte((b[0] % 16) as nat, upper[1]) as char,
        ] + pct_every_byte(b.drop_first(), upper.skip(2))
    }
}

/// The bytes of `pct_every_byte(b, upper)`.
pub open spec fn pct_every_raw(b: Seq<u8>, upper: Seq<bool>) -> Seq<u8>
    decreases b.len(),
{
    if b.len() == 0 {
        seq![]
    } else {
        seq![
            37u8,
            hex_digit_byte((b[0] / 16) as nat, upper[0]),
            hex_digit_byte((b[0] % 16) as nat, upper[1]),
        ] + pct_every_raw(b.drop_first(), upper.skip(2))
    }
}

proof fn lemma_pct_every_encode(b: Seq<u8>, upper: Seq<bool>)
    ensures
        encode_utf8(pct_every_byte(b, upper)) == pct_every_raw(b, upper),
    decreases b.len(),
{
    broadcast use is_ascii_chars_encode_utf8;

    if b.len() > 0 {
        let x = b[0];
        let d1 = hex_digit_byte((x / 16) as nat, upper[0]);
        let d2 = hex_digit_byte((x % 16) as nat, upper[1]);
        let h = seq!['%', d1 as char, d2 as char];
        let hb = seq![37u8, d1, d2];
        assert(is_ascii_chars(h));
        assert(encode_utf8(h) =~= hb);
        lemma_pct_every_encode(b.drop_first(), upper.skip(2));
        lemma_encode_concat(h, pct_every_byte(b.drop_first(), upper.skip(2)));
    }
}

proof fn lemma_hex_digit_val(v: nat, upper: bool)
    requires
        v < 16,
    ensures
        hex_val_spec(hex_digit_byte(v, upper)) == Some(v as u8),
{
}

/// Percent-decoding undoes `pct_every_raw` wherever it stands at the end of the input.
proof fn lemma_pct_decode_every(x: Seq<u8>, b: Seq<u8>, upper: Seq<bool>)
    ensures
        pct_decode_from(x + pct_every_raw(b, upper), x.len() as int) == Ok::<Seq<u8>, u8>(b),
    decreases b.len(),
{
    let all = x + pct_every_raw(b, upper);
    let i = x.len() as int;
    if b.len() == 0 {
        assert(pct_every_raw(b, upper) =~= Seq::<u8>::empty());
        assert(all =~= x);
        assert(b =~= Seq::<u8>::empty());
    } else {
        let c = b[0];
        let rest = b.drop_first();
        let h = seq![
            37u8,
            hex_digit_byte((c / 16) as nat, upper[0]),
            hex_digit_byte((c % 16) as nat, upper[1]),
        ];
        let x2 = x + h;
        assert(all =~= x2 + pct_every_raw(rest, upper.skip(2)));
        assert(all[i] == 37 && all[i + 1] == h[1] && all[i + 2] == h[2]);
        lemma_hex_digit_val((c / 16) as nat, upper[0]);
        lemma_hex_digit_val((c % 16) as nat, upper[1]);
        lemma_pct_decode_every(x2, rest, upper.skip(2));
        assert(pct_decode_from(all, i + 3) == Ok::<Seq<u8>, u8>(rest));
        let hi = (c / 16) as u8;
        let lo = (c % 16) as u8;
        assert((hi * 16 + lo) as u8 == c);
        assert(i + 2 < all.len());
        assert(seq![c] + rest =~= b);
        assert(pct_decode_from(all, i) == Ok::<Seq<u8>, u8>(seq![(hi * 16 + lo) as u8] + rest));
    }
}

/// Decoding turns back every escape: when each UTF-8 byte of a text is written as `%`
/// and two hex digits, in any mix of upper- and lower-case letters, `url_decode` gives
/// the text back.
pub proof fn law_url_decode_every_escape(s: Seq<char>, upper: Seq<bool>)
    ensures
        url_decode_spec(pct_every_byte(encode_utf8(s), upper)) == Ok::<Seq<char>, CryptoError>(s),
{
    broadcast use vstd::utf8::encode_utf8_valid_utf8, vstd::utf8::encode_utf8_decode_utf8;

    let b = encode_utf8(s);
    lemma_pct_every_encode(b, upper);
    lemma_pct_decode_every(Seq::empty(), b, upper);
    assert(Seq::<u8>::empty() + pct_every_raw(b, upper) =~= pct_every_raw(b, upper));
    assert(valid_utf8(b));
    assert(decode_utf8(b) == s);
}

} // verus!
