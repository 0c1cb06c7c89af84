//! What the HTTP client derives from its base address and its cookie jar: endpoint URLs,
//! the cookies as saved with a session, and the panel's RSA public key, which the panel
//! hands out as a cookie.
use vstd::prelude::*;
use vstd::utf8::*;
use crate::codec::{b64_decode_bytes, b64_decoded, utf8_decode};
use crate::crypto::{url_decode, url_decode_spec, CryptoError};
use crate::session::CookieData;
use crate::text::{
    char_pred, chars_of, copy_chars, drop_lead, drop_trail, find_from, push_all, same, slice_of,
    split_char, split_on, string_of, trim_end_char, trim_start_char, trim_ws, views, ws_trim,
};

verus! {

broadcast use vstd::string::group_string_axioms;

#[derive(Debug)]
pub enum ClientError {
    /// The panel set no `panel_public_key` cookie.
    NoPublicKey,
    /// The cookie's value does not percent-decode.
    BadKeyEncoding(CryptoError),
    /// The decoded value is not Base64.
    BadKeyBase64,
    /// The decoded key is not UTF-8.
    BadKeyText,
}

/// `base/path`: the base without trailing slashes, the path without leading ones.
pub open spec fn endpoint_spec(base: Seq<char>, path: Seq<char>) -> Seq<char> {
    drop_trail(base, char_pred('/')) + "/"@ + drop_lead(path, char_pred('/'))
}

/// The URL of an API path on the panel at `base_url`.
pub fn endpoint(base_url: &str, path: &str) -> (r: String)
    ensures
        r@ == endpoint_spec(base_url@, path@),
{
    let mut out = trim_end_char(&chars_of(base_url), '/');
    push_all(&mut out, &chars_of("/"));
    push_all(&mut out, &trim_start_char(&chars_of(path), '/'));
    string_of(&out)
}

/// One `name=value` pair of a `Cookie` header, trimmed and split at its first `=`;
/// `None` without `=`.
pub open spec fn cookie_pair_spec(part: Seq<char>) -> Option<(Seq<char>, Seq<char>)> {
    let t = ws_trim(part);
    match find_from(t, "="@, 0) {
        Some(k) => Some((t.take(k), t.skip(k + 1))),
        None => None,
    }
}

/// The cookies of a `Cookie` header (`a=1; b=2`), in order; pieces without `=` are
/// skipped.
pub open spec fn cookies_spec(parts: Seq<Seq<char>>) -> Seq<(Seq<char>, Seq<char>)>
    decreases parts.len(),
{
    if parts.len() == 0 {
        Seq::empty()
    } else {
        let prev = cookies_spec(parts.drop_last());
        match cookie_pair_spec(parts.last()) {
            Some(p) => prev.push(p),
            None => prev,
        }
    }
}

pub open spec fn cookie_views(c: Seq<CookieData>) -> Seq<(Seq<char>, Seq<char>)> {
    c.map_values(|x: CookieData| (x.name@, x.value@))
}

/// Reads the cookies that the jar sends to the panel from the `Cookie` header it builds.
pub fn parse_cookie_header(header: &str) -> (r: Vec<CookieData>)
    ensures
        cookie_views(r@) == cookies_spec(split_on(header@, ';')),
{
    let parts = split_char(&chars_of(header), ';');
    let eq = chars_of("=");
    proof {
        reveal_strlit("=");
    }
    let mut out: Vec<CookieData> = Vec::new();
    let mut i: usize = 0;
    assert(cookie_views(out@) =~= cookies_spec(views(parts@).take(0)));
    while i < parts.len()
        invariant
            0 <= i <= parts.len(),
            views(parts@) == split_on(header@, ';'),
            eq@ == "="@,
            eq@.len() == 1,
            cookie_views(out@) == cookies_spec(views(parts@).take(i as int)),
        decreases parts.len() - i,
    {
        proof {
            assert(views(parts@).take(i + 1).drop_last() =~= views(parts@).take(i as int));
            assert(views(parts@).take(i + 1).last() == parts@[i as int]@);
        }
        let t = trim_ws(&parts[i]);
        match crate::text::find_at_or_after(&t, &eq, 0) {
            Some(k) => {
                proof {
                    crate::text::lemma_find_from_some(t@, eq@, 0);
                }
                assert(crate::text::occurs_at(t@, eq@, k as int));
                assert(k + 1 <= t.len());
                let name = slice_of(&t, 0, k);
                let value = slice_of(&t, k + 1, t.len());
                assert(name@ =~= t@.take(k as int));
                assert(value@ =~= t@.skip(k + 1));
                let item = CookieData { name: string_of(&name), value: string_of(&value) };
                let ghost before = out@;
                out.push(item);
                assert(cookie_views(out@) =~= cookie_views(before).push((item.name@, item.value@)));
            },
            None => {},
        }
        i += 1;
    }
    assert(views(parts@).take(parts.len() as int) =~= views(parts@));
    out
}

/// The value of the first cookie called `name`.
pub open spec fn cookie_value(c: Seq<CookieData>, name: Seq<char>) -> Option<Seq<char>>
    decreases c.len(),
{
    if c.len() == 0 {
        None
    } else if c[0].name@ == name {
        Some(c[0].value@)
    } else {
        cookie_value(c.drop_first(), name)
    }
}

/// The value of the first cookie called `name`, if any.
pub fn cookie(cookies: &Vec<CookieData>, name: &str) -> (r: Option<String>)
    ensures
        match cookie_value(cookies@, name@) {
            Some(v) => r matches Some(s) && s@ == v,
            None => r is None,
        },
{
    let n = chars_of(name);
    let mut i: usize = 0;
    assert(cookies@.skip(0) =~= cookies@);
    while i < cookies.len()
        invariant
            0 <= i <= cookies.len(),
            n@ == name@,
            cookie_value(cookies@, name@) == cookie_value(cookies@.skip(i as int), name@),
        decreases cookies.len() - i,
    {
        assert(cookies@.skip(i as int)[0] == cookies@[i as int]);
        assert(cookies@.skip(i as int).drop_first() =~= cookies@.skip(i + 1));
        if same(&chars_of(cookies[i].name.as_str()), &n) {
            return Some(cookies[i].value.clone());
        }
        i += 1;
    }
    None
}

/// The panel's public key: the `panel_public_key` cookie, percent-decoded, then Base64
/// decoded, read as UTF-8 text.
pub open spec fn public_key_spec(cookies: Seq<CookieData>) -> Result<Seq<char>, ClientError> {
    match cookie_value(cookies, "panel_public_key"@) {
        None => Err(ClientError::NoPublicKey),
        Some(raw) => match url_decode_spec(raw) {
            Err(e) => Err(ClientError::BadKeyEncoding(e)),
            Ok(decoded) => match b64_decoded(encode_utf8(decoded)) {
                None => Err(ClientError::BadKeyBase64),
                Some(pem) => if valid_utf8(pem) {
                    Ok(decode_utf8(pem))
                } else {
                    Err(ClientError::BadKeyText)
                },
            },
        },
    }
}

/// The PEM text of the panel's RSA public key (see `public_key_spec`).
pub fn public_key_pem(cookies: &Vec<CookieData>) -> (r: Result<String, ClientError>)
    ensures
        match public_key_spec(cookies@) {
            Ok(pem) => r matches Ok(s) && s@ == pem,
            Err(ClientError::NoPublicKey) => r matches Err(ClientError::NoPublicKey),
            Err(ClientError::BadKeyEncoding(e)) => r matches Err(ClientError::BadKeyEncoding(f)) && f == e,
            Err(ClientError::BadKeyBase64) => r matches Err(ClientError::BadKeyBase64),
            Err(ClientError::BadKeyText) => r matches Err(ClientError::BadKeyText),
        },
{
    let raw = match cookie(cookies, "panel_public_key") {
        Some(v) => v,
        None => return Err(ClientError::NoPublicKey),
    };
    let decoded = match url_decode(raw.as_str()) {
        Ok(d) => d,
        Err(e) => return Err(ClientError::BadKeyEncoding(e)),
    };
    let pem = match b64_decode_bytes(decoded.as_str().as_bytes()) {
        Some(b) => b,
        None => return Err(ClientError::BadKeyBase64),
    };
    match utf8_decode(pem) {
        Some(t) => Ok(t),
        None => Err(ClientError::BadKeyText),
    }
}

} // verus!
