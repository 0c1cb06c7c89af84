//! Logging in to the panel: the decisions of the login exchange (captcha, login body,
//! security entrance, MFA) and the session that a successful login saves, with its
//! timestamp in UTC.
use vstd::prelude::*;
use crate::codec::{b64_encode, b64_of_str};
use crate::config::{opt_view, PanelConfig};
use crate::session::{CookieData, Session};
use crate::text::{chars_of, dec, push_all, split_on, string_of, split_char, views, copy_chars, same};

verus! {

broadcast use vstd::string::group_string_axioms;

#[derive(Debug)]
pub enum AuthError {
    /// The panel answered with a code other than 200 (the code and message).
    Panel(i64, String),
    /// The login itself was refused (the code and message).
    LoginRefused(i64, String),
    /// A captcha is required but cannot be asked for here.
    CaptchaNeedsTerminal,
    /// The captcha image is not a data URL.
    BadCaptchaImage,
    /// No captcha answer was typed.
    NoCaptchaAnswer,
    /// MFA is on but no code was given and none can be asked for.
    MfaNeedsCode,
    /// The captcha image's data is not Base64.
    BadCaptchaData,
}

/// Accepts a panel reply with code 200.
pub fn check_code(code: i64, message: &str) -> (r: Result<(), AuthError>)
    ensures
        code == 200 <==> r is Ok,
        r matches Err(AuthError::Panel(c, m)) ==> c == code && m@ == message@,
{
    if code != 200 {
        return Err(AuthError::Panel(code, message.to_owned()));
    }
    Ok(())
}

/// `a / b` rounded down, for a positive `b`.
fn floor_div(a: i64, b: i64) -> (r: i64)
    requires
        b > 0,
    ensures
        r == a / b,
{
    if a >= 0 {
        let q = (a as u64) / (b as u64);
        assert(q == a / b);
        q as i64
    } else {
        let n: u64 = (-(a + 1)) as u64;
        let q: u64 = n / (b as u64);
        assert(q * b <= n < q * b + b) by (nonlinear_arith)
            requires
                q == n / (b as u64),
                b > 0,
        ;
        assert((-(q as int) - 1) * b <= a < (-(q as int) - 1) * b + b) by (nonlinear_arith)
            requires
                q * b <= n < q * b + b,
                n == -(a + 1),
        ;
        proof {
            vstd::arithmetic::div_mod::lemma_fundamental_div_mod_converse(
                a as int,
                b as int,
                -(q as int) - 1,
                a - (-(q as int) - 1) * b,
            );
        }
        -(q as i64) - 1
    }
}

/// The proleptic Gregorian date `z` days after 1970-01-01 (year, month, day), by the
/// civil-from-days algorithm of H. Hinnant: days are counted in 400-year eras of 146097
/// days, years starting in March.
pub open spec fn civil_spec(z: int) -> (int, int, int) {
    let zz = z + 719468;
    let era = zz / 146097;
    let doe = zz - era * 146097;
    let yoe = (doe - doe / 1460 + doe / 36524 - doe / 146096) / 365;
    let y = yoe + era * 400;
    let doy = doe - (365 * yoe + yoe / 4 - yoe / 100);
    let mp = (5 * doy + 2) / 153;
    let d = doy - (153 * mp + 2) / 5 + 1;
    let m = if mp < 10 {
        mp + 3
    } else {
        mp - 9
    };
    (if m <= 2 {
        y + 1
    } else {
        y
    }, m, d)
}

/// Days since 1970-01-01 of a date (the inverse direction of the same algorithm).
pub open spec fn days_from_civil(y: int, m: int, d: int) -> int {
    let y2 = if m <= 2 {
        y - 1
    } else {
        y
    };
    let era = y2 / 400;
    let yoe = y2 - era * 400;
    let mp = if m > 2 {
        m - 3
    } else {
        m + 9
    };
    let doy = (153 * mp + 2) / 5 + d - 1;
    let doe = yoe * 365 + yoe / 4 - yoe / 100 + doy;
    era * 146097 + doe - 719468
}

/// The date `z` days after 1970-01-01: a valid calendar date from which `days_from_civil`
/// counts back to `z`.
pub fn civil_from_days(z: i64) -> (r: (i64, i64, i64))
    requires
        z <= i64::MAX - 719468,
    ensures
        (r.0 as int, r.1 as int, r.2 as int) == civil_spec(z as int),
        days_from_civil(r.0 as int, r.1 as int, r.2 as int) == z,
        1 <= r.1 <= 12,
        1 <= r.2 <= month_days(r.0 as int, r.1 as int),
{
    proof {
        law_civil_roundtrip(z as int);
    }
    let zz = z + 719468;
    let era = floor_div(zz, 146097);
    assert(0 <= zz - era * 146097 < 146097) by (nonlinear_arith)
        requires
            era == zz / 146097,
    ;
    let doe = zz - era * 146097;
    let yoe = floor_div(doe - floor_div(doe, 1460) + floor_div(doe, 36524) - floor_div(doe, 146096), 365);
    assert(-10 <= yoe <= 500) by (nonlinear_arith)
        requires
            0 <= doe < 146097,
            yoe == (doe - doe / 1460 + doe / 36524 - doe / 146096) / 365,
    ;
    assert(-100000000000000 <= era <= 100000000000000) by (nonlinear_arith)
        requires
            era == zz / 146097,
            zz <= i64::MAX,
            zz >= i64::MIN + 719468,
    ;
    let y = yoe + era * 400;
    let doy = doe - (365 * yoe + floor_div(yoe, 4) - floor_div(yoe, 100));
    let mp = floor_div(5 * doy + 2, 153);
    assert(-100000 <= mp <= 100000) by (nonlinear_arith)
        requires
            -1000000 <= doy <= 1000000,
            mp == (5 * doy + 2) / 153,
    ;
    let d = doy - floor_div(153 * mp + 2, 5) + 1;
    let m = if mp < 10 {
        mp + 3
    } else {
        mp - 9
    };
    (if m <= 2 {
        y + 1
    } else {
        y
    }, m, d)
}

/// `k` zeros (none for `k <= 0`).
pub open spec fn zeros(k: int) -> Seq<char> {
    Seq::new(if k > 0 {
        k as nat
    } else {
        0
    }, |i: int| '0')
}

/// `format!("{:0w$}", n)`: the decimal digits of `n` zero-padded to width `w`, the sign
/// (if any) first.
pub open spec fn pad0(n: int, w: int) -> Seq<char> {
    if n >= 0 {
        zeros(w - dec(n as nat).len()) + dec(n as nat)
    } else {
        seq!['-'] + zeros(w - 1 - dec((-n) as nat).len()) + dec((-n) as nat)
    }
}

fn push_zeros(out: &mut Vec<char>, k: usize)
    ensures
        final(out)@ == old(out)@ + zeros(k as int),
{
    let mut i: usize = 0;
    while i < k
        invariant
            0 <= i <= k,
            out@ == old(out)@ + zeros(i as int),
        decreases k - i,
    {
        out.push('0');
        i += 1;
        assert(zeros(i as int) =~= zeros(i - 1).push('0'));
    }
}

/// `n` zero-padded to width `w`.
pub fn pad_int(n: i64, w: usize) -> (r: Vec<char>)
    ensures
        r@ == pad0(n as int, w as int),
{
    let mut out: Vec<char> = Vec::new();
    if n >= 0 {
        let d = crate::text::dec_u64(n as u64);
        if d.len() < w {
            push_zeros(&mut out, w - d.len());
        } else {
            assert(zeros(w - d@.len()) =~= Seq::<char>::empty());
        }
        push_all(&mut out, &d);
    } else {
        let mag: u64 = ((-(n + 1)) as u64) + 1;
        let d = crate::text::dec_u64(mag);
        out.push('-');
        if w >= 1 && d.len() < w - 1 {
            push_zeros(&mut out, w - 1 - d.len());
        } else {
            assert(zeros(w - 1 - d@.len()) =~= Seq::<char>::empty());
        }
        push_all(&mut out, &d);
        assert(out@ =~= seq!['-'] + zeros(w - 1 - dec((-n) as nat).len()) + dec((-n) as nat));
    }
    out
}

/// The login time as the session records it: `YYYY-MM-DD HH:MM:SS (UTC)` for `secs`
/// seconds after the Unix epoch.
pub open spec fn time_text(secs: nat) -> Seq<char> {
    let (y, mo, d) = civil_spec((secs / 86400) as int);
    pad0(y, 4) + "-"@ + pad0(mo, 2) + "-"@ + pad0(d, 2) + " "@ + pad0((secs % 86400 / 3600) as int, 2)
        + ":"@ + pad0((secs % 3600 / 60) as int, 2) + ":"@ + pad0((secs % 60) as int, 2) + " (UTC)"@
}

/// Formats a Unix time in seconds (see `time_text`).
pub fn now_string(secs: u64) -> (r: String)
    ensures
        r@ == time_text(secs as nat),
{
    let (y, mo, d) = civil_from_days((secs / 86400) as i64);
    let mut out = pad_int(y, 4);
    push_all(&mut out, &chars_of("-"));
    push_all(&mut out, &pad_int(mo, 2));
    push_all(&mut out, &chars_of("-"));
    push_all(&mut out, &pad_int(d, 2));
    push_all(&mut out, &chars_of(" "));
    push_all(&mut out, &pad_int((secs % 86400 / 3600) as i64, 2));
    push_all(&mut out, &chars_of(":"));
    push_all(&mut out, &pad_int((secs % 3600 / 60) as i64, 2));
    push_all(&mut out, &chars_of(":"));
    push_all(&mut out, &pad_int((secs % 60) as i64, 2));
    push_all(&mut out, &chars_of(" (UTC)"));
    string_of(&out)
}

/// What to answer the captcha with.
pub enum CaptchaNext {
    /// This answer and captcha id.
    Use(String, String),
    /// Show the image and ask.
    Prompt,
}

pub open spec fn given(o: Option<String>) -> bool {
    o matches Some(s) && s@.len() > 0
}

/// Both captcha answer and id were given (non-empty): they are used without asking the
/// panel for a captcha.
pub fn captcha_given(captcha: &Option<String>, captcha_id: &Option<String>) -> (r: Option<(String, String)>)
    ensures
        given(*captcha) && given(*captcha_id) ==> (r matches Some((a, c)) && Some(a@) == opt_view(
            *captcha,
        ) && Some(c@) == opt_view(*captcha_id)),
        !(given(*captcha) && given(*captcha_id)) ==> r is None,
{
    match (captcha, captcha_id) {
        (Some(a), Some(c)) => {
            if chars_of(a.as_str()).len() > 0 && chars_of(c.as_str()).len() > 0 {
                Some((a.clone(), c.clone()))
            } else {
                None
            }
        },
        _ => None,
    }
}

/// After fetching a captcha: a given answer goes with the fetched id; otherwise the user
/// is asked, which needs an interactive terminal.
pub fn captcha_answer(captcha: &Option<String>, fetched_id: &str, interactive: bool) -> (r: Result<CaptchaNext, AuthError>)
    ensures
        given(*captcha) ==> (r matches Ok(CaptchaNext::Use(a, c)) && Some(a@) == opt_view(*captcha)
            && c@ == fetched_id@),
        !given(*captcha) && !interactive ==> r matches Err(AuthError::CaptchaNeedsTerminal),
        !given(*captcha) && interactive ==> r matches Ok(CaptchaNext::Prompt),
{
    match captcha {
        Some(a) => {
            if chars_of(a.as_str()).len() > 0 {
                return Ok(CaptchaNext::Use(a.clone(), fetched_id.to_owned()));
            }
        },
        None => {},
    }
    if !interactive {
        return Err(AuthError::CaptchaNeedsTerminal);
    }
    Ok(CaptchaNext::Prompt)
}

/// The PNG of a captcha image given as a data URL: the Base64 after the first `,`.
pub fn captcha_png(image_path: &str) -> (r: Result<Vec<u8>, AuthError>)
    ensures
        split_on(image_path@, ',').len() < 2 ==> r matches Err(AuthError::BadCaptchaImage),
        split_on(image_path@, ',').len() >= 2 ==> match crate::codec::b64_decoded(
            vstd::utf8::encode_utf8(split_on(image_path@, ',')[1]),
        ) {
            Some(b) => r matches Ok(v) && v@ == b,
            None => r matches Err(AuthError::BadCaptchaData),
        },
{
    let parts = split_char(&chars_of(image_path), ',');
    if parts.len() < 2 {
        return Err(AuthError::BadCaptchaImage);
    }
    assert(views(parts@)[1] == parts@[1]@);
    let data = string_of(&copy_chars(&parts[1]));
    match crate::codec::b64_decode_bytes(data.as_str().as_bytes()) {
        Some(b) => Ok(b),
        None => Err(AuthError::BadCaptchaData),
    }
}

/// The typed captcha answer (already trimmed) with the fetched id; an empty one is
/// refused.
pub fn prompted_captcha(answer: &str, captcha_id: &str) -> (r: Result<(String, String), AuthError>)
    ensures
        answer@.len() == 0 ==> r matches Err(AuthError::NoCaptchaAnswer),
        answer@.len() > 0 ==> (r matches Ok((a, c)) && a@ == answer@ && c@ == captcha_id@),
{
    if chars_of(answer).len() == 0 {
        return Err(AuthError::NoCaptchaAnswer);
    }
    Ok((answer.to_owned(), captcha_id.to_owned()))
}

/// The body of the login request.
pub struct LoginBody {
    pub name: String,
    pub password: String,
    pub captcha: String,
    pub captcha_id: String,
    pub language: String,
    pub auth_source: String,
}

/// The login request of `cfg`'s user with the encrypted password and captcha; the
/// account is local.
pub fn login_body(cfg: &PanelConfig, encrypted_password: &str, captcha: &str, captcha_id: &str) -> (r: LoginBody)
    ensures
        r.name@ == cfg.username@,
        r.password@ == encrypted_password@,
        r.captcha@ == captcha@,
        r.captcha_id@ == captcha_id@,
        r.language@ == cfg.language@,
        r.auth_source@ == "local"@,
{
    LoginBody {
        name: cfg.username.clone(),
        password: encrypted_password.to_owned(),
        captcha: captcha.to_owned(),
        captcha_id: captcha_id.to_owned(),
        language: cfg.language.clone(),
        auth_source: "local".to_owned(),
    }
}

/// The `EntranceCode` header of the login requests: the security entrance in Base64, none
/// without an entrance.
pub fn entrance_code(entrance: &str) -> (r: Option<String>)
    ensures
        entrance@.len() == 0 ==> r is None,
        entrance@.len() > 0 ==> (r matches Some(h) && h@ == b64_encode(
            vstd::utf8::encode_utf8(entrance@),
        )),
{
    if chars_of(entrance).len() == 0 {
        None
    } else {
        Some(b64_of_str(entrance))
    }
}

/// Accepts the reply of a login request (code 200), else the refusal.
pub fn login_check(code: i64, message: &str) -> (r: Result<(), AuthError>)
    ensures
        code == 200 <==> r is Ok,
        r matches Err(e) ==> (e matches AuthError::LoginRefused(c, m) && c == code && m@ == message@),
{
    if code != 200 {
        return Err(AuthError::LoginRefused(code, message.to_owned()));
    }
    Ok(())
}

/// The second login step.
pub enum MfaNext {
    /// MFA is off: the login is complete.
    Skip,
    /// Send this code.
    Use(String),
    /// Ask for the code.
    Prompt,
}

/// After the first login step: with MFA enabled the configured code is sent, or asked
/// for on an interactive terminal.
pub fn mfa_step(mfa_status: &str, mfa_code: &Option<String>, interactive: bool) -> (r: Result<MfaNext, AuthError>)
    ensures
        mfa_status@ != "Enable"@ ==> r matches Ok(MfaNext::Skip),
        mfa_status@ == "Enable"@ && given(*mfa_code) ==> (r matches Ok(MfaNext::Use(c)) && Some(c@)
            == opt_view(*mfa_code)),
        mfa_status@ == "Enable"@ && !given(*mfa_code) && !interactive ==> r matches Err(
            AuthError::MfaNeedsCode,
        ),
        mfa_status@ == "Enable"@ && !given(*mfa_code) && interactive ==> r matches Ok(MfaNext::Prompt),
{
    if !same(&chars_of(mfa_status), &chars_of("Enable")) {
        return Ok(MfaNext::Skip);
    }
    match mfa_code {
        Some(c) => {
            if chars_of(c.as_str()).len() > 0 {
                return Ok(MfaNext::Use(c.clone()));
            }
        },
        None => {},
    }
    if !interactive {
        return Err(AuthError::MfaNeedsCode);
    }
    Ok(MfaNext::Prompt)
}

pub open spec fn cookie_views(c: Seq<CookieData>) -> Seq<(Seq<char>, Seq<char>)> {
    c.map_values(|x: CookieData| (x.name@, x.value@))
}

fn copy_cookies(c: &Vec<CookieData>) -> (r: Vec<CookieData>)
    ensures
        cookie_views(r@) == cookie_views(c@),
{
    let mut out: Vec<CookieData> = Vec::new();
    let mut i: usize = 0;
    while i < c.len()
        invariant
            0 <= i <= c.len(),
            cookie_views(out@) == cookie_views(c@.take(i as int)),
        decreases c.len() - i,
    {
        let ghost before = out@;
        let item = CookieData { name: c[i].name.clone(), value: c[i].value.clone() };
        out.push(item);
        assert(cookie_views(out@) =~= cookie_views(before).push((item.name@, item.value@)));
        assert(c@.take(i + 1) =~= c@.take(i as int).push(c@[i as int]));
        assert(cookie_views(c@.take(i + 1)) =~= cookie_views(c@.take(i as int)).push(
            (c@[i as int].name@, c@[i as int].value@),
        ));
        i += 1;
    }
    assert(c@.take(c.len() as int) =~= c@);
    out
}

/// The session that a successful login saves.
pub fn login_session(
    profile: &str,
    panel_url: &str,
    cfg: &PanelConfig,
    panel_name: &str,
    logged_in_at: &str,
    cookies: &Vec<CookieData>,
) -> (r: Session)
    ensures
        r.profile@ == profile@,
        r.panel_url@ == panel_url@,
        r.entrance@ == cfg.entrance@,
        r.username@ == cfg.username@,
        r.panel_name@ == panel_name@,
        r.logged_in_at@ == logged_in_at@,
        r.insecure == cfg.insecure,
        cookie_views(r.cookies@) == cookie_views(cookies@),
{
    Session {
        profile: profile.to_owned(),
        panel_url: panel_url.to_owned(),
        entrance: cfg.entrance.clone(),
        username: cfg.username.clone(),
        panel_name: panel_name.to_owned(),
        logged_in_at: logged_in_at.to_owned(),
        insecure: cfg.insecure,
        cookies: copy_cookies(cookies),
    }
}

proof fn lemma_era_year(doe: int)
    requires
        0 <= doe <= 146096,
    ensures
        0 <= (doe - doe / 1460 + doe / 36524 - doe / 146096) / 365 <= 399,
{
    let a = doe / 1460;
    let b = doe / 36524;
    let c = doe / 146096;
    assert(0 <= b <= a);
    assert(c == 0 || doe == 146096);
    let f = doe - a + b - c;
    assert(0 <= f);
    assert(f < 146000) by {
        if doe < 146000 {
            assert(f <= doe);
        } else if doe < 146096 {
            assert(a == 100);
            assert(b == 3);
        } else {
            assert(a == 100 && b == 4 && c == 1);
        }
    }
}

#[verifier::rlimit(50)]
proof fn lemma_era_day(doe: int)
    requires
        0 <= doe <= 146096,
    ensures
        ({
            let yoe = (doe - doe / 1460 + doe / 36524 - doe / 146096) / 365;
            let doy = doe - (365 * yoe + yoe / 4 - yoe / 100);
            0 <= doy <= 365
        }),
{
    lemma_era_year(doe);
}

/// Gregorian leap years.
pub open spec fn is_leap(y: int) -> bool {
    y % 4 == 0 && (y % 100 != 0 || y % 400 == 0)
}

/// The number of days in month `m` of year `y`.
pub open spec fn month_days(y: int, m: int) -> int {
    if m == 2 {
        if is_leap(y) {
            29
        } else {
            28
        }
    } else if m == 4 || m == 6 || m == 9 || m == 11 {
        30
    } else {
        31
    }
}

/// The date of a day count is a real calendar date (month 1..=12, day within the month,
/// leap years included), and counting the days back from it gives the count again:
/// `days_from_civil` undoes `civil_spec`.
#[verifier::rlimit(50)]
pub proof fn law_civil_roundtrip(z: int)
    ensures
        ({
            let (y, m, d) = civil_spec(z);
            &&& days_from_civil(y, m, d) == z
            &&& 1 <= m <= 12
            &&& 1 <= d <= month_days(y, m)
        }),
{
    let zz = z + 719468;
    let era = zz / 146097;
    let doe = zz - era * 146097;
    assert(0 <= doe < 146097) by (nonlinear_arith)
        requires
            era == zz / 146097,
            doe == zz - era * 146097,
    ;
    lemma_era_year(doe);
    lemma_era_day(doe);
    lemma_era_leap_day(doe);
    let yoe = (doe - doe / 1460 + doe / 36524 - doe / 146096) / 365;
    let doy = doe - (365 * yoe + yoe / 4 - yoe / 100);
    let mp = (5 * doy + 2) / 153;
    assert(0 <= mp <= 11);
    let d = doy - (153 * mp + 2) / 5 + 1;
    assert(1 <= d <= 31);
    let m = if mp < 10 {
        mp + 3
    } else {
        mp - 9
    };
    let y = yoe + era * 400;
    let y2 = if m <= 2 {
        (if m <= 2 {
            y + 1
        } else {
            y
        }) - 1
    } else {
        y
    };
    assert(y2 == yoe + era * 400);
    assert((yoe + era * 400) / 400 == era) by (nonlinear_arith)
        requires
            0 <= yoe <= 399,
    ;
    if mp == 11 && doy == 365 {
        let cy = yoe + 1 + era * 400;
        assert(cy % 4 == (yoe + 1) % 4 && cy % 100 == (yoe + 1) % 100 && cy % 400 == (yoe + 1) % 400)
            by (nonlinear_arith)
            requires
                cy == yoe + 1 + era * 400,
        ;
        assert(is_leap(cy));
    }
}

#[verifier::rlimit(80)]
proof fn lemma_era_leap_day(doe: int)
    requires
        0 <= doe <= 146096,
    ensures
        ({
            let yoe = (doe - doe / 1460 + doe / 36524 - doe / 146096) / 365;
            let doy = doe - (365 * yoe + yoe / 4 - yoe / 100);
            doy == 365 ==> (yoe + 1) % 4 == 0 && ((yoe + 1) % 100 != 0 || yoe == 399)
        }),
{
    lemma_era_year(doe);
    lemma_era_day(doe);
}

} // verus!
