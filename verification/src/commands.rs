//! The session commands (status, info) and the raw API call: API paths, what the status
//! and info commands report.
use vstd::prelude::*;
use crate::session::{CookieData, Session};
use crate::text::{
    char_pred, chars_of, drop_lead, join, join_with, prefix_of, push_all, starts_with, string_of,
    trim_start_char, views, blank, is_blank,
};

verus! {

broadcast use vstd::string::group_string_axioms;

/// The HTTP method of `api call`.
#[derive(Debug, PartialEq, Eq, Structural, Clone, Copy)]
pub enum ApiMethod {
    Get,
    Post,
    Put,
    Delete,
}

/// An API path as the client sends it: no leading `/`, under `api/v2/`.
pub open spec fn api_path_spec(path: Seq<char>) -> Seq<char> {
    let p = drop_lead(path, char_pred('/'));
    if prefix_of("api/v2/"@, p) {
        p
    } else {
        "api/v2/"@ + p
    }
}

pub fn normalize_api_path(path: &str) -> (r: String)
    ensures
        r@ == api_path_spec(path@),
{
    let p = trim_start_char(&chars_of(path), '/');
    if starts_with(&p, &chars_of("api/v2/")) {
        string_of(&p)
    } else {
        let mut out = chars_of("api/v2/");
        push_all(&mut out, &p);
        string_of(&out)
    }
}

/// Whether `api call` sends a JSON body: only a body that is not blank (it must then be
/// valid JSON); otherwise `null`.
pub fn has_body(body: Option<&str>) -> (r: bool)
    ensures
        r == (body matches Some(b) && !is_blank(b@)),
{
    match body {
        Some(b) => !blank(&chars_of(b)),
        None => false,
    }
}

/// How the panel is named in the status line: `name (url)`, or the URL when the panel
/// has no name.
pub open spec fn panel_label(s: Session) -> Seq<char> {
    if s.panel_name@.len() == 0 {
        s.panel_url@
    } else {
        s.panel_name@ + " ("@ + s.panel_url@ + ")"@
    }
}

/// The status report: logged in (with the panel's user name, falling back to the saved
/// one, and role), or the session has expired (with the panel's code and message).
pub open spec fn status_spec(s: Session, code: i64, name: Option<Seq<char>>, role: Seq<char>, message: Seq<char>) -> Seq<Seq<char>> {
    if code == 200 {
        seq![
            "已登录: "@ + (match name {
                Some(n) => n,
                None => s.username@,
            }) + " 角色: "@ + role + " 面板: "@ + panel_label(s),
        ]
    } else {
        seq![
            "会话已失效 (code="@ + crate::text::int_dec(code as int) + ", message="@ + message + ")"@,
            "请重新运行 login 命令登录。"@,
        ]
    }
}

/// The lines of `status`, from the reply to `auth/current` (its code, -1 when missing).
pub fn status(session: &Session, code: i64, name: Option<&str>, role: &str, message: &str) -> (r: Vec<String>)
    ensures
        r@.map_values(|l: String| l@) == status_spec(
            *session,
            code,
            match name {
                Some(n) => Some(n@),
                None => None,
            },
            role@,
            message@,
        ),
{
    let mut lines: Vec<String> = Vec::new();
    if code == 200 {
        let mut l = chars_of("已登录: ");
        match name {
            Some(n) => push_all(&mut l, &chars_of(n)),
            None => push_all(&mut l, &chars_of(session.username.as_str())),
        }
        push_all(&mut l, &chars_of(" 角色: "));
        push_all(&mut l, &chars_of(role));
        push_all(&mut l, &chars_of(" 面板: "));
        if chars_of(session.panel_name.as_str()).len() == 0 {
            push_all(&mut l, &chars_of(session.panel_url.as_str()));
        } else {
            push_all(&mut l, &chars_of(session.panel_name.as_str()));
            push_all(&mut l, &chars_of(" ("));
            push_all(&mut l, &chars_of(session.panel_url.as_str()));
            push_all(&mut l, &chars_of(")"));
        }
        assert(l@ =~= "已登录: "@ + (match name {
            Some(n) => n@,
            None => session.username@,
        }) + " 角色: "@ + role@ + " 面板: "@ + panel_label(*session));
        lines.push(string_of(&l));
    } else {
        let mut l = chars_of("会话已失效 (code=");
        push_all(&mut l, &crate::text::dec_i64(code));
        push_all(&mut l, &chars_of(", message="));
        push_all(&mut l, &chars_of(message));
        push_all(&mut l, &chars_of(")"));
        assert(l@ =~= "会话已失效 (code="@ + crate::text::int_dec(code as int) + ", message="@ + message@
            + ")"@);
        lines.push(string_of(&l));
        lines.push("请重新运行 login 命令登录。".to_owned());
    }
    assert(lines@.map_values(|l: String| l@) =~= status_spec(
        *session,
        code,
        match name {
            Some(n) => Some(n@),
            None => None,
        },
        role@,
        message@,
    ));
    lines
}

pub open spec fn cookie_names(c: Seq<CookieData>) -> Seq<Seq<char>> {
    c.map_values(|x: CookieData| x.name@)
}

/// The lines of `info`: the saved session, the names (not the values) of its cookies, and
/// the file it is kept in.
pub open spec fn info_spec(s: Session, file: Seq<char>) -> Seq<Seq<char>> {
    seq![
        "profile     : "@ + s.profile@,
        "面板地址    : "@ + s.panel_url@,
        "安全入口    : "@ + (if s.entrance@.len() == 0 {
            "(未启用)"@
        } else {
            s.entrance@
        }),
        "用户名      : "@ + s.username@,
        "面板名称    : "@ + s.panel_name@,
        "登录时间    : "@ + s.logged_in_at@,
        "凭据 cookies: "@ + join(cookie_names(s.cookies@), ", "@) + " (值已隐藏)"@,
        "凭据文件    : "@ + file,
    ]
}

fn line2(a: &str, b: &str) -> (r: String)
    ensures
        r@ == a@ + b@,
{
    let mut l = chars_of(a);
    push_all(&mut l, &chars_of(b));
    string_of(&l)
}

pub fn info(session: &Session, session_file: &str) -> (r: Vec<String>)
    ensures
        r@.map_values(|l: String| l@) == info_spec(*session, session_file@),
{
    let mut lines: Vec<String> = Vec::new();
    lines.push(line2("profile     : ", session.profile.as_str()));
    lines.push(line2("面板地址    : ", session.panel_url.as_str()));
    if chars_of(session.entrance.as_str()).len() == 0 {
        lines.push(line2("安全入口    : ", "(未启用)"));
    } else {
        lines.push(line2("安全入口    : ", session.entrance.as_str()));
    }
    lines.push(line2("用户名      : ", session.username.as_str()));
    lines.push(line2("面板名称    : ", session.panel_name.as_str()));
    lines.push(line2("登录时间    : ", session.logged_in_at.as_str()));
    let mut names: Vec<Vec<char>> = Vec::new();
    let mut i: usize = 0;
    while i < session.cookies.len()
        invariant
            0 <= i <= session.cookies.len(),
            views(names@) == cookie_names(session.cookies@.take(i as int)),
        decreases session.cookies.len() - i,
    {
        let ghost before = names@;
        let n = chars_of(session.cookies[i].name.as_str());
        names.push(n);
        assert(views(names@) =~= views(before).push(n@));
        assert(cookie_names(session.cookies@.take(i + 1)) =~= cookie_names(
            session.cookies@.take(i as int),
        ).push(session.cookies@[i as int].name@));
        i += 1;
    }
    assert(session.cookies@.take(session.cookies.len() as int) =~= session.cookies@);
    let mut l = chars_of("凭据 cookies: ");
    push_all(&mut l, &join_with(&names, &chars_of(", ")));
    push_all(&mut l, &chars_of(" (值已隐藏)"));
    lines.push(string_of(&l));
    lines.push(line2("凭据文件    : ", session_file));
    assert(lines@.map_values(|l: String| l@) =~= info_spec(*session, session_file@));
    lines
}


/// A `KEY=VALUE` argument: split at the first `=`, both sides trimmed; none without `=`.
pub open spec fn kv_spec(s: Seq<char>) -> Option<(Seq<char>, Seq<char>)> {
    match crate::text::find_from(s, "="@, 0) {
        Some(k) => Some((crate::text::ws_trim(s.take(k)), crate::text::ws_trim(s.skip(k + 1)))),
        None => None,
    }
}

/// Reads a `KEY=VALUE` argument (see `kv_spec`).
pub fn parse_kv(s: &str) -> (r: Option<(String, String)>)
    ensures
        match kv_spec(s@) {
            Some((k, v)) => r matches Some((a, b)) && a@ == k && b@ == v,
            None => r is None,
        },
{
    let t = chars_of(s);
    let eq = chars_of("=");
    proof {
        reveal_strlit("=");
    }
    match crate::text::find_at_or_after(&t, &eq, 0) {
        Some(k) => {
            proof {
                crate::text::lemma_find_from_some(t@, eq@, 0);
            }
            assert(crate::text::occurs_at(t@, eq@, k as int));
            let key = crate::text::slice_of(&t, 0, k);
            let value = crate::text::slice_of(&t, k + 1, t.len());
            assert(key@ =~= t@.take(k as int));
            assert(value@ =~= t@.skip(k + 1));
            Some((string_of(&crate::text::trim_ws(&key)), string_of(&crate::text::trim_ws(&value))))
        },
        None => None,
    }
}

} // verus!
