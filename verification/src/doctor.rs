//! The environment check (`doctor`): eight steps, each judged from what the application
//! probed — the `.env` file, the configuration, the panel's reachability, the saved
//! session, the login, the panel version, the local SSH connection and password-less
//! sudo — and reported as a step line with its hints. A failed step makes the whole
//! check fail; the sudo step only warns.
use vstd::prelude::*;
use crate::config::{config_error_text, ConfigError, PanelConfig};
use crate::text::{chars_of, dec, dec_u64, int_dec, dec_i64, prefix_of, push_all, starts_with, string_of, trim_ws, ws_trim, same};

verus! {

broadcast use vstd::string::group_string_axioms;

/// The number of steps.
pub const TOTAL_STEPS: usize = 8;

/// How a step went.
#[derive(Debug, PartialEq, Eq, Structural, Clone, Copy)]
pub enum Mark {
    Pass,
    Fail,
    Warn,
    Skip,
    /// A progress note: the detail is the whole message.
    Note,
}

/// One reported step.
pub struct Report {
    pub step: usize,
    pub title: String,
    pub mark: Mark,
    pub detail: String,
    /// The hints printed under the step line.
    pub guidance: Vec<String>,
    /// Whether the step makes the whole check fail.
    pub failed: bool,
}

pub open spec fn lines_view(v: Seq<String>) -> Seq<Seq<char>> {
    v.map_values(|s: String| s@)
}

pub open spec fn report_is(r: Report, step: usize, title: Seq<char>, mark: Mark, detail: Seq<char>, guidance: Seq<Seq<char>>, failed: bool) -> bool {
    &&& r.step == step
    &&& r.title@ == title
    &&& r.mark == mark
    &&& r.detail@ == detail
    &&& lines_view(r.guidance@) == guidance
    &&& r.failed == failed
}

fn push_line(v: &mut Vec<String>, s: &str)
    ensures
        lines_view(final(v)@) == lines_view(old(v)@).push(s@),
{
    let ghost before = v@;
    v.push(s.to_owned());
    assert(lines_view(v@) =~= lines_view(before).push(s@));
}

fn push_text(v: &mut Vec<String>, s: Vec<char>)
    ensures
        lines_view(final(v)@) == lines_view(old(v)@).push(s@),
{
    let ghost before = v@;
    let t = string_of(&s);
    v.push(t);
    assert(lines_view(v@) =~= lines_view(before).push(s@));
}

fn report(step: usize, title: &str, mark: Mark, detail: Vec<char>, guidance: Vec<String>, failed: bool) -> (r: Report)
    ensures
        report_is(r, step, title@, mark, detail@, lines_view(guidance@), failed),
{
    Report { step, title: title.to_owned(), mark, detail: string_of(&detail), guidance, failed }
}

pub open spec fn mark_text(m: Mark) -> Seq<char> {
    match m {
        Mark::Pass => "通过"@,
        Mark::Fail => "失败"@,
        Mark::Warn => "警告"@,
        Mark::Skip => "跳过"@,
        Mark::Note => Seq::empty(),
    }
}

/// The printed form of a step: `[n/8] title ... mark (detail)` (for a note
/// `[n/8] title ... detail`), then each hint as `    - hint`.
pub open spec fn render_spec(r: Report) -> Seq<Seq<char>> {
    let head = "["@ + dec(r.step as nat) + "/"@ + dec(TOTAL_STEPS as nat) + "] "@ + r.title@ + " ... "@;
    let first = if r.mark == Mark::Note {
        head + r.detail@
    } else {
        head + mark_text(r.mark) + " ("@ + r.detail@ + ")"@
    };
    seq![first] + lines_view(r.guidance@).map_values(|l: Seq<char>| "    - "@ + l)
}

pub fn render(r: &Report) -> (out: Vec<String>)
    ensures
        lines_view(out@) == render_spec(*r),
{
    let mut first = chars_of("[");
    push_all(&mut first, &dec_u64(r.step as u64));
    push_all(&mut first, &chars_of("/"));
    push_all(&mut first, &dec_u64(TOTAL_STEPS as u64));
    push_all(&mut first, &chars_of("] "));
    push_all(&mut first, &chars_of(r.title.as_str()));
    push_all(&mut first, &chars_of(" ... "));
    match r.mark {
        Mark::Note => {
            push_all(&mut first, &chars_of(r.detail.as_str()));
        },
        _ => {
            let m = match r.mark {
                Mark::Pass => "通过",
                Mark::Fail => "失败",
                Mark::Warn => "警告",
                _ => "跳过",
            };
            push_all(&mut first, &chars_of(m));
            push_all(&mut first, &chars_of(" ("));
            push_all(&mut first, &chars_of(r.detail.as_str()));
            push_all(&mut first, &chars_of(")"));
        },
    }
    let mut out: Vec<String> = Vec::new();
    push_text(&mut out, first);
    let ghost head = lines_view(out@);
    let mut i: usize = 0;
    while i < r.guidance.len()
        invariant
            0 <= i <= r.guidance.len(),
            lines_view(out@) == head + lines_view(r.guidance@).take(i as int).map_values(
                |l: Seq<char>| "    - "@ + l,
            ),
        decreases r.guidance.len() - i,
    {
        let mut l = chars_of("    - ");
        push_all(&mut l, &chars_of(r.guidance[i].as_str()));
        push_text(&mut out, l);
        assert(lines_view(r.guidance@).take(i + 1) =~= lines_view(r.guidance@).take(i as int).push(
            r.guidance@[i as int]@,
        ));
        assert(lines_view(r.guidance@).take(i + 1).map_values(|l: Seq<char>| "    - "@ + l)
            =~= lines_view(r.guidance@).take(i as int).map_values(|l: Seq<char>| "    - "@ + l).push(
            "    - "@ + r.guidance@[i as int]@,
        ));
        i += 1;
    }
    assert(lines_view(r.guidance@).take(r.guidance.len() as int) =~= lines_view(r.guidance@));
    out
}

pub open spec fn env_guidance() -> Seq<Seq<char>> {
    seq![
        "在以下位置创建 .env 文件:"@,
        "  1) 当前目录 ./.env"@,
        "  2) 可执行文件所在目录 ./.env"@,
        "  3) 或通过 --env <路径> 显式指定"@,
        "可参考项目中的 .env.example 模板。"@,
    ]
}

/// Step 1: the `.env` file that was found, if any.
pub fn env_file_step(path: Option<&str>) -> (r: Report)
    ensures
        match path {
            Some(p) => report_is(r, 1, ".env 配置文件"@, Mark::Pass, p@, Seq::empty(), false),
            None => report_is(r, 1, ".env 配置文件"@, Mark::Fail, "未找到"@, env_guidance(), true),
        },
{
    let mut g: Vec<String> = Vec::new();
    match path {
        Some(p) => {
            assert(lines_view(g@) =~= Seq::<Seq<char>>::empty());
            report(1, ".env 配置文件", Mark::Pass, chars_of(p), g, false)
        },
        None => {
            push_line(&mut g, "在以下位置创建 .env 文件:");
            push_line(&mut g, "  1) 当前目录 ./.env");
            push_line(&mut g, "  2) 可执行文件所在目录 ./.env");
            push_line(&mut g, "  3) 或通过 --env <路径> 显式指定");
            push_line(&mut g, "可参考项目中的 .env.example 模板。");
            assert(lines_view(g@) =~= env_guidance());
            report(1, ".env 配置文件", Mark::Fail, chars_of("未找到"), g, true)
        },
    }
}

pub open spec fn config_guidance() -> Seq<Seq<char>> {
    seq![
        "缺少环境变量: PANEL_URL / PANEL_USERNAME / PANEL_PASSWORD"@,
        "在 .env 中添加,例如:"@,
        "  PANEL_URL=http://10.0.0.1:41394"@,
        "  PANEL_USERNAME=admin"@,
        "  PANEL_PASSWORD=your_password"@,
    ]
}

/// Step 2 in the summary form: `URL=..., USER=..., ENTRANCE=...` (`(无)` without an
/// entrance).
pub open spec fn config_detail(c: PanelConfig) -> Seq<char> {
    "URL="@ + c.url@ + ", USER="@ + c.username@ + ", ENTRANCE="@ + (if c.entrance@.len() == 0 {
        "(无)"@
    } else {
        c.entrance@
    })
}

/// Step 2: the configuration. An unreadable configuration fails and ends the check
/// (`stop`); a readable one passes when address, user name and password are all set.
pub fn config_step(cfg: &Result<PanelConfig, ConfigError>) -> (r: (Report, bool))
    ensures
        match cfg {
            Err(e) => report_is(r.0, 2, "配置项"@, Mark::Fail, config_error_text(*e), config_guidance(), true) && r.1,
            Ok(c) => {
                let ok = c.url@.len() > 0 && c.username@.len() > 0 && c.password@.len() > 0;
                report_is(
                    r.0,
                    2,
                    "配置项"@,
                    if ok {
                        Mark::Pass
                    } else {
                        Mark::Fail
                    },
                    config_detail(*c),
                    Seq::empty(),
                    !ok,
                ) && !r.1
            },
        },
{
    let mut g: Vec<String> = Vec::new();
    match cfg {
        Err(e) => {
            push_line(&mut g, "缺少环境变量: PANEL_URL / PANEL_USERNAME / PANEL_PASSWORD");
            push_line(&mut g, "在 .env 中添加,例如:");
            push_line(&mut g, "  PANEL_URL=http://10.0.0.1:41394");
            push_line(&mut g, "  PANEL_USERNAME=admin");
            push_line(&mut g, "  PANEL_PASSWORD=your_password");
            assert(lines_view(g@) =~= config_guidance());
            (report(2, "配置项", Mark::Fail, chars_of(e.message().as_str()), g, true), true)
        },
        Ok(c) => {
            let ok = chars_of(c.url.as_str()).len() > 0 && chars_of(c.username.as_str()).len() > 0
                && chars_of(c.password.as_str()).len() > 0;
            let mut d = chars_of("URL=");
            push_all(&mut d, &chars_of(c.url.as_str()));
            push_all(&mut d, &chars_of(", USER="));
            push_all(&mut d, &chars_of(c.username.as_str()));
            push_all(&mut d, &chars_of(", ENTRANCE="));
            if chars_of(c.entrance.as_str()).len() == 0 {
                push_all(&mut d, &chars_of("(无)"));
            } else {
                push_all(&mut d, &chars_of(c.entrance.as_str()));
            }
            assert(d@ =~= config_detail(*c));
            assert(lines_view(g@) =~= Seq::<Seq<char>>::empty());
            (report(2, "配置项", if ok {
                Mark::Pass
            } else {
                Mark::Fail
            }, d, g, !ok), false)
        },
    }
}

/// What the reachability probe gave.
pub enum Probe {
    /// The HTTP status, the reply's `code` (if it is JSON with one) and its body.
    Reply(u16, Option<i64>, String),
    /// The request failed (its error).
    Error(String),
}

pub open spec fn reach_guidance(status: u16, body: Seq<char>) -> Seq<Seq<char>> {
    seq![
        "面板返回异常状态: HTTP "@ + dec(status as nat) + ", body: "@ + body.take(if body.len() < 120 {
            body.len() as int
        } else {
            120
        }),
        "请检查:"@,
        "  1) PANEL_URL 是否正确(含端口与路径)并能在浏览器访问"@,
        "  2) 服务器网络/防火墙是否放行了该端口"@,
        "  3) 面板服务是否在运行(可执行 1pctl status 查看)"@,
    ]
}

pub open spec fn connect_guidance() -> Seq<Seq<char>> {
    seq![
        "无法连接面板地址,请检查:"@,
        "  1) PANEL_URL 格式是否为 http://IP:端口 或 https://域名"@,
        "  2) 目标主机是否可达(ping / curl 验证)"@,
        "  3) 面板端口是否放行;HTTPS 自签名证书需设置 PANEL_INSECURE=true"@,
    ]
}

/// Step 3: the panel answers its login settings with HTTP 200 and code 200.
pub fn reachability_step(probe: &Probe) -> (r: Report)
    ensures
        match probe {
            Probe::Reply(status, code, body) => {
                let ok = *status == 200 && *code == Some(200i64);
                report_is(
                    r,
                    3,
                    "面板地址连通性"@,
                    if ok {
                        Mark::Pass
                    } else {
                        Mark::Fail
                    },
                    "HTTP "@ + dec(*status as nat),
                    if ok {
                        Seq::empty()
                    } else {
                        reach_guidance(*status, body@)
                    },
                    !ok,
                )
            },
            Probe::Error(e) => report_is(r, 3, "面板地址"@, Mark::Fail, e@, connect_guidance(), true),
        },
{
    let mut g: Vec<String> = Vec::new();
    match probe {
        Probe::Reply(status, code, body) => {
            let ok = *status == 200 && match code {
                Some(c) => *c == 200,
                None => false,
            };
            let mut d = chars_of("HTTP ");
            push_all(&mut d, &dec_u64(*status as u64));
            if !ok {
                let b = chars_of(body.as_str());
                let n = if b.len() < 120 {
                    b.len()
                } else {
                    120
                };
                let mut first = chars_of("面板返回异常状态: HTTP ");
                push_all(&mut first, &dec_u64(*status as u64));
                push_all(&mut first, &chars_of(", body: "));
                let cut = crate::text::slice_of(&b, 0, n);
                assert(cut@ =~= body@.take(n as int));
                push_all(&mut first, &cut);
                push_text(&mut g, first);
                push_line(&mut g, "请检查:");
                push_line(&mut g, "  1) PANEL_URL 是否正确(含端口与路径)并能在浏览器访问");
                push_line(&mut g, "  2) 服务器网络/防火墙是否放行了该端口");
                push_line(&mut g, "  3) 面板服务是否在运行(可执行 1pctl status 查看)");
                assert(lines_view(g@) =~= reach_guidance(*status, body@));
            } else {
                assert(lines_view(g@) =~= Seq::<Seq<char>>::empty());
            }
            report(3, "面板地址连通性", if ok {
                Mark::Pass
            } else {
                Mark::Fail
            }, d, g, !ok)
        },
        Probe::Error(e) => {
            push_line(&mut g, "无法连接面板地址,请检查:");
            push_line(&mut g, "  1) PANEL_URL 格式是否为 http://IP:端口 或 https://域名");
            push_line(&mut g, "  2) 目标主机是否可达(ping / curl 验证)");
            push_line(&mut g, "  3) 面板端口是否放行;HTTPS 自签名证书需设置 PANEL_INSECURE=true");
            assert(lines_view(g@) =~= connect_guidance());
            report(3, "面板地址", Mark::Fail, chars_of(e.as_str()), g, true)
        },
    }
}

/// What was found of the saved session.
pub enum SessionCheck {
    /// No session is saved.
    NotSaved,
    /// The session belongs to another panel address (the saved address).
    OtherPanel(String),
    /// The saved cookies could not be loaded into a client.
    ClientFailed,
    /// The panel's reply about the current user: its code and user name.
    Reply(Option<i64>, Option<String>),
    /// The request failed (its error).
    Error(String),
}

pub open spec fn other_panel_guidance() -> Seq<Seq<char>> {
    seq!["会话与 .env 中的面板地址不匹配,将重新登录。"@, "如多个面板,请用 --profile 区分。"@]
}

pub open spec fn expired_guidance() -> Seq<Seq<char>> {
    seq!["会话已过期或被服务器注销,将尝试重新登录(见下一步)。"@]
}

/// Step 4: the saved session. A session of another panel, or one the panel no longer
/// accepts, fails; a missing one is skipped; unloadable cookies end the check.
pub fn session_step(check: &SessionCheck, cfg_url: &str) -> (r: (Report, bool))
    ensures
        match check {
            SessionCheck::NotSaved => report_is(r.0, 4, "已保存会话"@, Mark::Skip, "尚未登录,将直接登录"@, Seq::empty(), false) && !r.1,
            SessionCheck::OtherPanel(u) => report_is(
                r.0,
                4,
                "已保存会话"@,
                Mark::Fail,
                "会话地址 "@ + u@ + " 与配置地址 "@ + cfg_url@ + " 不一致"@,
                other_panel_guidance(),
                true,
            ) && !r.1,
            SessionCheck::ClientFailed => report_is(r.0, 4, "已保存会话"@, Mark::Fail, "凭据解析失败"@, Seq::empty(), false) && r.1,
            SessionCheck::Reply(code, name) => {
                let ok = *code == Some(200i64);
                report_is(
                    r.0,
                    4,
                    "已保存会话"@,
                    if ok {
                        Mark::Pass
                    } else {
                        Mark::Fail
                    },
                    "用户名 "@ + if ok {
                        match name {
                            Some(n) => n@,
                            None => "有效"@,
                        }
                    } else {
                        "会话已失效"@
                    },
                    if ok {
                        Seq::empty()
                    } else {
                        expired_guidance()
                    },
                    !ok,
                ) && !r.1
            },
            SessionCheck::Error(e) => report_is(r.0, 4, "已保存会话"@, Mark::Fail, e@, Seq::empty(), true) && !r.1,
        },
{
    let mut g: Vec<String> = Vec::new();
    assert(lines_view(g@) =~= Seq::<Seq<char>>::empty());
    match check {
        SessionCheck::NotSaved => (report(4, "已保存会话", Mark::Skip, chars_of("尚未登录,将直接登录"), g, false), false),
        SessionCheck::OtherPanel(u) => {
            let mut d = chars_of("会话地址 ");
            push_all(&mut d, &chars_of(u.as_str()));
            push_all(&mut d, &chars_of(" 与配置地址 "));
            push_all(&mut d, &chars_of(cfg_url));
            push_all(&mut d, &chars_of(" 不一致"));
            push_line(&mut g, "会话与 .env 中的面板地址不匹配,将重新登录。");
            push_line(&mut g, "如多个面板,请用 --profile 区分。");
            assert(lines_view(g@) =~= other_panel_guidance());
            (report(4, "已保存会话", Mark::Fail, d, g, true), false)
        },
        SessionCheck::ClientFailed => (report(4, "已保存会话", Mark::Fail, chars_of("凭据解析失败"), g, false), true),
        SessionCheck::Reply(code, name) => {
            let ok = match code {
                Some(c) => *c == 200,
                None => false,
            };
            let mut d = chars_of("用户名 ");
            if ok {
                match name {
                    Some(n) => push_all(&mut d, &chars_of(n.as_str())),
                    None => push_all(&mut d, &chars_of("有效")),
                }
            } else {
                push_all(&mut d, &chars_of("会话已失效"));
                push_line(&mut g, "会话已过期或被服务器注销,将尝试重新登录(见下一步)。");
                assert(lines_view(g@) =~= expired_guidance());
            }
            (report(4, "已保存会话", if ok {
                Mark::Pass
            } else {
                Mark::Fail
            }, d, g, !ok), false)
        },
        SessionCheck::Error(e) => (report(4, "已保存会话", Mark::Fail, chars_of(e.as_str()), g, true), false),
    }
}

/// Step 5 logs in again unless the saved session is valid (and `--force` was not given).
pub fn needs_login(session_ok: bool, force: bool) -> (r: bool)
    ensures
        r == (!session_ok || force),
{
    !session_ok || force
}

pub open spec fn login_guidance() -> Seq<Seq<char>> {
    seq![
        "请检查:"@,
        "  1) PANEL_USERNAME / PANEL_PASSWORD 是否正确"@,
        "  2) 若提示验证码:连续登录失败会触发验证码,请稍后重试或在面板清除限制"@,
        "  3) 若提示 ErrEntrance:PANEL_ENTRANCE 安全入口是否正确"@,
        "  4) 若开启 MFA:通过 PANEL_MFA_CODE 环境变量或 --mfa 参数提供动态验证码"@,
    ]
}

/// Step 5: the login check. Without a login (`login` is `None`) the valid session passes;
/// otherwise a forced login is announced, then the login's result is reported.
pub fn login_step(force: bool, login: &Option<Result<(), String>>) -> (r: Vec<Report>)
    ensures
        match login {
            None => r@.len() == 1 && report_is(
                r@[0],
                5,
                "登录验证"@,
                Mark::Pass,
                "会话有效,无需重新登录;可用 --force 强制验证凭据"@,
                Seq::empty(),
                false,
            ),
            Some(res) => {
                let k = if force {
                    1int
                } else {
                    0
                };
                &&& r@.len() == k + 1
                &&& force ==> report_is(r@[0], 5, "登录验证"@, Mark::Note, "使用 --force 强制重新登录以验证凭据"@, Seq::empty(), false)
                &&& match res {
                    Ok(_) => report_is(r@[k], 5, "登录验证"@, Mark::Pass, "登录成功,凭据已保存"@, Seq::empty(), false),
                    Err(e) => report_is(r@[k], 5, "登录验证"@, Mark::Fail, e@, login_guidance(), true),
                }
            },
        },
{
    let mut out: Vec<Report> = Vec::new();
    match login {
        None => {
            let g: Vec<String> = Vec::new();
            assert(lines_view(g@) =~= Seq::<Seq<char>>::empty());
            out.push(report(5, "登录验证", Mark::Pass, chars_of("会话有效,无需重新登录;可用 --force 强制验证凭据"), g, false));
        },
        Some(res) => {
            if force {
                let g: Vec<String> = Vec::new();
                assert(lines_view(g@) =~= Seq::<Seq<char>>::empty());
                out.push(report(5, "登录验证", Mark::Note, chars_of("使用 --force 强制重新登录以验证凭据"), g, false));
            }
            let mut g: Vec<String> = Vec::new();
            match res {
                Ok(_) => {
                    assert(lines_view(g@) =~= Seq::<Seq<char>>::empty());
                    out.push(report(5, "登录验证", Mark::Pass, chars_of("登录成功,凭据已保存"), g, false));
                },
                Err(e) => {
                    push_line(&mut g, "请检查:");
                    push_line(&mut g, "  1) PANEL_USERNAME / PANEL_PASSWORD 是否正确");
                    push_line(&mut g, "  2) 若提示验证码:连续登录失败会触发验证码,请稍后重试或在面板清除限制");
                    push_line(&mut g, "  3) 若提示 ErrEntrance:PANEL_ENTRANCE 安全入口是否正确");
                    push_line(&mut g, "  4) 若开启 MFA:通过 PANEL_MFA_CODE 环境变量或 --mfa 参数提供动态验证码");
                    assert(lines_view(g@) =~= login_guidance());
                    out.push(report(5, "登录验证", Mark::Fail, chars_of(e.as_str()), g, true));
                },
            }
        },
    }
    out
}

/// The panel versions this tool is built for: 2.x.
pub open spec fn compatible_version(v: Seq<char>) -> bool {
    prefix_of("v2."@, v) || prefix_of("2."@, v)
}

/// Step 6: the panel version (and edition), or why it could not be read.
pub fn version_step(version: &Result<(String, String), String>) -> (r: Report)
    ensures
        match version {
            Ok((v, ed)) => {
                let ok = compatible_version(v@);
                report_is(
                    r,
                    6,
                    "面板版本兼容性"@,
                    if ok {
                        Mark::Pass
                    } else {
                        Mark::Fail
                    },
                    v@ + " ("@ + ed@ + ");已验证基线 dev-v2"@,
                    if ok {
                        Seq::empty()
                    } else {
                        seq!["当前技能包面向 1Panel v2;请升级面板后再使用写操作。"@]
                    },
                    !ok,
                )
            },
            Err(e) => report_is(r, 6, "面板版本兼容性"@, Mark::Fail, e@, Seq::empty(), true),
        },
{
    let mut g: Vec<String> = Vec::new();
    match version {
        Ok((v, ed)) => {
            let vc = chars_of(v.as_str());
            let ok = starts_with(&vc, &chars_of("v2.")) || starts_with(&vc, &chars_of("2."));
            let mut d = chars_of(v.as_str());
            push_all(&mut d, &chars_of(" ("));
            push_all(&mut d, &chars_of(ed.as_str()));
            push_all(&mut d, &chars_of(");已验证基线 dev-v2"));
            if !ok {
                push_line(&mut g, "当前技能包面向 1Panel v2;请升级面板后再使用写操作。");
                assert(lines_view(g@) =~= seq!["当前技能包面向 1Panel v2;请升级面板后再使用写操作。"@]);
            } else {
                assert(lines_view(g@) =~= Seq::<Seq<char>>::empty());
            }
            report(6, "面板版本兼容性", if ok {
                Mark::Pass
            } else {
                Mark::Fail
            }, d, g, !ok)
        },
        Err(e) => {
            assert(lines_view(g@) =~= Seq::<Seq<char>>::empty());
            report(6, "面板版本兼容性", Mark::Fail, chars_of(e.as_str()), g, true)
        },
    }
}

/// The user of the panel's local SSH connection: known only when the connection could be
/// read and has an address.
pub fn conn_user(info: Option<crate::exec::LocalConnInfo>) -> (r: Option<String>)
    ensures
        match info {
            Some(i) if i.addr@.len() > 0 => r matches Some(u) && u@ == i.user@,
            _ => r is None,
        },
{
    match info {
        Some(i) => {
            if chars_of(i.addr.as_str()).len() > 0 {
                Some(i.user)
            } else {
                None
            }
        },
        None => None,
    }
}

/// With SSH credentials declared, the panel's connection is rewritten when it is missing
/// or saved for another (named) user.
pub fn ssh_sync_needed(user: Option<&str>, pwd: Option<&str>, current: Option<&str>) -> (r: bool)
    ensures
        r == (user is Some && pwd is Some && match current {
            None => true,
            Some(u) => u@.len() > 0 && u@ != user->0@,
        }),
{
    match (user, pwd) {
        (Some(want), Some(_)) => match current {
            None => true,
            Some(u) => {
                let uc = chars_of(u);
                uc.len() > 0 && !same(&uc, &chars_of(want))
            },
        },
        _ => false,
    }
}

pub open spec fn sync_fail_guidance() -> Seq<Seq<char>> {
    seq![
        "写入面板「设置 → 终端 → SSH 本地连接」失败:"@,
        "  1) 检查 LINUX_SSH_USER / LINUX_SSH_PWD 是否正确"@,
        "  2) 确认主机 SSH 服务已启用(端口默认 22,可用 exec --ssh-port 调整)"@,
    ]
}

/// Step 7, rewriting the connection for `user` (it was for `previous`, or missing): the
/// note of the change and the connection's new user, or the failure.
pub fn ssh_sync_step(user: &str, previous: Option<&str>, result: &Result<(), String>) -> (r: (Report, Option<String>))
    ensures
        match result {
            Ok(_) => report_is(
                r.0,
                7,
                "本地 SSH 连接"@,
                Mark::Note,
                "自动改配为用户 "@ + user@ + "(原为 "@ + (match previous {
                    Some(p) => p@,
                    None => "未配置"@,
                }) + ")"@,
                Seq::empty(),
                false,
            ) && (r.1 matches Some(u) && u@ == user@),
            Err(e) => report_is(
                r.0,
                7,
                "本地 SSH 连接 (exec 前置)"@,
                Mark::Fail,
                "自动改配失败: "@ + e@,
                sync_fail_guidance(),
                true,
            ) && crate::config::opt_view(r.1) == match previous {
                Some(p) => Some(p@),
                None => None::<Seq<char>>,
            },
        },
{
    let mut g: Vec<String> = Vec::new();
    match result {
        Ok(_) => {
            let mut d = chars_of("自动改配为用户 ");
            push_all(&mut d, &chars_of(user));
            push_all(&mut d, &chars_of("(原为 "));
            match previous {
                Some(p) => push_all(&mut d, &chars_of(p)),
                None => push_all(&mut d, &chars_of("未配置")),
            }
            push_all(&mut d, &chars_of(")"));
            assert(lines_view(g@) =~= Seq::<Seq<char>>::empty());
            (report(7, "本地 SSH 连接", Mark::Note, d, g, false), Some(user.to_owned()))
        },
        Err(e) => {
            let mut d = chars_of("自动改配失败: ");
            push_all(&mut d, &chars_of(e.as_str()));
            push_line(&mut g, "写入面板「设置 → 终端 → SSH 本地连接」失败:");
            push_line(&mut g, "  1) 检查 LINUX_SSH_USER / LINUX_SSH_PWD 是否正确");
            push_line(&mut g, "  2) 确认主机 SSH 服务已启用(端口默认 22,可用 exec --ssh-port 调整)");
            assert(lines_view(g@) =~= sync_fail_guidance());
            (report(7, "本地 SSH 连接 (exec 前置)", Mark::Fail, d, g, true), match previous {
                Some(p) => Some(p.to_owned()),
                None => None,
            })
        },
    }
}

/// What a command run over the terminal gave: its exit code and cleaned output, or the
/// error that stopped it.
pub type RunResult = Result<(i32, String), String>;

pub open spec fn ssh_missing_guidance() -> Seq<Seq<char>> {
    seq![
        "exec 需要面板先配置「设置 → 终端 → SSH 本地连接」:"@,
        "  1) 在 .env 中添加 LINUX_SSH_USER / LINUX_SSH_PWD,重跑 doctor 或 login 即自动写入"@,
        "  2) 或到面板 UI 手动配置"@,
    ]
}

pub open spec fn whoami_fail_guidance(user: Seq<char>) -> Seq<Seq<char>> {
    seq![
        "用户 "@ + user + " 的本地 SSH 连接验证失败,exec 无法执行:"@,
        "  1) 凭据可能已变更:重跑 1panel-cli login 自动改配"@,
        "  2) 或到面板「设置 → 终端 → SSH 本地连接」核对 "@ + user + " 的密码与端口"@,
    ]
}

pub open spec fn whoami_error_guidance() -> Seq<Seq<char>> {
    seq![
        "exec 连通性验证失败:"@,
        "  1) 重跑 1panel-cli login(或 exec --sync-ssh)改配本地 SSH 连接"@,
        "  2) 确认主机 SSH 服务可达"@,
    ]
}

/// What `whoami` showed beside the connection's user: nothing when it printed nothing, a
/// confirmation when it names the same user, a warning when it names another.
pub open spec fn whoami_extra(user: Seq<char>, out: Seq<char>) -> Seq<char> {
    let actual = ws_trim(out);
    if actual.len() == 0 {
        Seq::empty()
    } else if actual == user {
        ",whoami 实测 "@ + actual
    } else {
        ",whoami 实测为 "@ + actual + "(与连接声明用户不一致)"@
    }
}

/// Step 7: whether `whoami` runs through the connection of `user` (`None` when the panel
/// has no connection and none was declared). The result is the report and whether SSH
/// works.
pub fn ssh_step(user: Option<&str>, whoami: &Option<RunResult>) -> (r: (Report, bool))
    requires
        user is Some <==> whoami is Some,
    ensures
        match user {
            None => report_is(
                r.0,
                7,
                "本地 SSH 连接 (exec 前置)"@,
                Mark::Fail,
                "面板未配置,且 .env 未声明 LINUX_SSH_USER / LINUX_SSH_PWD"@,
                ssh_missing_guidance(),
                true,
            ) && !r.1,
            Some(u) => match whoami->0 {
                Ok((0, out)) => report_is(
                    r.0,
                    7,
                    "本地 SSH 连接 (exec 前置)"@,
                    Mark::Pass,
                    "用户 "@ + u@ + whoami_extra(u@, out@),
                    Seq::empty(),
                    false,
                ) && r.1,
                Ok((code, out)) => report_is(
                    r.0,
                    7,
                    "本地 SSH 连接 (exec 前置)"@,
                    Mark::Fail,
                    "whoami 退出码 "@ + int_dec(code as int) + ": "@ + ws_trim(out@),
                    whoami_fail_guidance(u@),
                    true,
                ) && !r.1,
                Err(e) => report_is(
                    r.0,
                    7,
                    "本地 SSH 连接 (exec 前置)"@,
                    Mark::Fail,
                    e@,
                    whoami_error_guidance(),
                    true,
                ) && !r.1,
            },
        },
{
    let mut g: Vec<String> = Vec::new();
    let title = "本地 SSH 连接 (exec 前置)";
    match user {
        None => {
            push_line(&mut g, "exec 需要面板先配置「设置 → 终端 → SSH 本地连接」:");
            push_line(&mut g, "  1) 在 .env 中添加 LINUX_SSH_USER / LINUX_SSH_PWD,重跑 doctor 或 login 即自动写入");
            push_line(&mut g, "  2) 或到面板 UI 手动配置");
            assert(lines_view(g@) =~= ssh_missing_guidance());
            (report(7, title, Mark::Fail, chars_of("面板未配置,且 .env 未声明 LINUX_SSH_USER / LINUX_SSH_PWD"), g, true), false)
        },
        Some(u) => match whoami {
            Some(Ok((code, out))) => {
                let actual = trim_ws(&chars_of(out.as_str()));
                if *code == 0 {
                    let mut d = chars_of("用户 ");
                    push_all(&mut d, &chars_of(u));
                    if actual.len() == 0 {
                    } else if same(&actual, &chars_of(u)) {
                        push_all(&mut d, &chars_of(",whoami 实测 "));
                        push_all(&mut d, &actual);
                    } else {
                        push_all(&mut d, &chars_of(",whoami 实测为 "));
                        push_all(&mut d, &actual);
                        push_all(&mut d, &chars_of("(与连接声明用户不一致)"));
                    }
                    assert(d@ =~= "用户 "@ + u@ + whoami_extra(u@, out@));
                    assert(lines_view(g@) =~= Seq::<Seq<char>>::empty());
                    (report(7, title, Mark::Pass, d, g, false), true)
                } else {
                    let mut d = chars_of("whoami 退出码 ");
                    push_all(&mut d, &dec_i64(*code as i64));
                    push_all(&mut d, &chars_of(": "));
                    push_all(&mut d, &actual);
                    let mut l1 = chars_of("用户 ");
                    push_all(&mut l1, &chars_of(u));
                    push_all(&mut l1, &chars_of(" 的本地 SSH 连接验证失败,exec 无法执行:"));
                    push_text(&mut g, l1);
                    push_line(&mut g, "  1) 凭据可能已变更:重跑 1panel-cli login 自动改配");
                    let mut l3 = chars_of("  2) 或到面板「设置 → 终端 → SSH 本地连接」核对 ");
                    push_all(&mut l3, &chars_of(u));
                    push_all(&mut l3, &chars_of(" 的密码与端口"));
                    push_text(&mut g, l3);
                    assert(lines_view(g@) =~= whoami_fail_guidance(u@));
                    (report(7, title, Mark::Fail, d, g, true), false)
                }
            },
            Some(Err(e)) => {
                push_line(&mut g, "exec 连通性验证失败:");
                push_line(&mut g, "  1) 重跑 1panel-cli login(或 exec --sync-ssh)改配本地 SSH 连接");
                push_line(&mut g, "  2) 确认主机 SSH 服务可达");
                assert(lines_view(g@) =~= whoami_error_guidance());
                (report(7, title, Mark::Fail, chars_of(e.as_str()), g, true), false)
            },
            None => {
                assert(false);
                (report(7, title, Mark::Fail, Vec::new(), g, true), false)
            },
        },
    }
}

pub open spec fn sudo_line(who: Seq<char>) -> Seq<char> {
    "  echo '"@ + who + " ALL=(ALL) NOPASSWD:ALL' | sudo tee /etc/sudoers.d/1panel-cli"@
}

/// Step 8: password-less sudo for `who`, tried only when SSH works (`sudo` is then the
/// result of `sudo -n true`); it only warns.
pub fn sudo_step(ssh_ok: bool, who: &str, sudo: &Option<RunResult>) -> (r: Report)
    requires
        ssh_ok <==> sudo is Some,
    ensures
        !r.failed,
        !ssh_ok ==> report_is(r, 8, "sudo 免密"@, Mark::Skip, "上一步 SSH 连接未验证通过"@, Seq::empty(), false),
        ssh_ok ==> match sudo->0 {
            Ok((0, _)) => report_is(
                r,
                8,
                "sudo 免密 (exec --sudo 前置)"@,
                Mark::Pass,
                "用户 "@ + who@ + " 可免密 sudo"@,
                Seq::empty(),
                false,
            ),
            Ok((code, out)) => report_is(
                r,
                8,
                "sudo 免密 (exec --sudo 前置)"@,
                Mark::Warn,
                "sudo -n 退出码 "@ + int_dec(code as int) + ": "@ + ws_trim(out@),
                seq![
                    "用户 "@ + who@ + " 未配置免密 sudo,exec --sudo 将失败;如需提权,在主机上配置:"@,
                    sudo_line(who@),
                    "  或将本地 SSH 连接改配为 root(此时不需要 --sudo)"@,
                ],
                false,
            ),
            Err(e) => report_is(
                r,
                8,
                "sudo 免密 (exec --sudo 前置)"@,
                Mark::Warn,
                e@,
                seq!["无法验证用户 "@ + who@ + " 的免密 sudo;如需 --sudo 提权,在主机上配置:"@, sudo_line(who@)],
                false,
            ),
        },
{
    let mut g: Vec<String> = Vec::new();
    let title = "sudo 免密 (exec --sudo 前置)";
    let mut sl = chars_of("  echo '");
    push_all(&mut sl, &chars_of(who));
    push_all(&mut sl, &chars_of(" ALL=(ALL) NOPASSWD:ALL' | sudo tee /etc/sudoers.d/1panel-cli"));
    assert(sl@ =~= sudo_line(who@));
    match sudo {
        None => {
            assert(lines_view(g@) =~= Seq::<Seq<char>>::empty());
            report(8, "sudo 免密", Mark::Skip, chars_of("上一步 SSH 连接未验证通过"), g, false)
        },
        Some(Ok((code, out))) => {
            if *code == 0 {
                let mut d = chars_of("用户 ");
                push_all(&mut d, &chars_of(who));
                push_all(&mut d, &chars_of(" 可免密 sudo"));
                assert(lines_view(g@) =~= Seq::<Seq<char>>::empty());
                report(8, title, Mark::Pass, d, g, false)
            } else {
                let mut d = chars_of("sudo -n 退出码 ");
                push_all(&mut d, &dec_i64(*code as i64));
                push_all(&mut d, &chars_of(": "));
                push_all(&mut d, &trim_ws(&chars_of(out.as_str())));
                let mut l1 = chars_of("用户 ");
                push_all(&mut l1, &chars_of(who));
                push_all(&mut l1, &chars_of(" 未配置免密 sudo,exec --sudo 将失败;如需提权,在主机上配置:"));
                push_text(&mut g, l1);
                push_text(&mut g, sl);
                push_line(&mut g, "  或将本地 SSH 连接改配为 root(此时不需要 --sudo)");
                assert(lines_view(g@) =~= seq![
                    "用户 "@ + who@ + " 未配置免密 sudo,exec --sudo 将失败;如需提权,在主机上配置:"@,
                    sudo_line(who@),
                    "  或将本地 SSH 连接改配为 root(此时不需要 --sudo)"@,
                ]);
                assert(d@ =~= "sudo -n 退出码 "@ + int_dec(*code as int) + ": "@ + ws_trim(out@));
                report(8, title, Mark::Warn, d, g, false)
            }
        },
        Some(Err(e)) => {
            let mut l1 = chars_of("无法验证用户 ");
            push_all(&mut l1, &chars_of(who));
            push_all(&mut l1, &chars_of(" 的免密 sudo;如需 --sudo 提权,在主机上配置:"));
            push_text(&mut g, l1);
            push_text(&mut g, sl);
            assert(lines_view(g@) =~= seq![
                "无法验证用户 "@ + who@ + " 的免密 sudo;如需 --sudo 提权,在主机上配置:"@,
                sudo_line(who@),
            ]);
            report(8, title, Mark::Warn, chars_of(e.as_str()), g, false)
        },
    }
}

/// The closing lines: how to go on when every step passed, else a request to fix the
/// failures.
pub open spec fn summary_spec(all_ok: bool) -> Seq<Seq<char>> {
    if all_ok {
        seq![
            "环境检查全部通过,可以开始使用:"@,
            "  1panel-cli status    检查登录状态"@,
            "  1panel-cli apps list 列出可安装应用"@,
            "                       更多命令见 1panel-cli --help"@,
        ]
    } else {
        seq!["环境检查未全部通过,请按上面提示修复后重试。"@]
    }
}

pub fn summary(all_ok: bool) -> (r: Vec<String>)
    ensures
        lines_view(r@) == summary_spec(all_ok),
{
    let mut v: Vec<String> = Vec::new();
    if all_ok {
        push_line(&mut v, "环境检查全部通过,可以开始使用:");
        push_line(&mut v, "  1panel-cli status    检查登录状态");
        push_line(&mut v, "  1panel-cli apps list 列出可安装应用");
        push_line(&mut v, "                       更多命令见 1panel-cli --help");
    } else {
        push_line(&mut v, "环境检查未全部通过,请按上面提示修复后重试。");
    }
    assert(lines_view(v@) =~= summary_spec(all_ok));
    v
}

} // verus!
