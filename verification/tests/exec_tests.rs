use panel_cli::codec::b64_of_str;
use panel_cli::exec::{
    build_handshake, close_cause, compose_command, end_exit_code, execute_outcome, local_conn_body,
    new_token, session_step, text_frame_chunk, to_json, ws_url, CloseCause, EndState, ExecError,
    ExecResult, Frame, OutputCollector, Step, WsMsg, TIMEOUT_EXIT_CODE,
};
use panel_cli::session::{CookieData, Session};
use panel_cli::terminal::{clean_output, find_sentinel, normalize_chunk, strip_ansi, tail_lines};

const SENTINEL_PREFIX: &str = "__1PCLI_";

fn test_session(url: &str) -> Session {
    Session {
        profile: "default".into(),
        panel_url: url.into(),
        entrance: String::new(),
        username: "admin".into(),
        panel_name: String::new(),
        logged_in_at: String::new(),
        insecure: false,
        cookies: vec![],
    }
}

#[test]
fn test_ws_url_schemes_and_ports() {
    let s = test_session("http://10.0.0.1:39870");
    let url = ws_url(&s, "echo hi", 120, 40).unwrap();
    assert!(url.starts_with("ws://10.0.0.1:39870/api/v2/hosts/terminal/local?"));
    assert!(url.contains("command=echo%20hi&cols=120&rows=40"), "{url}");

    let s = test_session("https://panel.example.com");
    let url = ws_url(&s, "true", 80, 24).unwrap();
    assert!(url.starts_with("wss://panel.example.com/api/v2/hosts/terminal/local?"));
    assert!(url.contains("cols=80&rows=24"), "{url}");

    let s = test_session("http://127.0.0.1/");
    let url = ws_url(&s, "ls -la /var/www", 120, 40).unwrap();
    assert!(url.contains("command=ls%20%2Dla%20%2Fvar%2Fwww"), "{url}");

    assert!(ws_url(&s, "true", 0, 40).is_err());
}

#[test]
fn test_ws_msg_parse_and_base64() {
    let msg = WsMsg { ws_type: "cmd".into(), data: "aGVsbG8=".into() };
    assert_eq!(msg.ws_type, "cmd");
    assert_eq!(text_frame_chunk(r#"{"type":"cmd","data":"aGVsbG8="}"#, Some(msg)), "hello");

    let msg = WsMsg { ws_type: "heartbeat".into(), data: String::new() };
    assert_eq!(msg.ws_type, "heartbeat");
    assert!(msg.data.is_empty());
    assert_eq!(text_frame_chunk(r#"{"type":"heartbeat","timestamp":123}"#, Some(msg)), "");

    let msg = WsMsg { ws_type: "resize".into(), data: String::new() };
    assert_eq!(msg.ws_type, "resize");
}

#[test]
fn test_build_handshake_headers() {
    let mut s = test_session("http://127.0.0.1:39870");
    s.cookies = vec![
        CookieData { name: "psession".into(), value: "MTczLi4u".into() },
        CookieData { name: "SecurityEntrance".into(), value: "abc".into() },
    ];
    let hs = build_handshake(&s, None);
    assert_eq!(hs.len(), 2);
    assert_eq!(hs[0].0, "cookie");
    assert_eq!(hs[0].1, "psession=MTczLi4u; SecurityEntrance=abc");
    assert_eq!(hs[1].0, "currentnode");
    assert_eq!(hs[1].1, "local");
}

#[test]
fn test_find_sentinel_single_hit_and_exit_code() {
    let token = new_token();
    assert_eq!(token.len(), 8);
    let sentinel = format!("{SENTINEL_PREFIX}{token}");
    assert_eq!(find_sentinel(&format!(" clear &&echo hi; echo {sentinel}_$?"), &token), None);
    assert_eq!(find_sentinel(&format!("hi\r\n{sentinel}_0\r\n$ "), &token), Some(0));
    assert_eq!(find_sentinel(&format!("out\r\n{sentinel}_7"), &token), Some(7));
    assert_eq!(find_sentinel(&format!("{sentinel}_255"), &token), Some(255));
    assert_eq!(find_sentinel("no sentinel here", &token), None);
    assert_eq!(find_sentinel("", &token), None);
}

#[test]
fn test_find_sentinel_on_wrapped_or_ansi_broken_stream() {
    let token = "ab12cd34";
    let sentinel = format!("{SENTINEL_PREFIX}{token}");
    let raw = "hello\r\n\x1b[?2004h__1PCLI_ab12cd3\r\n4_42\r\n[ubuntu@host ~]$ ";
    let normalized = normalize_chunk(raw);
    assert_eq!(find_sentinel(&normalized, token), Some(42));
    let raw2 = format!("{sentinel}_\x1b[0K3");
    assert_eq!(find_sentinel(&normalize_chunk(&raw2), token), Some(3));
    assert_eq!(find_sentinel(&format!("{sentinel}_1234"), token), Some(123));
}

#[test]
fn test_compose_command_basic_and_sentinel() {
    let token = "deadbeef";
    let cmd = compose_command(None, "ls -la", token, false).unwrap();
    assert_eq!(cmd, "( ls -la ); echo __1PCLI_deadbeef_$?");
    let cmd = compose_command(Some("/opt/myapp"), "bash deploy.sh", token, false).unwrap();
    assert_eq!(cmd, "cd -- '/opt/myapp' && ( bash deploy.sh ); echo __1PCLI_deadbeef_$?");
    let cmd = compose_command(None, "exit 7", token, false).unwrap();
    assert_eq!(cmd, "( exit 7 ); echo __1PCLI_deadbeef_$?");
}

#[test]
fn test_compose_command_sudo() {
    let token = "deadbeef";
    let cmd = compose_command(None, "systemctl restart nginx", token, true).unwrap();
    assert_eq!(cmd, "( sudo -n -H bash -c 'systemctl restart nginx' ); echo __1PCLI_deadbeef_$?");
    let cmd = compose_command(Some("/opt/a b"), "ls", token, true).unwrap();
    assert_eq!(
        cmd,
        r"( sudo -n -H bash -c 'cd -- '\''/opt/a b'\'' && ls' ); echo __1PCLI_deadbeef_$?"
    );
    assert!(compose_command(None, "  ", token, true).is_err());
    assert!(compose_command(None, "echo a\necho b", token, true).is_err());
}

#[test]
fn test_compose_command_cwd_quoting_and_validation() {
    let token = "deadbeef";
    let cmd = compose_command(Some("/opt/a b/c"), "true", token, false).unwrap();
    assert!(cmd.starts_with("cd -- '/opt/a b/c' && ( true ); "), "{cmd}");
    let cmd = compose_command(Some("/opt/it's"), "true", token, false).unwrap();
    assert!(cmd.starts_with(r"cd -- '/opt/it'\''s' && ( true ); "), "{cmd}");
    assert!(compose_command(None, "  ", token, false).is_err());
    assert!(compose_command(None, "echo a\necho b", token, false).is_err());
    assert!(compose_command(None, "echo a\recho b", token, false).is_err());
    assert!(compose_command(Some("/opt/a\nb"), "true", token, false).is_err());
}

#[test]
fn test_clean_output_strips_echo_banner_and_prompt() {
    let token = "ab12cd34";
    let sentinel = format!("{SENTINEL_PREFIX}{token}");
    let raw = "Last login: Mon Aug 31 00:00:00 2026 from 127.0.0.1\r\n\
[ubuntu@host ~]$  clear &&( echo hello && hostname ); echo __1PCLI_ab12cd34_$?\r\n\
\x1b[H\x1b[2J\x1b[3J\
hello\r\n\
myhost\r\n\
__1PCLI_ab12cd34_0\r\n\
[ubuntu@host ~]$ ";
    let cleaned = clean_output(raw, token);
    assert_eq!(cleaned, "hello\nmyhost");
    assert!(raw.contains(&format!("{sentinel}_$?")));
}

#[test]
fn test_clean_output_without_echo_falls_back() {
    let token = "ab12cd34";
    let sentinel = format!("{SENTINEL_PREFIX}{token}");
    let raw = format!("banner\r\nline1\r\n{sentinel}_2\r\n$ ");
    let cleaned = clean_output(&raw, token);
    assert!(cleaned.contains("line1"), "{cleaned}");
    assert!(!cleaned.contains(&sentinel), "{cleaned}");
    assert!(!cleaned.contains("$ "), "{cleaned}");
}

#[test]
fn test_clean_output_keeps_output_containing_clear_and_word() {
    let token = "ab12cd34";
    let sentinel = format!("{SENTINEL_PREFIX}{token}");
    let raw = format!("run: clear &&ls\r\nout\r\n{sentinel}_0\r\n");
    let cleaned = clean_output(&raw, token);
    assert_eq!(cleaned, "run: clear &&ls\nout");
}

#[test]
fn test_tail_lines() {
    let text = "a\nb\nc\nd\ne";
    assert_eq!(tail_lines(text, 2), ("d\ne".to_string(), true));
    assert_eq!(tail_lines(text, 5), (text.to_string(), false));
    assert_eq!(tail_lines(text, 10), (text.to_string(), false));
    assert_eq!(tail_lines(text, 0), (String::new(), true));
    assert_eq!(tail_lines("", 3), (String::new(), false));
}

#[test]
fn test_to_json_shape_and_order() {
    let r = ExecResult { exit_code: 7, duration_ms: 1234, truncated: false, error: None, output: "hi".into() };
    assert_eq!(
        to_json(&r).unwrap(),
        r#"{"exit_code":7,"duration_ms":1234,"truncated":false,"error":null,"output":"hi"}"#
    );
    let r = ExecResult {
        exit_code: 1,
        duration_ms: 0,
        truncated: true,
        error: Some("boom".into()),
        output: String::new(),
    };
    assert_eq!(
        to_json(&r).unwrap(),
        r#"{"exit_code":1,"duration_ms":0,"truncated":true,"error":"boom","output":""}"#
    );
}

#[test]
fn test_local_conn_body_base64_password() {
    let body = local_conn_body("ubuntu", "s3cret", 22);
    assert_eq!(body.addr, "127.0.0.1");
    assert_eq!(body.port, 22);
    assert_eq!(body.user, "ubuntu");
    assert_eq!(body.auth_mode, "password");
    assert_eq!(body.password, b64_of_str("s3cret"));
    assert_eq!(body.password, "czNjcmV0");
    let body = local_conn_body("u", "p", 2222);
    assert_eq!(body.port, 2222);
}

#[test]
fn test_strip_ansi_variants() {
    assert_eq!(strip_ansi("\x1b[2J\x1b[Hhello"), "hello");
    assert_eq!(strip_ansi("a\x1b]0;title\x07b"), "ab");
    assert_eq!(strip_ansi("a\x1b]0;title\x1b\\b"), "ab");
    assert_eq!(strip_ansi("\x1b(Bx"), "x");
    assert_eq!(strip_ansi("plain\r\ntext\x07"), "plain\r\ntext");
}

#[test]
fn test_normalize_chunk_removes_line_breaks() {
    assert_eq!(normalize_chunk("a\r\nb\r\nc"), "abc");
    assert_eq!(normalize_chunk("\x1b[31mx\r\ny\x1b[0m"), "xy");
}

#[test]
fn json_output_is_one_line_with_escaped_breaks() {
    let r = ExecResult {
        exit_code: -3,
        duration_ms: 5,
        truncated: false,
        error: Some("a\nb".into()),
        output: "x\"y\\z\n\t".into(),
    };
    let j = to_json(&r).unwrap();
    assert!(!j.contains('\n'));
    assert_eq!(
        j,
        r#"{"exit_code":-3,"duration_ms":5,"truncated":false,"error":"a\nb","output":"x\"y\\z\n\t"}"#
    );
}

#[test]
fn exit_code_passthrough_and_timeout() {
    assert_eq!(end_exit_code(&EndState::Completed(0)), 0);
    assert_eq!(end_exit_code(&EndState::Completed(7)), 7);
    assert_eq!(end_exit_code(&EndState::Completed(255)), 255);
    assert_eq!(end_exit_code(&EndState::Completed(300)), 255);
    assert_eq!(end_exit_code(&EndState::Completed(-1)), 0);
    assert_eq!(end_exit_code(&EndState::TimedOut), TIMEOUT_EXIT_CODE);
    assert_eq!(end_exit_code(&EndState::Dropped), 1);
}

#[test]
fn session_collects_until_sentinel() {
    let token = "ab12cd34";
    let mut c = OutputCollector::new();
    let first = WsMsg { ws_type: "cmd".into(), data: b64_of_str("hello\r\n__1PCLI_ab12cd3") };
    match session_step(&mut c, Frame::Text("{}".into(), Some(first)), token) {
        Step::Continue => {}
        Step::End(_) => panic!("ended early"),
    }
    let second = WsMsg { ws_type: "cmd".into(), data: b64_of_str("\r\n4_42\r\n$ ") };
    match session_step(&mut c, Frame::Text("{}".into(), Some(second)), token) {
        Step::End(EndState::Completed(code)) => assert_eq!(code, 42),
        _ => panic!("sentinel not found"),
    }
    assert_eq!(c.raw_bytes().as_slice(), "hello\r\n__1PCLI_ab12cd3\r\n4_42\r\n$ ".as_bytes());
    assert!(!c.was_truncated());
    match session_step(&mut c, Frame::Close(Some("bye".into())), token) {
        Step::End(EndState::ServerClosed(r)) => assert_eq!(r, "bye"),
        _ => panic!("close not seen"),
    }
    match session_step(&mut c, Frame::ReadTimeout, token) {
        Step::End(EndState::TimedOut) => {}
        _ => panic!("timeout not seen"),
    }
}

#[test]
fn close_causes_and_messages() {
    match close_cause("Protocol violation", Some("")) {
        CloseCause::NotConfigured(None) => {}
        _ => panic!("expected not configured"),
    }
    match close_cause("  no such ssh conn info in db ", Some("")) {
        CloseCause::NotConfigured(Some(m)) => assert_eq!(m, "no such ssh conn info in db"),
        _ => panic!("expected not configured with reason"),
    }
    match close_cause("this is a demo server", Some("127.0.0.1")) {
        CloseCause::DemoMode(m) => assert_eq!(m, "this is a demo server"),
        _ => panic!("expected demo"),
    }
    match close_cause("", None) {
        CloseCause::Unverified => {}
        _ => panic!("expected unverified"),
    }
    let o = execute_outcome(&EndState::TimedOut, 30, None);
    assert_eq!(o.exit_code, 124);
    assert!(!o.failed);
    assert_eq!(o.error.unwrap(), "超时(30s)未见完成哨兵,已返回收集到的输出");
    let cause = CloseCause::Reason("boom".into());
    let o = execute_outcome(&EndState::ServerClosed("boom".into()), 30, Some(&cause));
    assert_eq!(o.exit_code, 1);
    assert!(o.failed);
    assert_eq!(o.error.unwrap(), "服务端终止了终端连接: boom");
}

#[test]
fn compose_rejects_empty_command_error_kind() {
    assert_eq!(compose_command(None, " ", "t", false), Err(ExecError::EmptyCommand));
    assert_eq!(compose_command(None, "a\nb", "t", false), Err(ExecError::MultilineCommand));
    assert_eq!(compose_command(Some("a\rb"), "ls", "t", false), Err(ExecError::MultilineCwd));
}

#[test]
fn cleaned_output_never_shows_the_sentinel() {
    let token = "0f3a9c2e";
    let raw = "noise\r\n$ ( echo hi ); echo __1PCLI_0f3a9c2e_$?\r\nhi\r\n__1PCLI_0f3a9c2e_ stray\r\nmore\r\n__1PCLI_0f3a9c2e_0\r\nprompt$ ";
    let out = clean_output(raw, token);
    assert_eq!(out, "hi\nmore");
    assert!(!out.contains("__1PCLI_0f3a9c2e"));
}

#[test]
fn composed_command_is_one_line_ending_with_sentinel() {
    let c = compose_command(Some("/opt/my app"), "ls -la && echo 'x'", "abcd1234", true).unwrap();
    assert!(!c.contains('\n') && !c.contains('\r'));
    assert!(c.ends_with("; echo __1PCLI_abcd1234_$?"));
    let plain = compose_command(None, "  whoami  ", "abcd1234", false).unwrap();
    assert_eq!(plain, "( whoami ); echo __1PCLI_abcd1234_$?");
}

#[test]
fn stripped_text_is_escape_free_and_stable() {
    let s = "a\x1b[31mred\x1b[0m\x07 b\x1b]0;t\x07c";
    let t = strip_ansi(s);
    assert_eq!(t, "ared bc");
    assert!(!t.contains('\x1b') && !t.contains('\x07'));
    assert_eq!(strip_ansi(&t), t);
    assert_eq!(strip_ansi("no escapes here"), "no escapes here");
}
