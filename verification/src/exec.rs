//! Running one command on the panel host through the panel's terminal WebSocket.
//!
//! The library builds the handshake (URL and headers), the command line with its
//! completion sentinel, collects the terminal stream frame by frame, and turns the
//! transcript into the result; the application performs the network exchange.
use vstd::prelude::*;
use vstd::utf8::*;
use crate::codec::{
    b64_decode_bytes, b64_decoded, b64_encode, b64_of_str, hex_lower, json_quote, json_quote_str, json_escape,
    json_escape_char,
    lossy_utf8, pct_encode, pct_encode_str, random_nibble, utf8_lossy,
};
use crate::session::{CookieData, Session};
use crate::terminal::{
    clean_output, clean_output_spec, find_sentinel_chars, find_sentinel_spec, normalize_chars,
    normalized, sentinel_prefix, tail_lines, tail_lines_spec,
};
use crate::text::{
    char_pred, chars_of, concat, dec, dec_i64, dec_u64, drop_trail, int_dec, join, join_with,
    prefix_of, push_all, slice_of, starts_with, string_of, trim_end_char, trim_ws, views,
    ws_trim, has_char, lemma_views_push,
};

verus! {

broadcast use vstd::string::group_string_axioms;

pub const DEFAULT_TIMEOUT_SECS: i64 = 30;

pub const DEFAULT_COLS: i64 = 120;

pub const DEFAULT_ROWS: i64 = 40;

pub const DEFAULT_SSH_PORT: u16 = 22;

/// The most output bytes kept; more is cut off and the result marked truncated.
pub const MAX_OUTPUT_BYTES: usize = 10485760;

/// The size of the tail of the normalized stream in which the sentinel is looked for.
pub const MATCH_WINDOW_BYTES: usize = 1048576;

/// How far the normalized stream may grow past the window before it is cut back.
pub const MATCH_WINDOW_SLACK: usize = 65536;

/// Commands longer than this (in bytes) may not fit in the handshake URL.
pub const MAX_COMMAND_LEN: usize = 4000;

/// The exit code reported when no sentinel arrived in time.
pub const TIMEOUT_EXIT_CODE: i32 = 124;

pub struct ExecOptions {
    pub command: String,
    pub timeout: i64,
    pub cols: i64,
    pub rows: i64,
    pub json: bool,
    pub tail: Option<usize>,
    pub raw: bool,
    pub cwd: Option<String>,
    pub sync_ssh: bool,
    pub ssh_port: u16,
    /// Run the command through `sudo` (the SSH user needs password-less sudo).
    pub sudo: bool,
}

pub struct ExecResult {
    pub exit_code: i32,
    pub duration_ms: u64,
    pub truncated: bool,
    pub error: Option<String>,
    pub output: String,
}

/// A message of the terminal protocol: `cmd` frames carry Base64 terminal output.
pub struct WsMsg {
    pub ws_type: String,
    pub data: String,
}

/// The panel's local SSH connection, as far as `exec` needs it (empty `addr`: none saved).
pub struct LocalConnInfo {
    pub addr: String,
    pub user: String,
}

/// The body of `POST api/v2/settings/ssh`, which saves the panel's local SSH connection.
pub struct LocalConnBody {
    pub addr: String,
    pub port: u16,
    pub user: String,
    pub auth_mode: String,
    /// Base64 of the password, as the panel expects it.
    pub password: String,
}

#[derive(Debug, PartialEq, Eq, Structural)]
pub enum ExecError {
    /// `--cols`/`--rows` must be positive.
    BadTerminalSize,
    /// `--timeout` must be positive.
    BadTimeout,
    /// The panel address is empty.
    EmptyPanelUrl,
    /// The command is empty.
    EmptyCommand,
    /// The command holds a line break.
    MultilineCommand,
    /// The working directory holds a line break.
    MultilineCwd,
}

// ---------------------------------------------------------------------------
// Handshake
// ---------------------------------------------------------------------------

/// The WebSocket base of a panel address: `https` becomes `wss`, `http` becomes `ws`,
/// a bare host gets `ws://`; surrounding whitespace and trailing `/` are dropped.
pub open spec fn ws_base(panel_url: Seq<char>) -> Seq<char> {
    let base = drop_trail(ws_trim(panel_url), char_pred('/'));
    if prefix_of("https://"@, base) {
        "wss://"@ + base.skip("https://"@.len() as int)
    } else if prefix_of("http://"@, base) {
        "ws://"@ + base.skip("http://"@.len() as int)
    } else if prefix_of("ws://"@, base) || prefix_of("wss://"@, base) {
        base
    } else {
        "ws://"@ + base
    }
}

pub open spec fn ws_url_spec(panel_url: Seq<char>, command: Seq<char>, cols: int, rows: int) -> Result<
    Seq<char>,
    ExecError,
> {
    if cols <= 0 || rows <= 0 {
        Err(ExecError::BadTerminalSize)
    } else if encode_utf8(ws_base(panel_url)).len() <= 6 {
        Err(ExecError::EmptyPanelUrl)
    } else {
        Ok(ws_base(panel_url) + "/api/v2/hosts/terminal/local"@ + "?command="@ + pct_encode(command)
            + "&cols="@ + int_dec(cols) + "&rows="@ + int_dec(rows))
    }
}

/// The terminal WebSocket URL for running `command` in a `cols` x `rows` terminal
/// (no entrance path is needed on API routes).
pub fn ws_url(session: &Session, command: &str, cols: i64, rows: i64) -> (r: Result<
    String,
    ExecError,
>)
    ensures
        match r {
            Ok(u) => ws_url_spec(session.panel_url@, command@, cols as int, rows as int) == Ok::<
                Seq<char>,
                ExecError,
            >(u@),
            Err(e) => ws_url_spec(session.panel_url@, command@, cols as int, rows as int) == Err::<
                Seq<char>,
                ExecError,
            >(e),
        },
{
    if cols <= 0 || rows <= 0 {
        return Err(ExecError::BadTerminalSize);
    }
    let url = chars_of(session.panel_url.as_str());
    let base = trim_end_char(&trim_ws(&url), '/');
    let https = chars_of("https://");
    let http = chars_of("http://");
    let ws = chars_of("ws://");
    let wss = chars_of("wss://");
    let ws_base_c: Vec<char> = if starts_with(&base, &https) {
        concat(&wss, &slice_of(&base, https.len(), base.len()))
    } else if starts_with(&base, &http) {
        concat(&ws, &slice_of(&base, http.len(), base.len()))
    } else if starts_with(&base, &ws) || starts_with(&base, &wss) {
        base
    } else {
        concat(&ws, &base)
    };
    proof {
        if prefix_of("https://"@, base@) {
            assert(base@.subrange(https@.len() as int, base@.len() as int) =~= base@.skip(
                "https://"@.len() as int,
            ));
        } else if prefix_of("http://"@, base@) {
            assert(base@.subrange(http@.len() as int, base@.len() as int) =~= base@.skip(
                "http://"@.len() as int,
            ));
        }
    }
    if utf8_len_capped(&ws_base_c, 7) <= 6 {
        return Err(ExecError::EmptyPanelUrl);
    }
    let mut out = ws_base_c;
    push_all(&mut out, &chars_of("/api/v2/hosts/terminal/local"));
    push_all(&mut out, &chars_of("?command="));
    push_all(&mut out, &chars_of(pct_encode_str(command).as_str()));
    push_all(&mut out, &chars_of("&cols="));
    push_all(&mut out, &dec_i64(cols));
    push_all(&mut out, &chars_of("&rows="));
    push_all(&mut out, &dec_i64(rows));
    Ok(string_of(&out))
}

pub open spec fn cookie_pair(c: CookieData) -> Seq<char> {
    c.name@ + "="@ + c.value@
}

/// `name=value; name=value` over all session cookies.
pub open spec fn cookie_header(cookies: Seq<CookieData>) -> Seq<char> {
    join(cookies.map_values(|c: CookieData| cookie_pair(c)), "; "@)
}

/// The node header value: the given node (or `local` when none is configured), trimmed
/// and percent-encoded.
pub open spec fn node_header(node: Option<Seq<char>>) -> Seq<char> {
    pct_encode(
        ws_trim(
            match node {
                Some(n) => n,
                None => "local"@,
            },
        ),
    )
}

/// The headers added to the terminal handshake: all session cookies, and the target node
/// (`node_env` is the configured node, if any).
pub fn build_handshake(session: &Session, node_env: Option<&str>) -> (r: Vec<(String, String)>)
    ensures
        r@.len() == 2,
        r@[0].0@ == "cookie"@,
        r@[0].1@ == cookie_header(session.cookies@),
        r@[1].0@ == "currentnode"@,
        r@[1].1@ == node_header(
            match node_env {
                Some(n) => Some(n@),
                None => None,
            },
        ),
{
    let mut pairs: Vec<Vec<char>> = Vec::new();
    let mut i: usize = 0;
    let ghost want = session.cookies@.map_values(|c: CookieData| cookie_pair(c));
    while i < session.cookies.len()
        invariant
            0 <= i <= session.cookies.len(),
            want == session.cookies@.map_values(|c: CookieData| cookie_pair(c)),
            views(pairs@) == want.take(i as int),
        decreases session.cookies.len() - i,
    {
        let c = &session.cookies[i];
        let mut p = chars_of(c.name.as_str());
        push_all(&mut p, &chars_of("="));
        push_all(&mut p, &chars_of(c.value.as_str()));
        proof {
            lemma_views_push(pairs@, p);
        }
        pairs.push(p);
        i += 1;
        assert(views(pairs@) =~= want.take(i as int));
    }
    assert(want.take(session.cookies.len() as int) =~= want);
    let cookie = join_with(&pairs, &chars_of("; "));
    let node_raw = match node_env {
        Some(n) => chars_of(n),
        None => chars_of("local"),
    };
    let node_trim = string_of(&trim_ws(&node_raw));
    let node = pct_encode_str(node_trim.as_str());
    let mut r: Vec<(String, String)> = Vec::new();
    r.push((string_of(&chars_of("cookie")), string_of(&cookie)));
    r.push((string_of(&chars_of("currentnode")), node));
    r
}

/// The body that saves the panel's local SSH connection to `127.0.0.1:port` with password
/// login; the password is sent Base64-encoded.
pub fn local_conn_body(user: &str, pwd: &str, port: u16) -> (r: LocalConnBody)
    ensures
        r.addr@ == "127.0.0.1"@,
        r.port == port,
        r.user@ == user@,
        r.auth_mode@ == "password"@,
        r.password@ == b64_encode(encode_utf8(pwd@)),
{
    LocalConnBody {
        addr: string_of(&chars_of("127.0.0.1")),
        port,
        user: string_of(&chars_of(user)),
        auth_mode: string_of(&chars_of("password")),
        password: b64_of_str(pwd),
    }
}

// ---------------------------------------------------------------------------
// Command line
// ---------------------------------------------------------------------------

pub open spec fn quote_char(c: char) -> Seq<char> {
    if c == '\'' {
        seq!['\'', '\\', '\'', '\'']
    } else {
        seq![c]
    }
}

pub open spec fn escape_quotes(s: Seq<char>) -> Seq<char>
    decreases s.len(),
{
    if s.len() == 0 {
        seq![]
    } else {
        escape_quotes(s.drop_last()) + quote_char(s.last())
    }
}

/// POSIX single quoting: `'...'`, each `'` inside written as `'\''`.
pub open spec fn quote_posix_spec(s: Seq<char>) -> Seq<char> {
    seq!['\''] + escape_quotes(s) + seq!['\'']
}

pub fn quote_posix(s: &Vec<char>) -> (r: Vec<char>)
    ensures
        r@ == quote_posix_spec(s@),
{
    let mut out: Vec<char> = Vec::new();
    out.push('\'');
    let mut i: usize = 0;
    while i < s.len()
        invariant
            0 <= i <= s.len(),
            out@ == seq!['\''] + escape_quotes(s@.take(i as int)),
        decreases s.len() - i,
    {
        proof {
            assert(s@.take(i + 1).drop_last() =~= s@.take(i as int));
        }
        if s[i] == '\'' {
            out.push('\'');
            out.push('\\');
            out.push('\'');
            out.push('\'');
        } else {
            out.push(s[i]);
        }
        i += 1;
        assert(out@ =~= seq!['\''] + escape_quotes(s@.take(i as int)));
    }
    out.push('\'');
    assert(s@.take(s.len() as int) =~= s@);
    out
}

pub open spec fn has_break(s: Seq<char>) -> bool {
    s.contains('\n') || s.contains('\r')
}

/// The working directory that is used: the trimmed `--cwd`, unless it is blank.
pub open spec fn cwd_dir(cwd: Option<Seq<char>>) -> Option<Seq<char>> {
    match cwd {
        Some(d) => if ws_trim(d).len() > 0 {
            Some(ws_trim(d))
        } else {
            None
        },
        None => None,
    }
}

/// The full command line: validation, then the optional `cd -- '<dir>' && `, the command
/// in a subshell (`exit` and `exec` end only the subshell) or under `sudo -n -H bash -c`,
/// then the sentinel `; echo __1PCLI_<token>_$?` that reports the exit status.
pub open spec fn compose_spec(cwd: Option<Seq<char>>, command: Seq<char>, token: Seq<char>, sudo: bool) -> Result<
    Seq<char>,
    ExecError,
> {
    let cmd = ws_trim(command);
    let dir = cwd_dir(cwd);
    if cmd.len() == 0 {
        Err(ExecError::EmptyCommand)
    } else if has_break(cmd) {
        Err(ExecError::MultilineCommand)
    } else if dir is Some && has_break(dir->0) {
        Err(ExecError::MultilineCwd)
    } else {
        let prefix = match dir {
            Some(d) => "cd -- "@ + quote_posix_spec(d) + " && "@,
            None => seq![],
        };
        let full = if sudo {
            "( sudo -n -H bash -c "@ + quote_posix_spec(prefix + cmd) + " )"@
        } else {
            prefix + "( "@ + cmd + " )"@
        };
        Ok(full + "; echo "@ + sentinel_prefix() + token + "_$?"@)
    }
}

pub open spec fn opt_view(o: Option<&str>) -> Option<Seq<char>> {
    match o {
        Some(s) => Some(s@),
        None => None,
    }
}

/// Builds the command line sent to the shell (see `compose_spec`).
pub fn compose_command(cwd: Option<&str>, command: &str, token: &str, sudo: bool) -> (r: Result<
    String,
    ExecError,
>)
    ensures
        match r {
            Ok(c) => compose_spec(opt_view(cwd), command@, token@, sudo) == Ok::<
                Seq<char>,
                ExecError,
            >(c@),
            Err(e) => compose_spec(opt_view(cwd), command@, token@, sudo) == Err::<
                Seq<char>,
                ExecError,
            >(e),
        },
{
    let cmd = trim_ws(&chars_of(command));
    if cmd.len() == 0 {
        return Err(ExecError::EmptyCommand);
    }
    if has_char(&cmd, '\n') || has_char(&cmd, '\r') {
        return Err(ExecError::MultilineCommand);
    }
    let dir: Option<Vec<char>> = match cwd {
        Some(d) => {
            let t = trim_ws(&chars_of(d));
            if t.len() > 0 {
                Some(t)
            } else {
                None
            }
        },
        None => None,
    };
    let mut prefix: Vec<char> = Vec::new();
    match &dir {
        Some(d) => {
            if has_char(d, '\n') || has_char(d, '\r') {
                return Err(ExecError::MultilineCwd);
            }
            push_all(&mut prefix, &chars_of("cd -- "));
            push_all(&mut prefix, &quote_posix(d));
            push_all(&mut prefix, &chars_of(" && "));
        },
        None => {},
    }
    proof {
        match dir {
            Some(d) => assert(prefix@ =~= "cd -- "@ + quote_posix_spec(d@) + " && "@),
            None => assert(prefix@ =~= seq![]),
        }
    }
    let mut full: Vec<char>;
    if sudo {
        let inner = concat(&prefix, &cmd);
        full = chars_of("( sudo -n -H bash -c ");
        push_all(&mut full, &quote_posix(&inner));
        push_all(&mut full, &chars_of(" )"));
    } else {
        full = prefix;
        push_all(&mut full, &chars_of("( "));
        push_all(&mut full, &cmd);
        push_all(&mut full, &chars_of(" )"));
    }
    push_all(&mut full, &chars_of("; echo "));
    push_all(&mut full, &chars_of("__1PCLI_"));
    push_all(&mut full, &chars_of(token));
    push_all(&mut full, &chars_of("_$?"));
    Ok(string_of(&full))
}

pub fn utf8_width_exec(c: char) -> (w: usize)
    ensures
        w == utf8_width(c),
        w as nat == encode_scalar(c as u32).len(),
{
    proof {
        lemma_width(c);
    }
    let u = c as u32;
    if u <= 0x7f {
        1
    } else if u <= 0x7ff {
        2
    } else if u <= 0xffff {
        3
    } else {
        4
    }
}

/// The UTF-8 byte length of `v`, or `cap` when it is at least `cap`.
pub fn utf8_len_capped(v: &Vec<char>, cap: usize) -> (r: usize)
    requires
        cap <= usize::MAX - 4,
    ensures
        r as nat == (if byte_len(v@) < cap {
            byte_len(v@)
        } else {
            cap as nat
        }),
{
    if cap == 0 {
        return 0;
    }
    let mut acc: usize = 0;
    let mut k: usize = 0;
    assert(v@.take(0) =~= Seq::<char>::empty());
    while k < v.len()
        invariant
            0 <= k <= v.len(),
            cap <= usize::MAX - 4,
            acc == byte_len(v@.take(k as int)),
            acc < cap,
        decreases v.len() - k,
    {
        let w = utf8_width_exec(v[k]);
        proof {
            lemma_encode_push(v@.take(k as int), v@[k as int]);
            assert(v@.take(k + 1) =~= v@.take(k as int).push(v@[k as int]));
        }
        acc = acc + w;
        k = k + 1;
        if acc >= cap {
            proof {
                lemma_encode_concat(v@.take(k as int), v@.skip(k as int));
                assert(v@.take(k as int) + v@.skip(k as int) =~= v@);
            }
            return cap;
        }
    }
    assert(v@.take(v.len() as int) =~= v@);
    acc
}

/// Whether the trimmed command is longer than `MAX_COMMAND_LEN` bytes (worth a warning:
/// the handshake URL may become too long).
pub fn command_too_long(command: &str) -> (b: bool)
    ensures
        b == (encode_utf8(ws_trim(command@)).len() > MAX_COMMAND_LEN),
{
    let cmd = trim_ws(&chars_of(command));
    utf8_len_capped(&cmd, MAX_COMMAND_LEN + 1) > MAX_COMMAND_LEN
}

pub open spec fn is_lower_hex(c: char) -> bool {
    (48 <= c as u32 <= 57) || (97 <= c as u32 <= 102)
}

/// A fresh 8-character lower-case hex token for the sentinel.
pub fn new_token() -> (t: String)
    ensures
        t@.len() == 8,
        forall|i: int| 0 <= i < 8 ==> is_lower_hex(#[trigger] t@[i]),
{
    let mut v: Vec<char> = Vec::new();
    let mut i: usize = 0;
    while i < 8
        invariant
            0 <= i <= 8,
            v@.len() == i,
            forall|k: int| 0 <= k < i ==> is_lower_hex(#[trigger] v@[k]),
        decreases 8 - i,
    {
        let n = random_nibble();
        let c = if n < 10 {
            (48u8 + n) as char
        } else {
            (87u8 + n) as char
        };
        v.push(c);
        i += 1;
    }
    string_of(&v)
}

// ---------------------------------------------------------------------------
// Collecting the stream
// ---------------------------------------------------------------------------

/// The output carried by a text frame: the decoded data of a `cmd` message, the frame
/// itself when it is not a message or its data is not Base64, nothing for other messages.
/// `parsed` is the frame read as a message (`None` when it is not one).
pub open spec fn text_frame_spec(txt: Seq<char>, parsed: Option<(Seq<char>, Seq<char>)>) -> Seq<char> {
    match parsed {
        None => txt,
        Some((ws_type, data)) => {
            if ws_type == "cmd"@ {
                match b64_decoded(encode_utf8(data)) {
                    Some(b) => lossy_utf8(b),
                    None => txt,
                }
            } else {
                seq![]
            }
        },
    }
}

pub open spec fn msg_view(m: Option<WsMsg>) -> Option<(Seq<char>, Seq<char>)> {
    match m {
        Some(w) => Some((w.ws_type@, w.data@)),
        None => None,
    }
}

/// The terminal output in a text frame (see `text_frame_spec`).
pub fn text_frame_chunk(txt: &str, parsed: Option<WsMsg>) -> (r: String)
    ensures
        r@ == text_frame_spec(txt@, msg_view(parsed)),
{
    match parsed {
        None => string_of(&chars_of(txt)),
        Some(m) => {
            let t = chars_of(m.ws_type.as_str());
            let cmd = chars_of("cmd");
            if crate::text::same(&t, &cmd) {
                match b64_decode_bytes(m.data.as_str().as_bytes()) {
                    Some(b) => utf8_lossy(b.as_slice()),
                    None => string_of(&chars_of(txt)),
                }
            } else {
                string_of(&Vec::new())
            }
        },
    }
}

/// The output carried by a binary frame: its bytes read as UTF-8, lossily.
pub fn binary_frame_chunk(data: &[u8]) -> (r: String)
    ensures
        r@ == lossy_utf8(data@),
{
    utf8_lossy(data)
}

pub open spec fn utf8_width(c: char) -> nat {
    let u = c as u32;
    if u <= 0x7f {
        1
    } else if u <= 0x7ff {
        2
    } else if u <= 0xffff {
        3
    } else {
        4
    }
}

pub open spec fn byte_len(s: Seq<char>) -> nat {
    encode_utf8(s).len()
}

pub proof fn lemma_width(c: char)
    ensures
        encode_scalar(c as u32).len() == utf8_width(c),
{
    broadcast use vstd::utf8::char_is_scalar;

    assert(is_scalar(c as u32));
}

pub proof fn lemma_encode_push(s: Seq<char>, c: char)
    ensures
        encode_utf8(s.push(c)) == encode_utf8(s) + encode_scalar(c as u32),
    decreases s.len(),
{
    if s.len() == 0 {
        let t = s.push(c);
        assert(t.drop_first() =~= Seq::<char>::empty());
        assert(t[0] == c);
        assert(encode_utf8(t.drop_first()) =~= Seq::<u8>::empty());
        assert(encode_utf8(t) == encode_scalar(c as u32) + encode_utf8(t.drop_first()));
        assert(encode_utf8(t) =~= encode_utf8(s) + encode_scalar(c as u32));
    } else {
        lemma_encode_push(s.drop_first(), c);
        assert(s.push(c).drop_first() =~= s.drop_first().push(c));
        assert(encode_utf8(s.push(c)) =~= encode_utf8(s) + encode_scalar(c as u32));
    }
}

pub proof fn lemma_encode_concat(a: Seq<char>, b: Seq<char>)
    ensures
        encode_utf8(a + b) == encode_utf8(a) + encode_utf8(b),
    decreases b.len(),
{
    if b.len() == 0 {
        assert(a + b =~= a);
        assert(encode_utf8(a) + encode_utf8(b) =~= encode_utf8(a));
    } else {
        lemma_encode_concat(a, b.drop_last());
        lemma_encode_push(a + b.drop_last(), b.last());
        lemma_encode_push(b.drop_last(), b.last());
        assert((a + b.drop_last()).push(b.last()) =~= a + b);
        assert(b.drop_last().push(b.last()) =~= b);
        assert(encode_utf8(a + b) =~= encode_utf8(a) + encode_utf8(b));
    }
}

/// The number of leading characters whose UTF-8 bytes reach at least `need` bytes (the
/// first character boundary at or after byte `need`).
pub open spec fn chars_to_cover(s: Seq<char>, need: int) -> nat
    decreases s.len(),
{
    if need <= 0 || s.len() == 0 {
        0
    } else {
        1 + chars_to_cover(s.drop_first(), need - utf8_width(s[0]))
    }
}

/// The sentinel search window after new text: once it is more than `MATCH_WINDOW_BYTES`
/// plus `MATCH_WINDOW_SLACK` bytes long, it is cut back to its last `MATCH_WINDOW_BYTES`
/// bytes (moved forward to a character boundary).
pub open spec fn trim_window(m: Seq<char>) -> Seq<char> {
    if byte_len(m) > MATCH_WINDOW_BYTES + MATCH_WINDOW_SLACK {
        m.skip(chars_to_cover(m, byte_len(m) - MATCH_WINDOW_BYTES) as int)
    } else {
        m
    }
}

/// The collected bytes after `bytes` arrive: at most `MAX_OUTPUT_BYTES` are kept, and the
/// flag says whether some were cut off.
pub open spec fn append_capped(buf: Seq<u8>, bytes: Seq<u8>) -> (Seq<u8>, bool) {
    if buf.len() + bytes.len() > MAX_OUTPUT_BYTES {
        let room: int = if MAX_OUTPUT_BYTES >= buf.len() {
            MAX_OUTPUT_BYTES - buf.len()
        } else {
            0
        };
        let k: int = if room < bytes.len() {
            room
        } else {
            bytes.len() as int
        };
        (buf + bytes.take(k), true)
    } else {
        (buf + bytes, false)
    }
}

/// What one `exec` session has collected from the terminal stream: the raw output bytes
/// (capped), whether bytes were cut off, and the normalized tail in which the completion
/// sentinel is looked for.
pub struct OutputCollector {
    buf: Vec<u8>,
    truncated: bool,
    match_buf: Vec<char>,
    match_bytes: usize,
}

impl OutputCollector {
    pub closed spec fn wf(&self) -> bool {
        &&& self.match_bytes == byte_len(self.match_buf@)
        &&& self.buf@.len() <= MAX_OUTPUT_BYTES
    }

    /// The output bytes collected so far.
    pub closed spec fn raw(&self) -> Seq<u8> {
        self.buf@
    }

    /// Whether output was cut off at `MAX_OUTPUT_BYTES`.
    pub closed spec fn cut(&self) -> bool {
        self.truncated
    }

    /// The normalized stream (or its retained tail) searched for the sentinel.
    pub closed spec fn window(&self) -> Seq<char> {
        self.match_buf@
    }

    pub fn new() -> (r: Self)
        ensures
            r.wf(),
            r.raw() == Seq::<u8>::empty(),
            !r.cut(),
            r.window() == Seq::<char>::empty(),
    {
        OutputCollector { buf: Vec::new(), truncated: false, match_buf: Vec::new(), match_bytes: 0 }
    }

    pub fn raw_bytes(&self) -> (r: &Vec<u8>)
        ensures
            r@ == self.raw(),
    {
        &self.buf
    }

    pub fn was_truncated(&self) -> (r: bool)
        ensures
            r == self.cut(),
    {
        self.truncated
    }

    /// The byte length of the search window.
    pub fn window_bytes(&self) -> (r: usize)
        requires
            self.wf(),
        ensures
            r == byte_len(self.window()),
    {
        self.match_bytes
    }

    fn append_bytes(&mut self, bytes: &[u8])
        requires
            old(self).wf(),
        ensures
            final(self).wf(),
            final(self).raw() == append_capped(old(self).raw(), bytes@).0,
            final(self).cut() == (old(self).cut() || append_capped(old(self).raw(), bytes@).1),
            final(self).window() == old(self).window(),
    {
        let room = MAX_OUTPUT_BYTES - self.buf.len();
        let take = if bytes.len() > room {
            self.truncated = true;
            room
        } else {
            bytes.len()
        };
        let ghost before = self.buf@;
        let mut i: usize = 0;
        while i < take
            invariant
                0 <= i <= take <= bytes@.len(),
                take <= MAX_OUTPUT_BYTES - before.len(),
                before.len() <= MAX_OUTPUT_BYTES,
                self.buf@ == before + bytes@.take(i as int),
                self.match_bytes == old(self).match_bytes,
                self.match_buf@ == old(self).match_buf@,
                self.truncated == (old(self).truncated || bytes.len() > MAX_OUTPUT_BYTES
                    - before.len()),
            decreases take - i,
        {
            self.buf.push(bytes[i]);
            i += 1;
            assert(bytes@.take(i as int) =~= bytes@.take(i - 1).push(bytes@[i - 1]));
        }
        assert(bytes@.take(bytes.len() as int) =~= bytes@);
    }

    /// Adds decoded terminal output, normalized, to the search window.
    fn append_window(&mut self, chunk: &str)
        requires
            old(self).wf(),
            byte_len(old(self).window()) <= usize::MAX / 2,
            encode_utf8(chunk@).len() <= usize::MAX / 2,
        ensures
            final(self).wf(),
            final(self).raw() == old(self).raw(),
            final(self).cut() == old(self).cut(),
            final(self).window() == old(self).window() + normalized(chunk@),
    {
        let norm = normalize_chars(&chars_of(chunk));
        let norm_len = string_of(&norm).as_str().len();
        proof {
            lemma_encode_concat(self.match_buf@, norm@);
            lemma_normalized_shorter(chunk@);
        }
        push_all(&mut self.match_buf, &norm);
        self.match_bytes = self.match_bytes + norm_len;
    }

    /// Cuts the search window back (see `trim_window`).
    fn trim_window_exec(&mut self)
        requires
            old(self).wf(),
        ensures
            final(self).wf(),
            final(self).raw() == old(self).raw(),
            final(self).cut() == old(self).cut(),
            final(self).window() == trim_window(old(self).window()),
            final(self).match_bytes <= MATCH_WINDOW_BYTES + MATCH_WINDOW_SLACK,
    {
        if self.match_bytes > MATCH_WINDOW_BYTES + MATCH_WINDOW_SLACK {
            let need = self.match_bytes - MATCH_WINDOW_BYTES;
            let ghost m = self.match_buf@;
            let mut k: usize = 0;
            let mut acc: usize = 0;
            proof {
                assert(m.take(0) =~= seq![]);
                assert(m.skip(0) =~= m);
                lemma_encode_concat(m.take(0), m.skip(0));
            }
            while acc < need && k < self.match_buf.len()
                invariant
                    m == self.match_buf@,
                    self.match_bytes == byte_len(m),
                    0 <= k <= m.len(),
                    acc == byte_len(m.take(k as int)),
                    acc <= self.match_bytes,
                    need == self.match_bytes - MATCH_WINDOW_BYTES,
                    chars_to_cover(m, need as int) == k + chars_to_cover(
                        m.skip(k as int),
                        need - acc,
                    ),
                    self.buf@ == old(self).buf@,
                    self.truncated == old(self).truncated,
                    self.buf@.len() <= MAX_OUTPUT_BYTES,
                decreases m.len() - k,
            {
                let w = utf8_width_exec(self.match_buf[k]);
                proof {
                    lemma_cover_step(m, k as int, acc as int, need as int);
                }
                acc = acc + w;
                k = k + 1;
            }
            proof {
                lemma_encode_concat(m.take(k as int), m.skip(k as int));
                assert(m.take(k as int) + m.skip(k as int) =~= m);
                assert(m.skip(k as int) =~= m.subrange(k as int, m.len() as int));
            }
            self.match_buf = slice_of(&self.match_buf, k, self.match_buf.len());
            self.match_bytes = self.match_bytes - acc;
        }
    }

    /// The output of a text frame arrives (see `text_frame_chunk`). A non-empty chunk is
    /// added to the collected bytes (capped) and, normalized, to the search window, which
    /// is then cut back if it grew too long; the result is the exit status if the window
    /// now holds a complete sentinel for `token`.
    pub fn push_text(&mut self, chunk: &str, token: &str) -> (r: Option<i32>)
        requires
            old(self).wf(),
            byte_len(old(self).window()) <= usize::MAX / 2,
            encode_utf8(chunk@).len() <= usize::MAX / 2,
        ensures
            final(self).wf(),
            chunk@.len() == 0 ==> {
                &&& final(self).raw() == old(self).raw()
                &&& final(self).cut() == old(self).cut()
                &&& final(self).window() == old(self).window()
                &&& r is None
            },
            chunk@.len() > 0 ==> {
                &&& final(self).raw() == append_capped(old(self).raw(), encode_utf8(chunk@)).0
                &&& final(self).cut() == (old(self).cut() || append_capped(
                    old(self).raw(),
                    encode_utf8(chunk@),
                ).1)
                &&& final(self).window() == trim_window(old(self).window() + normalized(chunk@))
                &&& byte_len(final(self).window()) <= MATCH_WINDOW_BYTES + MATCH_WINDOW_SLACK
                &&& sentinel_found(r, final(self).window(), token@)
            },
    {
        if chunk.len() == 0 {
            return None;
        }
        self.append_bytes(chunk.as_bytes());
        self.append_window(chunk);
        self.trim_window_exec();
        find_sentinel_chars(&self.match_buf, &chars_of(token))
    }

    /// The output of a binary frame arrives (see `binary_frame_chunk`): it is added to the
    /// collected bytes (capped) and, normalized, to the search window (which is not cut
    /// back here); the result is the exit status if the window holds a complete sentinel.
    pub fn push_binary(&mut self, chunk: &str, token: &str) -> (r: Option<i32>)
        requires
            old(self).wf(),
            byte_len(old(self).window()) <= usize::MAX / 2,
            encode_utf8(chunk@).len() <= usize::MAX / 2,
        ensures
            final(self).wf(),
            final(self).raw() == append_capped(old(self).raw(), encode_utf8(chunk@)).0,
            final(self).cut() == (old(self).cut() || append_capped(
                old(self).raw(),
                encode_utf8(chunk@),
            ).1),
            final(self).window() == old(self).window() + normalized(chunk@),
            sentinel_found(r, final(self).window(), token@),
    {
        self.append_bytes(chunk.as_bytes());
        self.append_window(chunk);
        find_sentinel_chars(&self.match_buf, &chars_of(token))
    }
}

proof fn lemma_cover_step(m: Seq<char>, k: int, acc: int, need: int)
    requires
        0 <= k < m.len(),
        acc == byte_len(m.take(k)),
        acc < need,
    ensures
        byte_len(m.take(k + 1)) == acc + utf8_width(m[k]),
        byte_len(m.take(k + 1)) <= byte_len(m),
        chars_to_cover(m.skip(k), need - acc) == 1 + chars_to_cover(
            m.skip(k + 1),
            need - acc - utf8_width(m[k]),
        ),
{
    let c = m[k];
    lemma_width(c);
    lemma_encode_push(m.take(k), c);
    assert(m.take(k + 1) =~= m.take(k).push(c));
    assert(m.skip(k).drop_first() =~= m.skip(k + 1));
    assert(m.skip(k)[0] == c);
    lemma_encode_concat(m.take(k + 1), m.skip(k + 1));
    assert(m.take(k + 1) + m.skip(k + 1) =~= m);
}

/// `r` is what the sentinel search reports on `window`.
pub open spec fn sentinel_found(r: Option<i32>, window: Seq<char>, token: Seq<char>) -> bool {
    match r {
        Some(code) => find_sentinel_spec(window, token) == Some(code as int),
        None => find_sentinel_spec(window, token) is None,
    }
}

pub proof fn lemma_strip_shorter(s: Seq<char>)
    ensures
        byte_len(crate::terminal::strip_ansi_spec(s)) <= byte_len(s),
    decreases s.len(),
{
    if s.len() > 0 {
        lemma_strip_shorter(s.drop_last());
        lemma_encode_push(s.drop_last(), s.last());
        assert(s.drop_last().push(s.last()) =~= s);
        let out = crate::terminal::ansi_run(s.drop_last()).1;
        lemma_encode_push(out, s.last());
    }
}

pub proof fn lemma_breaks_shorter(s: Seq<char>)
    ensures
        byte_len(crate::terminal::drop_breaks(s)) <= byte_len(s),
    decreases s.len(),
{
    if s.len() > 0 {
        lemma_breaks_shorter(s.drop_last());
        lemma_encode_push(s.drop_last(), s.last());
        assert(s.drop_last().push(s.last()) =~= s);
        lemma_encode_push(crate::terminal::drop_breaks(s.drop_last()), s.last());
    }
}

pub proof fn lemma_normalized_shorter(s: Seq<char>)
    ensures
        byte_len(normalized(s)) <= byte_len(s),
{
    lemma_strip_shorter(s);
    lemma_breaks_shorter(crate::terminal::strip_ansi_spec(s));
}

// ---------------------------------------------------------------------------
// Results
// ---------------------------------------------------------------------------

pub open spec fn bool_text(b: bool) -> Seq<char> {
    if b {
        "true"@
    } else {
        "false"@
    }
}

/// The one-line JSON form of a result, fields in a fixed order.
pub open spec fn to_json_spec(r: ExecResult) -> Seq<char> {
    "{\"exit_code\":"@ + int_dec(r.exit_code as int) + ",\"duration_ms\":"@ + dec(
        r.duration_ms as nat,
    ) + ",\"truncated\":"@ + bool_text(r.truncated) + ",\"error\":"@ + (match r.error {
        Some(e) => json_quote(e@),
        None => "null"@,
    }) + ",\"output\":"@ + json_quote(r.output@) + "}"@
}

/// `{"exit_code":..,"duration_ms":..,"truncated":..,"error":..,"output":..}` on one line.
pub fn to_json(result: &ExecResult) -> (r: Result<String, ExecError>)
    ensures
        r matches Ok(s) && s@ == to_json_spec(*result),
{
    let mut out = chars_of("{\"exit_code\":");
    push_all(&mut out, &dec_i64(result.exit_code as i64));
    push_all(&mut out, &chars_of(",\"duration_ms\":"));
    push_all(&mut out, &dec_u64(result.duration_ms));
    push_all(&mut out, &chars_of(",\"truncated\":"));
    if result.truncated {
        push_all(&mut out, &chars_of("true"));
    } else {
        push_all(&mut out, &chars_of("false"));
    }
    push_all(&mut out, &chars_of(",\"error\":"));
    match &result.error {
        Some(e) => push_all(&mut out, &chars_of(json_quote_str(e.as_str()).as_str())),
        None => push_all(&mut out, &chars_of("null")),
    }
    push_all(&mut out, &chars_of(",\"output\":"));
    push_all(&mut out, &chars_of(json_quote_str(result.output.as_str()).as_str()));
    push_all(&mut out, &chars_of("}"));
    Ok(string_of(&out))
}

/// The output text of a run: the collected bytes read as UTF-8 (lossily), cleaned up
/// unless `raw`, then cut to the last `tail` lines if asked; and whether that cut dropped
/// lines.
pub open spec fn result_output(raw: Seq<u8>, token: Seq<char>, keep_raw: bool, tail: Option<usize>) -> (
    Seq<char>,
    bool,
) {
    let text = lossy_utf8(raw);
    let cleaned = if keep_raw {
        text
    } else {
        clean_output_spec(text, token)
    };
    match tail {
        Some(n) => tail_lines_spec(cleaned, n as nat),
        None => (cleaned, false),
    }
}

/// What a run shows: without `--raw`, the transcript cleaned up (banner, echoed command,
/// sentinel and prompt removed), in which the sentinel of a token without line breaks no
/// longer occurs; with `--raw`, the transcript itself, read lossily as UTF-8; `--tail`
/// then keeps the last lines of that text.
pub proof fn law_result_output(raw: Seq<u8>, token: Seq<char>, keep_raw: bool, tail: Option<usize>)
    ensures
        !keep_raw ==> result_output(raw, token, keep_raw, None) == (
            clean_output_spec(lossy_utf8(raw), token),
            false,
        ),
        keep_raw ==> result_output(raw, token, keep_raw, None) == (lossy_utf8(raw), false),
        !keep_raw && !token.contains('\n') ==> !crate::text::contains_seq(
            result_output(raw, token, keep_raw, None).0,
            sentinel_prefix() + token,
        ),
        tail matches Some(n) ==> result_output(raw, token, keep_raw, tail) == tail_lines_spec(
            result_output(raw, token, keep_raw, None).0,
            n as nat,
        ),
{
    if !keep_raw && !token.contains('\n') {
        crate::terminal::law_clean_output_drops_sentinel(lossy_utf8(raw), token);
    }
}

/// The result of a run (see `result_output`), and whether `--tail` dropped lines.
pub fn build_result(
    opts: &ExecOptions,
    raw: &[u8],
    token: &str,
    truncated: bool,
    error: Option<String>,
    exit_code: i32,
    duration_ms: u64,
) -> (r: (ExecResult, bool))
    ensures
        (r.0.output@, r.1) == result_output(raw@, token@, opts.raw, opts.tail),
        !opts.raw && opts.tail is None ==> r.0.output@ == clean_output_spec(lossy_utf8(raw@), token@),
        opts.raw && opts.tail is None ==> r.0.output@ == lossy_utf8(raw@),
        r.0.exit_code == exit_code,
        r.0.duration_ms == duration_ms,
        r.0.truncated == truncated,
        r.0.error == error,
{
    let raw_text = utf8_lossy(raw);
    let cleaned = if opts.raw {
        raw_text
    } else {
        clean_output(raw_text.as_str(), token)
    };
    let (output, tail_truncated) = match opts.tail {
        Some(n) => tail_lines(cleaned.as_str(), n),
        None => (cleaned, false),
    };
    (ExecResult { exit_code, duration_ms, truncated, error, output }, tail_truncated)
}

/// How a terminal session ended.
pub enum EndState {
    /// The sentinel arrived with this exit status.
    Completed(i32),
    /// The server closed the connection; its reason text.
    ServerClosed(String),
    /// The server closed the connection without giving a reason.
    ClosedWithoutReason,
    /// The connection dropped.
    Dropped,
    /// No sentinel before the deadline.
    TimedOut,
}

pub open spec fn end_exit_code_spec(s: EndState) -> int {
    match s {
        EndState::Completed(c) => if c < 0 {
            0
        } else if c > 255 {
            255
        } else {
            c as int
        },
        EndState::TimedOut => TIMEOUT_EXIT_CODE as int,
        _ => 1,
    }
}

/// The exit code reported for a session: the command's status clamped to 0..=255,
/// 124 on timeout, 1 when the connection failed.
pub fn end_exit_code(state: &EndState) -> (r: i32)
    ensures
        r as int == end_exit_code_spec(*state),
{
    match state {
        EndState::Completed(c) => if *c < 0 {
            0
        } else if *c > 255 {
            255
        } else {
            *c
        },
        EndState::TimedOut => TIMEOUT_EXIT_CODE,
        _ => 1,
    }
}

/// Why the server closed the terminal.
pub enum CloseCause {
    /// No local SSH connection is saved on the panel (with the server's text, if readable).
    NotConfigured(Option<String>),
    /// The panel runs in demo mode.
    DemoMode(String),
    /// Another reason the server gave.
    Reason(String),
    /// No readable reason; the saved SSH connection probably failed.
    Unverified,
}

/// A close reason that says something: not blank, and not the placeholder that the
/// WebSocket library puts in place of an unreadable frame.
pub open spec fn readable_reason(r: Seq<char>) -> bool {
    ws_trim(r).len() > 0 && ws_trim(r) != "Protocol violation"@
}

/// The cause of a close with `reason`, given what the panel reports as the local SSH
/// connection's address (`probed_addr`; `None` when that could not be read).
pub fn close_cause(reason: &str, probed_addr: Option<&str>) -> (r: CloseCause)
    ensures
        ({
            let t = ws_trim(reason@);
            match r {
                CloseCause::NotConfigured(x) => probed_addr matches Some(a) && a@.len() == 0 && match x {
                    Some(m) => readable_reason(reason@) && m@ == t,
                    None => !readable_reason(reason@),
                },
                CloseCause::DemoMode(m) => !(probed_addr matches Some(a) && a@.len() == 0)
                    && readable_reason(reason@) && crate::text::contains_seq(t, "demo server"@) && m@
                    == t,
                CloseCause::Reason(m) => !(probed_addr matches Some(a) && a@.len() == 0)
                    && readable_reason(reason@) && !crate::text::contains_seq(t, "demo server"@) && m@
                    == t,
                CloseCause::Unverified => !(probed_addr matches Some(a) && a@.len() == 0)
                    && !readable_reason(reason@),
            }
        }),
{
    let t = trim_ws(&chars_of(reason));
    let readable = t.len() > 0 && !crate::text::same(&t, &chars_of("Protocol violation"));
    let not_configured = match probed_addr {
        Some(a) => chars_of(a).len() == 0,
        None => false,
    };
    if not_configured {
        if readable {
            return CloseCause::NotConfigured(Some(string_of(&t)));
        }
        return CloseCause::NotConfigured(None);
    }
    if readable {
        if crate::text::contains(&t, &chars_of("demo server")) {
            return CloseCause::DemoMode(string_of(&t));
        }
        return CloseCause::Reason(string_of(&t));
    }
    CloseCause::Unverified
}

/// The saved local SSH connection as read from the panel (an empty one when the panel
/// returned none).
pub fn local_conn_info(data: Option<LocalConnInfo>) -> (r: LocalConnInfo)
    ensures
        match data {
            Some(d) => r == d,
            None => r.addr@.len() == 0 && r.user@.len() == 0,
        },
{
    match data {
        Some(d) => d,
        None => LocalConnInfo { addr: string_of(&Vec::new()), user: string_of(&Vec::new()) },
    }
}

/// Whether the panel's local SSH connection must be (re)written for `user`: it is missing,
/// or saved for another user. A connection that could not be read is left alone.
pub fn needs_local_conn_sync(info: Option<&LocalConnInfo>, user: &str) -> (r: bool)
    ensures
        r == match info {
            Some(i) => i.addr@.len() == 0 || (i.user@.len() > 0 && i.user@ != user@),
            None => false,
        },
{
    match info {
        Some(i) => {
            let u = chars_of(i.user.as_str());
            chars_of(i.addr.as_str()).len() == 0 || (u.len() > 0 && !crate::text::same(
                &u,
                &chars_of(user),
            ))
        },
        None => false,
    }
}

/// Checks the numeric options of a run before anything is sent.
pub fn validate_options(opts: &ExecOptions) -> (r: Result<(), ExecError>)
    ensures
        opts.timeout <= 0 ==> r == Err::<(), ExecError>(ExecError::BadTimeout),
        opts.timeout > 0 && (opts.cols <= 0 || opts.rows <= 0) ==> r == Err::<(), ExecError>(
            ExecError::BadTerminalSize,
        ),
        opts.timeout > 0 && opts.cols > 0 && opts.rows > 0 ==> r is Ok,
{
    if opts.timeout <= 0 {
        return Err(ExecError::BadTimeout);
    }
    if opts.cols <= 0 || opts.rows <= 0 {
        return Err(ExecError::BadTerminalSize);
    }
    Ok(())
}

/// What one read from the terminal WebSocket gave.
pub enum Frame {
    /// A text frame, with its reading as a terminal message (`None` when it is not one).
    Text(String, Option<WsMsg>),
    /// A binary frame.
    Binary(Vec<u8>),
    /// A ping, pong or raw frame: nothing to collect.
    Control,
    /// A close frame, with its reason when it carried one.
    Close(Option<String>),
    /// The read timed out: the deadline passed.
    ReadTimeout,
    /// The connection is closed.
    Closed,
}

/// Whether the session goes on after a frame, or how it ended.
pub enum Step {
    Continue,
    End(EndState),
}

pub open spec fn collector_room(c: OutputCollector, chunk: Seq<char>) -> bool {
    &&& c.wf()
    &&& byte_len(c.window()) <= usize::MAX / 2
    &&& encode_utf8(chunk).len() <= usize::MAX / 2
}

/// The output carried by a frame (empty for frames without output).
pub open spec fn frame_output(f: Frame) -> Seq<char> {
    match f {
        Frame::Text(t, m) => text_frame_spec(t@, msg_view(m)),
        Frame::Binary(b) => lossy_utf8(b@),
        _ => Seq::empty(),
    }
}

pub open spec fn step_of(found: Option<i32>) -> Step {
    match found {
        Some(code) => Step::End(EndState::Completed(code)),
        None => Step::Continue,
    }
}

/// One step of the terminal session: the frame's output is collected (see
/// `OutputCollector::push_text` and `push_binary`) and the session completes when the
/// sentinel shows; a close frame ends it with the server's reason (or without one), a read
/// timeout ends it as timed out, a closed connection as dropped.
pub fn session_step(collector: &mut OutputCollector, frame: Frame, token: &str) -> (r: Step)
    requires
        collector_room(*old(collector), frame_output(frame)),
    ensures
        final(collector).wf(),
        match frame {
            Frame::Text(t, m) => {
                let chunk = text_frame_spec(t@, msg_view(m));
                if chunk.len() == 0 {
                    *final(collector) == *old(collector) && r == Step::Continue
                } else {
                    &&& final(collector).raw() == append_capped(old(collector).raw(), encode_utf8(chunk)).0
                    &&& final(collector).cut() == (old(collector).cut() || append_capped(
                        old(collector).raw(),
                        encode_utf8(chunk),
                    ).1)
                    &&& final(collector).window() == trim_window(old(collector).window() + normalized(chunk))
                    &&& byte_len(final(collector).window()) <= MATCH_WINDOW_BYTES + MATCH_WINDOW_SLACK
                    &&& exists|found: Option<i32>| sentinel_found(found, final(collector).window(), token@) && r == step_of(found)
                }
            },
            Frame::Binary(b) => {
                let chunk = lossy_utf8(b@);
                &&& final(collector).raw() == append_capped(old(collector).raw(), encode_utf8(chunk)).0
                &&& final(collector).cut() == (old(collector).cut() || append_capped(
                    old(collector).raw(),
                    encode_utf8(chunk),
                ).1)
                &&& final(collector).window() == old(collector).window() + normalized(chunk)
                &&& exists|found: Option<i32>| sentinel_found(found, final(collector).window(), token@) && r == step_of(found)
            },
            Frame::Control => *final(collector) == *old(collector) && r == Step::Continue,
            Frame::Close(Some(reason)) => *final(collector) == *old(collector) && r == Step::End(
                EndState::ServerClosed(reason),
            ),
            Frame::Close(None) => *final(collector) == *old(collector) && r == Step::End(
                EndState::ClosedWithoutReason,
            ),
            Frame::ReadTimeout => *final(collector) == *old(collector) && r == Step::End(
                EndState::TimedOut,
            ),
            Frame::Closed => *final(collector) == *old(collector) && r == Step::End(EndState::Dropped),
        },
{
    match frame {
        Frame::Text(t, m) => {
            let chunk = text_frame_chunk(t.as_str(), m);
            if chars_of(chunk.as_str()).len() == 0 {
                return Step::Continue;
            }
            let found = collector.push_text(chunk.as_str(), token);
            let r = match found {
                Some(code) => Step::End(EndState::Completed(code)),
                None => Step::Continue,
            };
            assert(sentinel_found(found, collector.window(), token@) && r == step_of(found));
            r
        },
        Frame::Binary(b) => {
            let chunk = binary_frame_chunk(b.as_slice());
            let found = collector.push_binary(chunk.as_str(), token);
            let r = match found {
                Some(code) => Step::End(EndState::Completed(code)),
                None => Step::Continue,
            };
            assert(sentinel_found(found, collector.window(), token@) && r == step_of(found));
            r
        },
        Frame::Control => Step::Continue,
        Frame::Close(Some(reason)) => Step::End(EndState::ServerClosed(reason)),
        Frame::Close(None) => Step::End(EndState::ClosedWithoutReason),
        Frame::ReadTimeout => Step::End(EndState::TimedOut),
        Frame::Closed => Step::End(EndState::Dropped),
    }
}

/// What the user is told about a server-closed session.
pub open spec fn close_message_spec(c: CloseCause) -> Seq<char> {
    match c {
        CloseCause::NotConfigured(r) => "面板本地 SSH 连接未配置"@ + (match r {
            Some(m) => ": "@ + m@,
            None => Seq::empty(),
        }) + "\n提示: 运行 exec 时加 --sync-ssh(需在 .env 中配置 LINUX_SSH_USER / LINUX_SSH_PWD),或到面板『设置 → 终端 → SSH 本地连接』手动配置"@,
        CloseCause::DemoMode(m) => "面板处于演示模式,终端功能被禁用: "@ + m@,
        CloseCause::Reason(m) => "服务端终止了终端连接: "@ + m@,
        CloseCause::Unverified => "服务端终止了终端连接: 本地 SSH 连接验证可能失败(凭据已变更或连接不可达)\n提示: 可用 --sync-ssh 配合 LINUX_SSH_USER / LINUX_SSH_PWD 覆盖更新"@,
    }
}

pub fn close_message(c: &CloseCause) -> (r: String)
    ensures
        r@ == close_message_spec(*c),
{
    let mut out: Vec<char> = Vec::new();
    match c {
        CloseCause::NotConfigured(r) => {
            push_all(&mut out, &chars_of("面板本地 SSH 连接未配置"));
            match r {
                Some(m) => {
                    push_all(&mut out, &chars_of(": "));
                    push_all(&mut out, &chars_of(m.as_str()));
                },
                None => {},
            }
            push_all(
                &mut out,
                &chars_of(
                    "\n提示: 运行 exec 时加 --sync-ssh(需在 .env 中配置 LINUX_SSH_USER / LINUX_SSH_PWD),或到面板『设置 → 终端 → SSH 本地连接』手动配置",
                ),
            );
        },
        CloseCause::DemoMode(m) => {
            push_all(&mut out, &chars_of("面板处于演示模式,终端功能被禁用: "));
            push_all(&mut out, &chars_of(m.as_str()));
        },
        CloseCause::Reason(m) => {
            push_all(&mut out, &chars_of("服务端终止了终端连接: "));
            push_all(&mut out, &chars_of(m.as_str()));
        },
        CloseCause::Unverified => {
            push_all(
                &mut out,
                &chars_of(
                    "服务端终止了终端连接: 本地 SSH 连接验证可能失败(凭据已变更或连接不可达)\n提示: 可用 --sync-ssh 配合 LINUX_SSH_USER / LINUX_SSH_PWD 覆盖更新",
                ),
            );
        },
    }
    string_of(&out)
}

/// How a run ends for the caller: the exit code, the error reported beside the output, and
/// whether the run failed (a timeout still delivers its output).
pub struct Outcome {
    pub exit_code: i32,
    pub error: Option<String>,
    pub failed: bool,
}

pub open spec fn dropped_message(what: Seq<char>) -> Seq<char> {
    what + "(shell 可能已退出或面板 agent 重启),命令可能未执行完成"@
}

/// The outcome of a session that ended in `state`; `cause` is the explanation of a server
/// close (see `close_cause`).
pub open spec fn outcome_spec(state: EndState, timeout: i64, cause: Option<CloseCause>) -> (int, Option<Seq<char>>, bool) {
    match state {
        EndState::Completed(_) => (end_exit_code_spec(state), None, false),
        EndState::TimedOut => (
            TIMEOUT_EXIT_CODE as int,
            Some("超时("@ + int_dec(timeout as int) + "s)未见完成哨兵,已返回收集到的输出"@),
            false,
        ),
        EndState::ServerClosed(_) => (1, match cause {
            Some(c) => Some(close_message_spec(c)),
            None => None,
        }, true),
        EndState::ClosedWithoutReason => (1, Some(dropped_message("连接被服务端关闭(未携带原因)"@)), true),
        EndState::Dropped => (1, Some(dropped_message("连接被意外关闭"@)), true),
    }
}

/// The outcome of a finished session (see `outcome_spec`).
pub fn execute_outcome(state: &EndState, timeout: i64, cause: Option<&CloseCause>) -> (r: Outcome)
    requires
        (state is ServerClosed) <==> (cause is Some),
    ensures
        (r.exit_code as int, opt_string_view(r.error), r.failed) == outcome_spec(
            *state,
            timeout,
            match cause {
                Some(c) => Some(*c),
                None => None,
            },
        ),
{
    match state {
        EndState::Completed(_) => Outcome { exit_code: end_exit_code(state), error: None, failed: false },
        EndState::TimedOut => {
            let mut m = chars_of("超时(");
            push_all(&mut m, &dec_i64(timeout));
            push_all(&mut m, &chars_of("s)未见完成哨兵,已返回收集到的输出"));
            Outcome { exit_code: TIMEOUT_EXIT_CODE, error: Some(string_of(&m)), failed: false }
        },
        EndState::ServerClosed(_) => {
            let msg = match cause {
                Some(c) => Some(close_message(c)),
                None => None,
            };
            Outcome { exit_code: 1, error: msg, failed: true }
        },
        EndState::ClosedWithoutReason => {
            let mut m = chars_of("连接被服务端关闭(未携带原因)");
            push_all(&mut m, &chars_of("(shell 可能已退出或面板 agent 重启),命令可能未执行完成"));
            Outcome { exit_code: 1, error: Some(string_of(&m)), failed: true }
        },
        EndState::Dropped => {
            let mut m = chars_of("连接被意外关闭");
            push_all(&mut m, &chars_of("(shell 可能已退出或面板 agent 重启),命令可能未执行完成"));
            Outcome { exit_code: 1, error: Some(string_of(&m)), failed: true }
        },
    }
}

pub open spec fn opt_string_view(o: Option<String>) -> Option<Seq<char>> {
    match o {
        Some(s) => Some(s@),
        None => None,
    }
}

// ---------------------------------------------------------------------------
// Laws
// ---------------------------------------------------------------------------

/// The exit code of a run: the command's own status when it is 0 to 255 (passed through
/// as the tool's exit code), 124 on timeout, and always within 0..=255.
pub proof fn law_exit_code(state: EndState)
    ensures
        0 <= end_exit_code_spec(state) <= 255,
        forall|c: i32| state == EndState::Completed(c) && 0 <= c <= 255 ==> end_exit_code_spec(state) == c,
        state is TimedOut ==> end_exit_code_spec(state) == 124,
{
}

/// How a POSIX shell reads a word of single-quoted parts, backslash escapes and plain
/// characters; `None` for an unterminated quote.
pub open spec fn sh_unquote(w: Seq<char>, quoted: bool) -> Option<Seq<char>>
    decreases w.len(),
{
    if w.len() == 0 {
        if quoted {
            None
        } else {
            Some(Seq::empty())
        }
    } else if quoted {
        if w[0] == '\'' {
            sh_unquote(w.drop_first(), false)
        } else {
            match sh_unquote(w.drop_first(), true) {
                Some(r) => Some(seq![w[0]] + r),
                None => None,
            }
        }
    } else if w[0] == '\'' {
        sh_unquote(w.drop_first(), true)
    } else if w[0] == '\\' && w.len() >= 2 {
        match sh_unquote(w.skip(2), false) {
            Some(r) => Some(seq![w[1]] + r),
            None => None,
        }
    } else {
        match sh_unquote(w.drop_first(), false) {
            Some(r) => Some(seq![w[0]] + r),
            None => None,
        }
    }
}

proof fn lemma_escape_concat(a: Seq<char>, b: Seq<char>)
    ensures
        escape_quotes(a + b) == escape_quotes(a) + escape_quotes(b),
    decreases b.len(),
{
    if b.len() == 0 {
        assert(a + b =~= a);
        assert(escape_quotes(a) + escape_quotes(b) =~= escape_quotes(a));
    } else {
        lemma_escape_concat(a, b.drop_last());
        assert((a + b).drop_last() =~= a + b.drop_last());
        assert((a + b).last() == b.last());
        assert(escape_quotes(a) + escape_quotes(b) =~= escape_quotes(a) + escape_quotes(b.drop_last())
            + quote_char(b.last()));
    }
}

pub open spec fn prepend_opt(p: Seq<char>, r: Option<Seq<char>>) -> Option<Seq<char>> {
    match r {
        Some(x) => Some(p + x),
        None => None,
    }
}

proof fn lemma_unquote_escaped(s: Seq<char>, r: Seq<char>)
    ensures
        sh_unquote(escape_quotes(s) + seq!['\''] + r, true) == prepend_opt(s, sh_unquote(r, false)),
    decreases s.len(),
{
    let w = escape_quotes(s) + seq!['\''] + r;
    if s.len() == 0 {
        assert(w =~= seq!['\''] + r);
        assert(w[0] == '\'');
        assert(w.drop_first() =~= r);
        assert(sh_unquote(w, true) == sh_unquote(r, false));
        match sh_unquote(r, false) {
            Some(x) => assert(s + x =~= x),
            None => {},
        }
    } else {
        let c = s[0];
        let t = s.drop_first();
        assert(s =~= seq![c] + t);
        lemma_escape_concat(seq![c], t);
        assert(seq![c].drop_last() =~= Seq::<char>::empty());
        assert(escape_quotes(seq![c]) == escape_quotes(Seq::<char>::empty()) + quote_char(c));
        assert(escape_quotes(seq![c]) =~= quote_char(c));
        let x = escape_quotes(t) + seq!['\''] + r;
        lemma_unquote_escaped(t, r);
        if c == '\'' {
            assert(w =~= seq!['\'', '\\', '\'', '\''] + x);
            let w1 = w.drop_first();
            assert(w1 =~= seq!['\\', '\'', '\''] + x);
            let w2 = w1.skip(2);
            assert(w2 =~= seq!['\''] + x);
            assert(w2.drop_first() =~= x);
            assert(w[0] == '\'');
            assert(sh_unquote(w, true) == sh_unquote(w1, false));
            assert(w1[0] == '\\' && w1.len() >= 2 && w1[1] == '\'');
            assert(sh_unquote(w2, false) == sh_unquote(x, true));
            assert(sh_unquote(w1, false) == prepend_opt(seq!['\''], sh_unquote(w2, false)));
            match sh_unquote(r, false) {
                Some(y) => assert(seq!['\''] + (t + y) =~= s + y),
                None => {},
            }
        } else {
            assert(w =~= seq![c] + x);
            assert(w[0] == c);
            assert(w.drop_first() =~= x);
            assert(sh_unquote(w, true) == prepend_opt(seq![c], sh_unquote(x, true)));
            match sh_unquote(r, false) {
                Some(y) => assert(seq![c] + (t + y) =~= s + y),
                None => {},
            }
        }
    }
}

/// Quoting a directory for `cd -- '<dir>'` is safe: the shell reads the quoted word back as
/// exactly the text that was quoted, whatever quotes or other characters it holds.
pub proof fn law_quote_roundtrip(s: Seq<char>)
    ensures
        sh_unquote(quote_posix_spec(s), false) == Some(s),
{
    let w = quote_posix_spec(s);
    assert(w.drop_first() =~= escape_quotes(s) + seq!['\''] + Seq::<char>::empty());
    lemma_unquote_escaped(s, Seq::<char>::empty());
    assert(s + Seq::<char>::empty() =~= s);
}

proof fn lemma_json_escape_one_line(s: Seq<char>)
    ensures
        !json_escape(s).contains('\n'),
    decreases s.len(),
{
    if s.len() > 0 {
        lemma_json_escape_one_line(s.drop_last());
        let a = json_escape(s.drop_last());
        let b = json_escape_char(s.last());
        assert(!b.contains('\n')) by {
            let u = s.last() as u32;
            if u < 32 && u != 8 && u != 9 && u != 10 && u != 12 && u != 13 && s.last() != '"' && s.last() != '\\' {
                assert(hex_lower((u / 16) as nat) != '\n');
                assert(hex_lower((u % 16) as nat) != '\n');
            }
            assert('\n' as u32 == 10);
        }
        assert forall|i: int| 0 <= i < (a + b).len() implies (a + b)[i] != '\n' by {
            if i < a.len() {
                assert((a + b)[i] == a[i]);
            } else {
                assert((a + b)[i] == b[i - a.len()]);
            }
        }
    }
}

proof fn lemma_dec_one_line(n: nat)
    ensures
        !dec(n).contains('\n'),
    decreases n,
{
    if n >= 10 {
        lemma_dec_one_line(n / 10);
        let d = dec(n / 10);
        assert forall|i: int| 0 <= i < dec(n).len() implies dec(n)[i] != '\n' by {
            if i < d.len() {
                assert(dec(n)[i] == d[i]);
            }
        }
    }
}

proof fn lemma_concat_one_line(a: Seq<char>, b: Seq<char>)
    requires
        !a.contains('\n'),
        !b.contains('\n'),
    ensures
        !(a + b).contains('\n'),
{
    assert forall|i: int| 0 <= i < (a + b).len() implies (a + b)[i] != '\n' by {
        if i < a.len() {
            assert((a + b)[i] == a[i]);
        } else {
            assert((a + b)[i] == b[i - a.len()]);
        }
    }
}

/// `--json` prints one line: the JSON form of a result never holds a line break, whatever
/// the output or error text holds.
pub proof fn law_json_is_one_line(r: ExecResult)
    ensures
        !to_json_spec(r).contains('\n'),
{
    reveal_strlit("{\"exit_code\":");
    reveal_strlit(",\"duration_ms\":");
    reveal_strlit(",\"truncated\":");
    reveal_strlit(",\"error\":");
    reveal_strlit(",\"output\":");
    reveal_strlit("}");
    reveal_strlit("true");
    reveal_strlit("false");
    reveal_strlit("null");
    let code = int_dec(r.exit_code as int);
    lemma_dec_one_line((if r.exit_code < 0 {
        -(r.exit_code as int)
    } else {
        r.exit_code as int
    }) as nat);
    if r.exit_code < 0 {
        lemma_concat_one_line(seq!['-'], dec((-(r.exit_code as int)) as nat));
    }
    lemma_dec_one_line(r.duration_ms as nat);
    let err = match r.error {
        Some(e) => json_quote(e@),
        None => "null"@,
    };
    match r.error {
        Some(e) => {
            lemma_json_escape_one_line(e@);
            lemma_concat_one_line(seq!['"'], json_escape(e@));
            lemma_concat_one_line(seq!['"'] + json_escape(e@), seq!['"']);
        },
        None => {},
    }
    lemma_json_escape_one_line(r.output@);
    lemma_concat_one_line(seq!['"'], json_escape(r.output@));
    lemma_concat_one_line(seq!['"'] + json_escape(r.output@), seq!['"']);
    let p1 = "{\"exit_code\":"@ + code;
    lemma_concat_one_line("{\"exit_code\":"@, code);
    let p2 = p1 + ",\"duration_ms\":"@;
    lemma_concat_one_line(p1, ",\"duration_ms\":"@);
    let p3 = p2 + dec(r.duration_ms as nat);
    lemma_concat_one_line(p2, dec(r.duration_ms as nat));
    let p4 = p3 + ",\"truncated\":"@;
    lemma_concat_one_line(p3, ",\"truncated\":"@);
    let p5 = p4 + bool_text(r.truncated);
    lemma_concat_one_line(p4, bool_text(r.truncated));
    let p6 = p5 + ",\"error\":"@;
    lemma_concat_one_line(p5, ",\"error\":"@);
    let p7 = p6 + err;
    lemma_concat_one_line(p6, err);
    let p8 = p7 + ",\"output\":"@;
    lemma_concat_one_line(p7, ",\"output\":"@);
    let p9 = p8 + json_quote(r.output@);
    lemma_concat_one_line(p8, json_quote(r.output@));
    lemma_concat_one_line(p9, "}"@);
}

/// The collected output is always the start of what the terminal sent: at most
/// `MAX_OUTPUT_BYTES` bytes are kept, and bytes are reported cut off exactly when the
/// stream grew beyond that.
pub proof fn law_capped_prefix(buf: Seq<u8>, bytes: Seq<u8>)
    requires
        buf.len() <= MAX_OUTPUT_BYTES,
    ensures
        append_capped(buf, bytes).0 == (buf + bytes).take(
            if buf.len() + bytes.len() > MAX_OUTPUT_BYTES {
                MAX_OUTPUT_BYTES as int
            } else {
                (buf.len() + bytes.len()) as int
            },
        ),
        append_capped(buf, bytes).1 <==> buf.len() + bytes.len() > MAX_OUTPUT_BYTES,
        append_capped(buf, bytes).0.len() <= MAX_OUTPUT_BYTES,
{
    if buf.len() + bytes.len() > MAX_OUTPUT_BYTES {
        let k = MAX_OUTPUT_BYTES - buf.len();
        assert(buf + bytes.take(k) =~= (buf + bytes).take(MAX_OUTPUT_BYTES as int));
    } else {
        assert(buf + bytes =~= (buf + bytes).take((buf.len() + bytes.len()) as int));
    }
}


proof fn lemma_concat_no_break(a: Seq<char>, b: Seq<char>)
    requires
        !has_break(a),
        !has_break(b),
    ensures
        !has_break(a + b),
{
    assert forall|i: int| 0 <= i < (a + b).len() implies (a + b)[i] != '\n' && (a + b)[i] != '\r' by {
        if i < a.len() {
            assert((a + b)[i] == a[i]);
        } else {
            assert((a + b)[i] == b[i - a.len()]);
        }
    }
}

proof fn lemma_escape_no_break(s: Seq<char>)
    requires
        !has_break(s),
    ensures
        !has_break(escape_quotes(s)),
    decreases s.len(),
{
    if s.len() > 0 {
        assert forall|i: int| 0 <= i < s.drop_last().len() implies s.drop_last()[i] != '\n'
            && s.drop_last()[i] != '\r' by {
            assert(s.drop_last()[i] == s[i]);
        }
        lemma_escape_no_break(s.drop_last());
        let q = quote_char(s.last());
        assert(s[s.len() - 1] == s.last());
        assert forall|i: int| 0 <= i < q.len() implies q[i] != '\n' && q[i] != '\r' by {}
        lemma_concat_no_break(escape_quotes(s.drop_last()), q);
    }
}

proof fn lemma_quote_no_break(s: Seq<char>)
    requires
        !has_break(s),
    ensures
        !has_break(quote_posix_spec(s)),
{
    lemma_escape_no_break(s);
    lemma_concat_no_break(seq!['\''], escape_quotes(s));
    lemma_concat_no_break(seq!['\''] + escape_quotes(s), seq!['\'']);
}

proof fn lemma_literal_no_break(t: Seq<char>)
    requires
        forall|i: int| 0 <= i < t.len() ==> t[i] != '\n' && t[i] != '\r',
    ensures
        !has_break(t),
{
}

/// The composed command is one line (the terminal runs it on Enter), and it ends with the
/// sentinel `; echo __1PCLI_<token>_$?` that reports the command's exit status.
pub proof fn law_compose_one_line(cwd: Option<Seq<char>>, command: Seq<char>, token: Seq<char>, sudo: bool)
    requires
        !has_break(token),
    ensures
        compose_spec(cwd, command, token, sudo) matches Ok(c) ==> !has_break(c) && crate::text::suffix_of(
            "; echo "@ + sentinel_prefix() + token + "_$?"@,
            c,
        ),
{
    reveal_strlit("; echo ");
    reveal_strlit("__1PCLI_");
    reveal_strlit("_$?");
    reveal_strlit("cd -- ");
    reveal_strlit(" && ");
    reveal_strlit("( sudo -n -H bash -c ");
    reveal_strlit(" )");
    reveal_strlit("( ");
    let cmd = ws_trim(command);
    let dir = cwd_dir(cwd);
    if cmd.len() > 0 && !has_break(cmd) && !(dir is Some && has_break(dir->0)) {
        let prefix = match dir {
            Some(d) => "cd -- "@ + quote_posix_spec(d) + " && "@,
            None => seq![],
        };
        match dir {
            Some(d) => {
                lemma_quote_no_break(d);
                lemma_literal_no_break("cd -- "@);
                lemma_literal_no_break(" && "@);
                lemma_concat_no_break("cd -- "@, quote_posix_spec(d));
                lemma_concat_no_break("cd -- "@ + quote_posix_spec(d), " && "@);
            },
            None => {},
        }
        lemma_literal_no_break(" )"@);
        let full = if sudo {
            lemma_concat_no_break(prefix, cmd);
            lemma_quote_no_break(prefix + cmd);
            lemma_literal_no_break("( sudo -n -H bash -c "@);
            lemma_concat_no_break("( sudo -n -H bash -c "@, quote_posix_spec(prefix + cmd));
            lemma_concat_no_break("( sudo -n -H bash -c "@ + quote_posix_spec(prefix + cmd), " )"@);
            "( sudo -n -H bash -c "@ + quote_posix_spec(prefix + cmd) + " )"@
        } else {
            lemma_literal_no_break("( "@);
            lemma_concat_no_break(prefix, "( "@);
            lemma_concat_no_break(prefix + "( "@, cmd);
            lemma_concat_no_break(prefix + "( "@ + cmd, " )"@);
            prefix + "( "@ + cmd + " )"@
        };
        let tail = "; echo "@ + sentinel_prefix() + token + "_$?"@;
        lemma_literal_no_break("; echo "@);
        lemma_literal_no_break(sentinel_prefix());
        lemma_literal_no_break("_$?"@);
        lemma_concat_no_break("; echo "@, sentinel_prefix());
        lemma_concat_no_break("; echo "@ + sentinel_prefix(), token);
        lemma_concat_no_break("; echo "@ + sentinel_prefix() + token, "_$?"@);
        lemma_concat_no_break(full, tail);
        assert(full + "; echo "@ + sentinel_prefix() + token + "_$?"@ =~= full + tail);
        assert((full + tail).skip((full + tail).len() - tail.len()) =~= tail);
    }
}

} // verus!
