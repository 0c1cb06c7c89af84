//! Where the panel's address and credentials come from: command-line overrides first,
//! then the environment (a `.env` file is loaded into it by the application).
use vstd::prelude::*;
use crate::text::{
    char_pred, chars_of, concat, drop_trail, find_at_or_after, find_from, is_blank, lemma_find_from_some,
    prefix_of, slice_of, starts_with, string_of, to_ascii_lower, ascii_lower, trim_char, trim_char_exec,
    trim_end_char, trim_ws, ws_trim, blank, same,
};

verus! {

broadcast use vstd::string::group_string_axioms;

/// The environment variables that the configuration reads, as found (`None` when unset).
pub struct EnvVars {
    pub url: Option<String>,
    pub entrance: Option<String>,
    pub username: Option<String>,
    pub password: Option<String>,
    pub mfa_code: Option<String>,
    pub captcha: Option<String>,
    pub captcha_id: Option<String>,
    pub language: Option<String>,
    pub insecure: Option<String>,
    pub node: Option<String>,
    pub linux_ssh_user: Option<String>,
    pub linux_ssh_pwd: Option<String>,
}

/// Values given on the command line; each one wins over its environment variable.
pub struct ConfigOverrides {
    pub url: Option<String>,
    pub entrance: Option<String>,
    pub username: Option<String>,
    pub password: Option<String>,
    pub mfa_code: Option<String>,
    pub captcha: Option<String>,
    pub captcha_id: Option<String>,
    pub language: Option<String>,
    pub insecure: Option<bool>,
    pub linux_ssh_user: Option<String>,
    pub linux_ssh_pwd: Option<String>,
}

/// The resolved connection settings of one panel.
pub struct PanelConfig {
    pub url: String,
    pub entrance: String,
    pub username: String,
    pub password: String,
    pub mfa_code: Option<String>,
    pub captcha: Option<String>,
    pub captcha_id: Option<String>,
    pub language: String,
    pub insecure: bool,
    pub linux_ssh_user: Option<String>,
    pub linux_ssh_pwd: Option<String>,
}

#[derive(Debug, PartialEq, Eq, Structural)]
pub enum ConfigError {
    /// No panel address on the command line or in `PANEL_URL`.
    MissingUrl,
    /// The panel address is blank once trimmed.
    EmptyUrl,
    /// No user name on the command line or in `PANEL_USERNAME`.
    MissingUsername,
    /// No password on the command line or in `PANEL_PASSWORD`.
    MissingPassword,
}

/// An environment value counts only when it is not blank.
pub open spec fn env_value_spec(raw: Option<String>) -> Option<Seq<char>> {
    match raw {
        Some(v) => if is_blank(v@) {
            None
        } else {
            Some(v@)
        },
        None => None,
    }
}

/// The words that switch a flag on, compared without case after trimming.
pub open spec fn truthy(s: Seq<char>) -> bool {
    let t = ascii_lower(ws_trim(s));
    t == "1"@ || t == "true"@ || t == "yes"@ || t == "on"@
}

pub open spec fn opt_view(o: Option<String>) -> Option<Seq<char>> {
    match o {
        Some(v) => Some(v@),
        None => None,
    }
}

/// The override when there is one, else the environment's value.
pub open spec fn pick(over: Option<String>, env: Option<String>) -> Option<Seq<char>> {
    match over {
        Some(v) => Some(v@),
        None => env_value_spec(env),
    }
}

/// The value of an environment variable, kept only when it is not blank.
pub fn env_value(raw: &Option<String>) -> (r: Option<String>)
    ensures
        opt_view(r) == env_value_spec(*raw),
{
    match raw {
        Some(v) => {
            let c = chars_of(v.as_str());
            if blank(&c) {
                None
            } else {
                Some(string_of(&c))
            }
        },
        None => None,
    }
}

/// A flag from the environment: unset or blank gives `None`; otherwise whether the value
/// is `1`, `true`, `yes` or `on` (trimmed, any case).
pub fn env_flag(raw: &Option<String>) -> (r: Option<bool>)
    ensures
        r == (match env_value_spec(*raw) {
            Some(v) => Some(truthy(v)),
            None => None::<bool>,
        }),
{
    match env_value(raw) {
        Some(v) => {
            let t = to_ascii_lower(&trim_ws(&chars_of(v.as_str())));
            Some(
                same(&t, &chars_of("1")) || same(&t, &chars_of("true")) || same(
                    &t,
                    &chars_of("yes"),
                ) || same(&t, &chars_of("on")),
            )
        },
        None => None,
    }
}

/// The host's SSH user and password (`LINUX_SSH_USER`, `LINUX_SSH_PWD`), each kept only
/// when not blank.
pub fn linux_ssh_creds(env: &EnvVars) -> (r: (Option<String>, Option<String>))
    ensures
        opt_view(r.0) == env_value_spec(env.linux_ssh_user),
        opt_view(r.1) == env_value_spec(env.linux_ssh_pwd),
{
    (env_value(&env.linux_ssh_user), env_value(&env.linux_ssh_pwd))
}

/// The node that `--node` selects: the option when it is not blank.
pub fn node_override(node: Option<&str>) -> (r: Option<String>)
    ensures
        match node {
            Some(n) => if is_blank(n@) {
                r is None
            } else {
                r matches Some(v) && v@ == n@
            },
            None => r is None,
        },
{
    match node {
        Some(n) => {
            let c = chars_of(n);
            if blank(&c) {
                None
            } else {
                Some(string_of(&c))
            }
        },
        None => None,
    }
}

/// The address with surrounding blanks and trailing `/` removed.
pub open spec fn url_core(raw: Seq<char>) -> Seq<char> {
    drop_trail(ws_trim(raw), char_pred('/'))
}

/// Where the host part starts: after the first `://`, or at the start.
pub open spec fn host_start(r: Seq<char>) -> int {
    match find_from(r, "://"@, 0) {
        Some(p) => p + 3,
        None => 0,
    }
}

/// `http://host:port/entrance` split into the base address and the entrance: the base is
/// everything before the first `/` after the scheme (given `http://` when it names no
/// scheme of its own), the entrance the rest without its outer slashes. `None` for a
/// blank address.
pub open spec fn split_url_spec(raw: Seq<char>) -> Option<(Seq<char>, Seq<char>)> {
    let r = url_core(raw);
    if r.len() == 0 {
        None
    } else {
        let start = host_start(r);
        let after = r.skip(start);
        let (base, entrance) = match find_from(after, "/"@, 0) {
            Some(k) => (r.take(start + k), trim_char(after.skip(k), '/')),
            None => (r, Seq::<char>::empty()),
        };
        Some(
            (
                if prefix_of("http://"@, base) || prefix_of("https://"@, base) {
                    base
                } else {
                    "http://"@ + base
                },
                entrance,
            ),
        )
    }
}

/// Splits a panel address into its base URL and its entrance path.
pub fn split_url(raw: &str) -> (r: Result<(String, String), ConfigError>)
    ensures
        match split_url_spec(raw@) {
            Some((base, entrance)) => r matches Ok((b, e)) && b@ == base && e@ == entrance,
            None => r == Err::<(String, String), ConfigError>(ConfigError::EmptyUrl),
        },
{
    let r = trim_end_char(&trim_ws(&chars_of(raw)), '/');
    if r.len() == 0 {
        return Err(ConfigError::EmptyUrl);
    }
    proof {
        reveal_strlit("://");
        reveal_strlit("/");
    }
    let scheme = chars_of("://");
    let start: usize = match find_at_or_after(&r, &scheme, 0) {
        Some(p) => {
            proof {
                lemma_find_from_some(r@, scheme@, 0);
            }
            p + 3
        },
        None => 0,
    };
    assert(start == host_start(r@));
    let after = slice_of(&r, start, r.len());
    assert(after@ =~= r@.skip(start as int));
    let slash = chars_of("/");
    let (base, entrance) = match find_at_or_after(&after, &slash, 0) {
        Some(k) => {
            proof {
                lemma_find_from_some(after@, slash@, 0);
            }
            let b = slice_of(&r, 0, start + k);
            let rest = slice_of(&after, k, after.len());
            assert(b@ =~= r@.take(start + k));
            assert(rest@ =~= after@.skip(k as int));
            (b, trim_char_exec(&rest, '/'))
        },
        None => (r, Vec::new()),
    };
    let url = if starts_with(&base, &chars_of("http://")) || starts_with(&base, &chars_of("https://")) {
        base
    } else {
        concat(&chars_of("http://"), &base)
    };
    Ok((string_of(&url), string_of(&entrance)))
}

/// Picks the override, else the environment's value.
fn pick_exec(over: &Option<String>, env: &Option<String>) -> (r: Option<String>)
    ensures
        opt_view(r) == pick(*over, *env),
{
    match over {
        Some(v) => Some(string_of(&chars_of(v.as_str()))),
        None => env_value(env),
    }
}

/// The entrance: the override, else `PANEL_ENTRANCE`, else the path found in the address,
/// else empty.
pub open spec fn entrance_spec(o: ConfigOverrides, e: EnvVars, from_url: Seq<char>) -> Seq<char> {
    match pick(o.entrance, e.entrance) {
        Some(v) => v,
        None => from_url,
    }
}

impl PanelConfig {
    /// Resolves the settings: each field from its override, else its (non-blank)
    /// environment variable. The address is required and split into base and entrance;
    /// user name and password are required; the language defaults to `zh` and `insecure`
    /// to off.
    pub fn from_env(overrides: &ConfigOverrides, env: &EnvVars) -> (r: Result<PanelConfig, ConfigError>)
        ensures
            pick(overrides.url, env.url) is None ==> r == Err::<PanelConfig, ConfigError>(
                ConfigError::MissingUrl,
            ),
            pick(overrides.url, env.url) matches Some(u) ==> match split_url_spec(u) {
                None => r == Err::<PanelConfig, ConfigError>(ConfigError::EmptyUrl),
                Some((base, from_url)) => if pick(overrides.username, env.username) is None {
                    r == Err::<PanelConfig, ConfigError>(ConfigError::MissingUsername)
                } else if pick(overrides.password, env.password) is None {
                    r == Err::<PanelConfig, ConfigError>(ConfigError::MissingPassword)
                } else {
                    r matches Ok(c) && c.url@ == base && c.entrance@ == entrance_spec(
                        *overrides,
                        *env,
                        from_url,
                    ) && Some(c.username@) == pick(overrides.username, env.username) && Some(
                        c.password@,
                    ) == pick(overrides.password, env.password) && opt_view(c.mfa_code) == pick(
                        overrides.mfa_code,
                        env.mfa_code,
                    ) && opt_view(c.captcha) == pick(overrides.captcha, env.captcha) && opt_view(
                        c.captcha_id,
                    ) == pick(overrides.captcha_id, env.captcha_id) && c.language@ == (match pick(
                        overrides.language,
                        env.language,
                    ) {
                        Some(l) => l,
                        None => "zh"@,
                    }) && c.insecure == (match overrides.insecure {
                        Some(b) => b,
                        None => match env_value_spec(env.insecure) {
                            Some(v) => truthy(v),
                            None => false,
                        },
                    }) && opt_view(c.linux_ssh_user) == pick(
                        overrides.linux_ssh_user,
                        env.linux_ssh_user,
                    ) && opt_view(c.linux_ssh_pwd) == pick(overrides.linux_ssh_pwd, env.linux_ssh_pwd)
                },
            },
            r matches Ok(c) ==> (overrides.entrance matches Some(v) ==> c.entrance@ == v@),
    {
        let url = match pick_exec(&overrides.url, &env.url) {
            Some(u) => u,
            None => return Err(ConfigError::MissingUrl),
        };
        let (base, from_url) = match split_url(url.as_str()) {
            Ok(p) => p,
            Err(e) => return Err(e),
        };
        let entrance = match pick_exec(&overrides.entrance, &env.entrance) {
            Some(v) => v,
            None => from_url,
        };
        let username = match pick_exec(&overrides.username, &env.username) {
            Some(v) => v,
            None => return Err(ConfigError::MissingUsername),
        };
        let password = match pick_exec(&overrides.password, &env.password) {
            Some(v) => v,
            None => return Err(ConfigError::MissingPassword),
        };
        let insecure = match overrides.insecure {
            Some(b) => b,
            None => match env_flag(&env.insecure) {
                Some(b) => b,
                None => false,
            },
        };
        let language = match pick_exec(&overrides.language, &env.language) {
            Some(l) => l,
            None => string_of(&chars_of("zh")),
        };
        Ok(
            PanelConfig {
                url: base,
                entrance,
                username,
                password,
                mfa_code: pick_exec(&overrides.mfa_code, &env.mfa_code),
                captcha: pick_exec(&overrides.captcha, &env.captcha),
                captcha_id: pick_exec(&overrides.captcha_id, &env.captcha_id),
                language,
                insecure,
                linux_ssh_user: pick_exec(&overrides.linux_ssh_user, &env.linux_ssh_user),
                linux_ssh_pwd: pick_exec(&overrides.linux_ssh_pwd, &env.linux_ssh_pwd),
            },
        )
    }
}

/// What the user is told about a configuration error.
pub open spec fn config_error_text(e: ConfigError) -> Seq<char> {
    match e {
        ConfigError::MissingUrl => "未配置面板地址: 请通过 --url 参数、环境变量 PANEL_URL 或 .env 文件提供"@,
        ConfigError::EmptyUrl => "面板地址不能为空"@,
        ConfigError::MissingUsername => "未配置面板用户名: 请通过 --user 参数、环境变量 PANEL_USERNAME 或 .env 文件提供"@,
        ConfigError::MissingPassword => "未配置面板密码: 请通过 --password 参数、环境变量 PANEL_PASSWORD 或 .env 文件提供"@,
    }
}

impl ConfigError {
    pub fn message(&self) -> (r: String)
        ensures
            r@ == config_error_text(*self),
    {
        match self {
            ConfigError::MissingUrl => "未配置面板地址: 请通过 --url 参数、环境变量 PANEL_URL 或 .env 文件提供".to_owned(),
            ConfigError::EmptyUrl => "面板地址不能为空".to_owned(),
            ConfigError::MissingUsername => "未配置面板用户名: 请通过 --user 参数、环境变量 PANEL_USERNAME 或 .env 文件提供".to_owned(),
            ConfigError::MissingPassword => "未配置面板密码: 请通过 --password 参数、环境变量 PANEL_PASSWORD 或 .env 文件提供".to_owned(),
        }
    }
}

/// A split address always names a web scheme: `http://` is added to an address without
/// `http://` or `https://`.
pub proof fn law_split_url_has_scheme(raw: Seq<char>)
    ensures
        split_url_spec(raw) matches Some((base, _)) ==> prefix_of("http://"@, base) || prefix_of(
            "https://"@,
            base,
        ),
{
    match split_url_spec(raw) {
        Some((base, _)) => {
            let r = url_core(raw);
            let start = host_start(r);
            let after = r.skip(start);
            let b = match find_from(after, "/"@, 0) {
                Some(k) => r.take(start + k),
                None => r,
            };
            if !(prefix_of("http://"@, b) || prefix_of("https://"@, b)) {
                assert(("http://"@ + b).take("http://"@.len() as int) =~= "http://"@);
            }
        },
        None => {},
    }
}

/// A value given on the command line wins over the environment; the environment is used
/// only when it is not blank.
pub proof fn law_override_wins(over: Option<String>, env: Option<String>)
    ensures
        over matches Some(v) ==> pick(over, env) == Some(v@),
        forall|e: String| over is None && env == Some(e) && !is_blank(e@) ==> pick(over, env) == Some(e@),
        over is None && (env is None || is_blank(env->0@)) ==> pick(over, env) is None,
{
}

/// Where the entrance comes from: a value given on the command line wins, whatever path
/// the address holds; else a non-blank `PANEL_ENTRANCE`; only without both is the path
/// of the address used.
pub proof fn law_entrance_precedence(o: ConfigOverrides, e: EnvVars, from_url: Seq<char>)
    ensures
        o.entrance matches Some(v) ==> entrance_spec(o, e, from_url) == v@,
        forall|x: String|
            o.entrance is None && e.entrance == Some(x) && !is_blank(x@) ==> entrance_spec(o, e, from_url)
                == x@,
        o.entrance is None && (e.entrance is None || is_blank(e.entrance->0@)) ==> entrance_spec(
            o,
            e,
            from_url,
        ) == from_url,
{
}

} // verus!
