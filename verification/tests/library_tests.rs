use panel_cli::apps::{
    app_rows, check_code, column_widths, conn_host, conn_username, find_installed, install_version,
    new_uuid, password, separator, task_state, task_timeout, uuid_v4, AppError, AppItem,
    AppsQuery, InstalledItem, PasswordRequest, TaskState,
};
use panel_cli::auth::{captcha_png, civil_from_days, entrance_code, mfa_step, now_string, AuthError, MfaNext};
use panel_cli::catalog::{normalize_path, route_text, Route};
use panel_cli::client::{cookie, endpoint, parse_cookie_header, public_key_pem, ClientError};
use panel_cli::commands::normalize_api_path;
use panel_cli::config::{env_flag, linux_ssh_creds, split_url, ConfigError, ConfigOverrides, EnvVars, PanelConfig};
use base64::Engine;
use cipher::{BlockDecryptMut, KeyIvInit};
use panel_cli::crypto::{encrypt_password, password_envelope, url_decode, CryptoError};
use rsa::pkcs8::EncodePublicKey;
use panel_cli::db::{delete, list as db_list, DbResource, DeleteOptions};
use panel_cli::doctor::{render, reachability_step, summary, Probe};
use panel_cli::redis::{config as redis_config, ConfigOptions as RedisOptions, RedisConf};
use panel_cli::session::{session_path, CookieData, SessionError};
use panel_cli::web::{detect_archive_type, join_site_path, site_alias};

fn no_env() -> EnvVars {
    EnvVars {
        url: None,
        entrance: None,
        username: None,
        password: None,
        mfa_code: None,
        captcha: None,
        captcha_id: None,
        language: None,
        insecure: None,
        node: None,
        linux_ssh_user: None,
        linux_ssh_pwd: None,
    }
}

fn no_overrides() -> ConfigOverrides {
    ConfigOverrides {
        url: None,
        entrance: None,
        username: None,
        password: None,
        mfa_code: None,
        captcha: None,
        captcha_id: None,
        language: None,
        insecure: None,
        linux_ssh_user: None,
        linux_ssh_pwd: None,
    }
}

#[test]
fn normalizes_api_paths() {
    assert_eq!(normalize_path("core/auth/current"), "/api/v2/core/auth/current");
    assert_eq!(normalize_path("/api/v2/apps/search"), "/api/v2/apps/search");
}

#[test]
fn normalizes_full_urls_and_api_call_paths() {
    assert_eq!(normalize_path(" https://panel.example.com/api/v2/hosts "), "/api/v2/hosts");
    assert_eq!(normalize_path("api/v2"), "/api/v2");
    assert_eq!(normalize_api_path("/core/auth/current"), "api/v2/core/auth/current");
    assert_eq!(normalize_api_path("api/v2/apps"), "api/v2/apps");
    let r = Route {
        method: "GET".into(),
        path: "/api/v2/Apps".into(),
        handler: "H".into(),
        source: String::new(),
        summary: "List".into(),
        tags: vec!["App".into(), "Store".into()],
        swagger_documented: true,
    };
    assert_eq!(route_text(&r), "get /api/v2/apps h list app store");
}

#[test]
fn test_url_decode_keeps_plus() {
    assert_eq!(url_decode("a+b%20c%3D").unwrap(), "a+b c=");
}

#[test]
fn url_decode_errors() {
    assert!(matches!(url_decode("%zz"), Err(CryptoError::BadEscape(b'z'))));
    assert!(matches!(url_decode("%ff%fe"), Err(CryptoError::InvalidUtf8)));
    assert_eq!(url_decode("100%").unwrap(), "100%");
    assert_eq!(url_decode("%E4%BD%A0").unwrap(), "你");
}

#[test]
fn password_envelope_joins_base64_parts() {
    assert_eq!(password_envelope(b"ab", b"c", b"hello"), "YWI=:Yw==:aGVsbG8=");
}

#[test]
fn split_url_and_config_resolution() {
    assert_eq!(split_url(" 10.0.0.1:41394/entry/ ").unwrap(), ("http://10.0.0.1:41394".to_string(), "entry".to_string()));
    assert_eq!(split_url("https://p.example.com").unwrap(), ("https://p.example.com".to_string(), String::new()));
    assert_eq!(split_url("///"), Err(ConfigError::EmptyUrl));
    let mut env = no_env();
    assert!(matches!(PanelConfig::from_env(&no_overrides(), &env), Err(ConfigError::MissingUrl)));
    env.url = Some("http://h:1/sec".into());
    env.username = Some("admin".into());
    assert!(matches!(PanelConfig::from_env(&no_overrides(), &env), Err(ConfigError::MissingPassword)));
    env.password = Some("pw".into());
    env.insecure = Some(" Yes ".into());
    let mut o = no_overrides();
    o.username = Some("root".into());
    let c = PanelConfig::from_env(&o, &env).unwrap();
    assert_eq!(c.url, "http://h:1");
    assert_eq!(c.entrance, "sec");
    assert_eq!(c.username, "root");
    assert_eq!(c.language, "zh");
    assert!(c.insecure);
    assert_eq!(env_flag(&Some("off".into())), Some(false));
    assert_eq!(env_flag(&Some("  ".into())), None);
    env.linux_ssh_user = Some("ubuntu".into());
    env.linux_ssh_pwd = Some(" ".into());
    assert_eq!(linux_ssh_creds(&env), (Some("ubuntu".to_string()), None));
}

#[test]
fn cookies_and_public_key() {
    let c = parse_cookie_header("psession=abc; panel_public_key=LS0t; bad");
    assert_eq!(c.len(), 2);
    assert_eq!(c[1].name, "panel_public_key");
    assert_eq!(cookie(&c, "psession"), Some("abc".to_string()));
    assert_eq!(public_key_pem(&c).unwrap(), "---");
    let none: Vec<CookieData> = vec![];
    assert!(matches!(public_key_pem(&none), Err(ClientError::NoPublicKey)));
    assert_eq!(endpoint("http://h:1//", "/api/v2/x"), "http://h:1/api/v2/x");
}

#[test]
fn session_paths() {
    assert_eq!(session_path("/home/u/.config/1panel-cli", "default").unwrap(), "/home/u/.config/1panel-cli/default.json");
    assert_eq!(session_path("/tmp/", "p"), Ok("/tmp/p.json".to_string()));
    assert_eq!(session_path("/tmp", "a/b"), Err(SessionError::InvalidProfile));
}

#[test]
fn dates_and_timestamps() {
    assert_eq!(civil_from_days(0), (1970, 1, 1));
    assert_eq!(civil_from_days(19723), (2024, 1, 1));
    assert_eq!(civil_from_days(11016), (2000, 2, 29));
    assert_eq!(civil_from_days(-1), (1969, 12, 31));
    assert_eq!(now_string(0), "1970-01-01 00:00:00 (UTC)");
    assert_eq!(now_string(1_700_000_000), "2023-11-14 22:13:20 (UTC)");
}

#[test]
fn login_decisions() {
    assert_eq!(entrance_code(""), None);
    assert_eq!(entrance_code("sec"), Some("c2Vj".to_string()));
    assert!(matches!(mfa_step("Disable", &None, false), Ok(MfaNext::Skip)));
    assert!(matches!(mfa_step("Enable", &Some("123456".into()), false), Ok(MfaNext::Use(c)) if c == "123456"));
    assert!(mfa_step("Enable", &Some(String::new()), false).is_err());
    assert!(matches!(mfa_step("Enable", &None, true), Ok(MfaNext::Prompt)));
}

#[test]
fn apps_tables_and_decisions() {
    let items = vec![
        AppItem { name: "MySQL".into(), key: "mysql".into(), installed: true, tags: vec!["db".into(), "sql".into()], kind: "runtime".into() },
        AppItem { name: "Redis".into(), key: "redis".into(), installed: false, tags: vec![], kind: "runtime".into() },
    ];
    let rows = app_rows(&items, true);
    assert_eq!(rows, vec![vec!["runtime", "MySQL", "mysql", "是", "db, sql"].into_iter().map(String::from).collect::<Vec<_>>()]);
    let all = app_rows(&items, false);
    assert_eq!(column_widths(&all, 5), vec![7, 5, 5, 1, 7]);
    assert_eq!(separator(&vec![1, 0]), "---+--");
    assert!(check_code(Some(200), None).is_ok());
    let e = check_code(None, Some("bad")).unwrap_err();
    assert_eq!((e.code, e.message.as_str()), (-1, "bad"));
    assert!(matches!(install_version("x", true, &vec![], &None), Err(AppError::AlreadyInstalled(_))));
    assert_eq!(install_version("x", false, &vec!["2.0".into(), "1.0".into()], &None).unwrap(), "2.0");
    assert_eq!(task_timeout(0), 600);
    assert!(matches!(task_state("Error", None), TaskState::Failed(m) if m == "未知错误"));
    assert!(matches!(task_state("Running", None), TaskState::Running));
    let inst = vec![InstalledItem { id: 3, name: "mysql-1".into(), app_key: "mysql".into() }];
    assert_eq!(find_installed(&inst, "mysql-1").unwrap(), 0);
    assert!(matches!(find_installed(&inst, "nope"), Err(AppError::NotInstalled(_))));
    assert_eq!(conn_host("https://10.0.0.1:8443/x"), "10.0.0.1");
    assert_eq!(conn_host("10.0.0.1"), "127.0.0.1");
    assert_eq!(conn_username("", "mariadb"), "root");
    let q = AppsQuery { page: 0, page_size: 5000, name: None, kind: None, tag: Some(String::new()), installed: false, all: true };
    let s = panel_cli::apps::list(&q);
    assert_eq!((s.page, s.page_size), (1, 1000));
    assert!(s.tags.is_empty());
    assert!(panel_cli::apps::next_page(&q, &s, 1000, 5000).is_some());
    assert!(panel_cli::apps::next_page(&q, &s, 5000, 5000).is_none());
}

#[test]
fn uuids_are_version_4() {
    let u = uuid_v4(&vec![0xff; 16]);
    assert_eq!(u, "ffffffff-ffff-4fff-bfff-ffffffffffff");
    let u = new_uuid();
    assert_eq!(u.len(), 36);
    assert_eq!(&u[14..15], "4");
}

#[test]
fn passwords_of_database_apps() {
    match password("mysql-1", "pw", "mysql").unwrap() {
        PasswordRequest::Database(k, d, v) => assert_eq!((k.as_str(), d.as_str(), v.as_str()), ("mysql", "mysql-1", "cHc=")),
        _ => panic!("wrong request"),
    }
    match panel_cli::redis::passwd("r", "pw", "redis").unwrap() {
        PasswordRequest::Redis(d, v) => assert_eq!((d.as_str(), v.as_str()), ("r", "cHc=")),
        _ => panic!("wrong request"),
    }
    assert!(matches!(panel_cli::db::root_passwd("m", "", "mysql"), Err(AppError::EmptyPassword)));
    assert!(matches!(password("n", "pw", "nginx"), Err(AppError::PasswordUnsupported(k)) if k == "nginx"));
}

#[test]
fn database_and_redis_commands() {
    assert_eq!(db_list("", None).unwrap(), ("mysql".to_string(), "mysql".to_string()));
    assert!(db_list("postgres", None).is_err());
    let res = vec![DbResource { name: "site".into(), kind: "website".into() }, DbResource { name: "app".into(), kind: "app".into() }];
    let opts = DeleteOptions { instance: "mysql".into(), db_type: "mysql".into(), force: false };
    assert!(matches!(delete("d", &res, &opts), Err(panel_cli::db::DbError::InUse(t)) if t == "site[website], app[app]"));
    let cur = RedisConf { timeout: "0".into(), maxclients: "100".into(), maxmemory: "0".into() };
    let o = RedisOptions { set: vec![("timeout".into(), "30".into()), ("timeout".into(), "60".into())] };
    let n = redis_config(&cur, &o).unwrap();
    assert_eq!((n.timeout.as_str(), n.maxclients.as_str()), ("60", "100"));
    let bad = RedisOptions { set: vec![("port".into(), "1".into())] };
    assert!(matches!(redis_config(&cur, &bad), Err(AppError::UnsupportedSetting(k)) if k == "port"));
}

#[test]
fn website_paths_and_archives() {
    assert_eq!(join_site_path("/opt/www/site/", "/uploads/"), "/opt/www/site/uploads");
    assert_eq!(join_site_path("/opt/www/site", "/"), "/opt/www/site");
    assert_eq!(detect_archive_type("Site.TAR.GZ").unwrap(), "tar.gz");
    assert_eq!(detect_archive_type("a.tgz").unwrap(), "tar.gz");
    assert_eq!(detect_archive_type("b.gz").unwrap(), "gz");
    assert!(detect_archive_type("c.txt").is_err());
    assert_eq!(site_alias("blog.example.com", &None), "blog");
}

#[test]
fn doctor_reports() {
    let r = reachability_step(&Probe::Reply(200, Some(200), String::new()));
    assert_eq!(render(&r), vec!["[3/8] 面板地址连通性 ... 通过 (HTTP 200)".to_string()]);
    let r = reachability_step(&Probe::Reply(502, None, "x".repeat(200)));
    assert!(r.failed);
    let lines = render(&r);
    assert_eq!(lines.len(), 6);
    assert_eq!(lines[1], format!("    - 面板返回异常状态: HTTP 502, body: {}", "x".repeat(120)));
    assert_eq!(summary(false), vec!["环境检查未全部通过,请按上面提示修复后重试。".to_string()]);
}

fn test_key(bits: usize) -> (rsa::RsaPrivateKey, String) {
    let private = rsa::RsaPrivateKey::new(&mut rand::thread_rng(), bits).expect("key");
    let pem = rsa::RsaPublicKey::from(&private)
        .to_public_key_pem(rsa::pkcs8::LineEnding::LF)
        .expect("pem");
    (private, pem)
}

#[test]
fn encrypted_password_opens_with_the_private_key() {
    let (private, pem) = test_key(512);
    let sealed = encrypt_password("s3cret-密码", &pem).expect("encrypts");
    let parts: Vec<&str> = sealed.split(':').collect();
    assert_eq!(parts.len(), 3);
    let b64 = base64::engine::general_purpose::STANDARD;
    let key_cipher = b64.decode(parts[0]).unwrap();
    let iv = b64.decode(parts[1]).unwrap();
    let cipher_text = b64.decode(parts[2]).unwrap();
    assert_eq!(key_cipher.len(), 64);
    assert_eq!(iv.len(), 16);
    let aes_key = private.decrypt(rsa::Pkcs1v15Encrypt, &key_cipher).unwrap();
    assert_eq!(aes_key.len(), 32);
    assert!(aes_key.iter().all(|b| b.is_ascii_hexdigit() && !b.is_ascii_uppercase()));
    let mut buf = cipher_text.clone();
    let plain = cbc::Decryptor::<aes::Aes256>::new_from_slices(&aes_key, &iv)
        .unwrap()
        .decrypt_padded_mut::<cipher::block_padding::Pkcs7>(&mut buf)
        .unwrap();
    assert_eq!(plain, "s3cret-密码".as_bytes());
}

#[test]
fn encrypt_password_errors() {
    assert_eq!(encrypt_password("pw", "not a key"), Err(CryptoError::BadPublicKey));
    let (_, small) = test_key(256);
    assert_eq!(encrypt_password("pw", &small), Err(CryptoError::KeyEncryptFailed));
}

#[test]
fn url_decode_undoes_percent_encoding() {
    assert_eq!(url_decode("%E5%AF%86a%2B%20").unwrap(), "密a+ ");
    assert_eq!(url_decode("%e5%af%86").unwrap(), "密");
    assert_eq!(url_decode("%70%61%73%73").unwrap(), "pass");
}

#[test]
fn captcha_images_need_canonical_base64() {
    assert_eq!(captcha_png("data:image/png;base64,QQ==").unwrap(), vec![0x41u8]);
    assert_eq!(captcha_png("data:image/png;base64,aGk=").unwrap(), b"hi".to_vec());
    assert!(matches!(captcha_png("data:image/png;base64,QR=="), Err(AuthError::BadCaptchaData)));
    assert!(matches!(captcha_png("data:image/png;base64,QQ"), Err(AuthError::BadCaptchaData)));
    assert!(matches!(captcha_png("no comma"), Err(AuthError::BadCaptchaImage)));
}

#[test]
fn app_config_lines() {
    assert_eq!(
        panel_cli::apps::config_line("PANEL_APP_PORT_HTTP", "8080", "端口", "number", true),
        "  PANEL_APP_PORT_HTTP = 8080 # 端口  [类型:number 可编辑:是]"
    );
    assert_eq!(
        panel_cli::apps::config_line("K", "v", "", "text", false),
        "  K = v  [类型:text 可编辑:否]"
    );
    assert_eq!(panel_cli::apps::auto_port_line(true), "端口自动分配: 开启");
    assert_eq!(panel_cli::apps::auto_port_line(false), "端口自动分配: 关闭");
}

#[test]
fn url_decode_turns_back_escapes_of_either_case() {
    assert_eq!(url_decode("%e5%AF%86%61%2b").unwrap(), "密a+");
    assert_eq!(url_decode("%4A%4b").unwrap(), "JK");
}
