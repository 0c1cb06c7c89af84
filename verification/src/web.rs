//! Websites: finding a site by domain, the paths inside its directory, archive types, and
//! the requests of the website commands.
use vstd::prelude::*;
use crate::apps::or_empty;
use crate::text::{
    ascii_lower, char_pred, chars_of, drop_trail, push_all, same, split_char, split_on, string_of,
    suffix_of, to_ascii_lower, trim_char, trim_char_exec, trim_end_char, views, copy_chars,
    ends_with, string_views,
};

verus! {

broadcast use vstd::string::group_string_axioms;

#[derive(Debug)]
pub enum WebError {
    /// No website has this primary domain.
    NoSuchSite(String),
    /// The archive's type cannot be told from its name.
    UnknownArchive,
    /// Enabling HTTPS needs a certificate id or certificate files.
    NeedCertificate,
    /// The panel created no certificate id.
    NoCertificateId,
    /// No openresty is installed.
    NoOpenresty,
    /// The panel has no website group.
    NoGroup,
}

/// Options of `web config`.
pub struct ConfigOptions {
    pub file: Option<String>,
}

/// Options of `web https`.
pub struct HttpsOptions {
    pub enable: Option<bool>,
    pub ssl_id: Option<u64>,
    pub http_config: Option<String>,
    pub cert_file: Option<String>,
    pub key_file: Option<String>,
}

/// Options of `web ssl`.
pub struct SslOptions {
    pub email: String,
    pub provider: String,
    pub key_type: String,
    pub auto_renew: bool,
}

/// Options of `web create`.
pub struct CreateOptions {
    /// The website type.
    pub kind: String,
    pub alias: Option<String>,
    pub remark: Option<String>,
}

/// A path inside a site: the site directory without trailing `/`, then the sub-path
/// without outer `/` (nothing for an empty one).
pub open spec fn site_path_spec(site: Seq<char>, sub: Seq<char>) -> Seq<char> {
    let base = drop_trail(site, char_pred('/'));
    let s = trim_char(sub, '/');
    if s.len() == 0 {
        base
    } else {
        base + "/"@ + s
    }
}

pub fn join_site_path(site_path: &str, sub: &str) -> (r: String)
    ensures
        r@ == site_path_spec(site_path@, sub@),
{
    let mut base = trim_end_char(&chars_of(site_path), '/');
    let s = trim_char_exec(&chars_of(sub), '/');
    if s.len() > 0 {
        push_all(&mut base, &chars_of("/"));
        push_all(&mut base, &s);
    }
    string_of(&base)
}

/// The archive type named by a file's extension (any case): `.tar.gz`/`.tgz`, `.tar.bz2`,
/// `.tar.xz`, `.tar`, `.zip`, `.gz`, `.bz2`, `.xz`, `.7z`, `.rar`, tried in that order.
/// (Lower-casing the name in full Unicode would decide the same: no other character
/// lower-cases to one of these ASCII suffixes.)
pub open spec fn archive_spec(name: Seq<char>) -> Option<Seq<char>> {
    let l = ascii_lower(name);
    if suffix_of(".tar.gz"@, l) || suffix_of(".tgz"@, l) {
        Some("tar.gz"@)
    } else if suffix_of(".tar.bz2"@, l) {
        Some("tar.bz2"@)
    } else if suffix_of(".tar.xz"@, l) {
        Some("tar.xz"@)
    } else if suffix_of(".tar"@, l) {
        Some("tar"@)
    } else if suffix_of(".zip"@, l) {
        Some("zip"@)
    } else if suffix_of(".gz"@, l) {
        Some("gz"@)
    } else if suffix_of(".bz2"@, l) {
        Some("bz2"@)
    } else if suffix_of(".xz"@, l) {
        Some("xz"@)
    } else if suffix_of(".7z"@, l) {
        Some("7z"@)
    } else if suffix_of(".rar"@, l) {
        Some("rar"@)
    } else {
        None
    }
}

fn ends(l: &Vec<char>, suffix: &str) -> (r: bool)
    ensures
        r == suffix_of(suffix@, l@),
{
    ends_with(l, &chars_of(suffix))
}

/// The type of an archive, from its file name (see `archive_spec`).
pub fn detect_archive_type(name: &str) -> (r: Result<String, WebError>)
    ensures
        match archive_spec(name@) {
            Some(t) => r matches Ok(s) && s@ == t,
            None => r matches Err(WebError::UnknownArchive),
        },
{
    let l = to_ascii_lower(&chars_of(name));
    if ends(&l, ".tar.gz") || ends(&l, ".tgz") {
        Ok("tar.gz".to_owned())
    } else if ends(&l, ".tar.bz2") {
        Ok("tar.bz2".to_owned())
    } else if ends(&l, ".tar.xz") {
        Ok("tar.xz".to_owned())
    } else if ends(&l, ".tar") {
        Ok("tar".to_owned())
    } else if ends(&l, ".zip") {
        Ok("zip".to_owned())
    } else if ends(&l, ".gz") {
        Ok("gz".to_owned())
    } else if ends(&l, ".bz2") {
        Ok("bz2".to_owned())
    } else if ends(&l, ".xz") {
        Ok("xz".to_owned())
    } else if ends(&l, ".7z") {
        Ok("7z".to_owned())
    } else if ends(&l, ".rar") {
        Ok("rar".to_owned())
    } else {
        Err(WebError::UnknownArchive)
    }
}

/// What `web extract` decompresses: the archive (an absolute path, or one inside the site
/// directory), the destination inside the site, and the type (the given one, else the one
/// the name shows).
pub struct ExtractPlan {
    pub path: String,
    pub dst: String,
    pub kind: String,
}

pub open spec fn archive_path_spec(site: Seq<char>, archive: Seq<char>) -> Seq<char> {
    if archive.len() > 0 && archive[0] == '/' {
        archive
    } else {
        drop_trail(site, char_pred('/')) + "/"@ + archive
    }
}

pub fn extract(site_path: &str, archive: &str, to: &str, archive_type: &str) -> (r: Result<ExtractPlan, WebError>)
    ensures
        archive_type@.len() == 0 && archive_spec(archive@) is None ==> r matches Err(
            WebError::UnknownArchive,
        ),
        archive_type@.len() > 0 || archive_spec(archive@) is Some ==> (r matches Ok(p) && p.path@
            == archive_path_spec(site_path@, archive@) && p.dst@ == site_path_spec(site_path@, to@)
            && p.kind@ == if archive_type@.len() > 0 {
            archive_type@
        } else {
            archive_spec(archive@)->0
        }),
{
    let a = chars_of(archive);
    let path = if a.len() > 0 && a[0] == '/' {
        archive.to_owned()
    } else {
        let mut p = trim_end_char(&chars_of(site_path), '/');
        push_all(&mut p, &chars_of("/"));
        push_all(&mut p, &a);
        string_of(&p)
    };
    let dst = join_site_path(site_path, to);
    let kind = if chars_of(archive_type).len() == 0 {
        detect_archive_type(archive)?
    } else {
        archive_type.to_owned()
    };
    Ok(ExtractPlan { path, dst, kind })
}

/// A website as the search lists it.
pub struct WebsiteItem {
    pub id: u64,
    pub primary_domain: String,
    pub kind: String,
    pub status: String,
    pub site_path: String,
    pub protocol: String,
}

/// The first website of a page whose primary domain is `domain`.
pub fn find_website(items: &Vec<WebsiteItem>, domain: &str) -> (r: Option<usize>)
    ensures
        match r {
            Some(i) => i < items@.len() && items@[i as int].primary_domain@ == domain@ && forall|k: int|
                0 <= k < i ==> (#[trigger] items@[k]).primary_domain@ != domain@,
            None => forall|k: int| 0 <= k < items@.len() ==> (#[trigger] items@[k]).primary_domain@ != domain@,
        },
{
    let d = chars_of(domain);
    let mut i: usize = 0;
    while i < items.len()
        invariant
            0 <= i <= items.len(),
            d@ == domain@,
            forall|k: int| 0 <= k < i ==> (#[trigger] items@[k]).primary_domain@ != domain@,
        decreases items.len() - i,
    {
        if same(&chars_of(items[i].primary_domain.as_str()), &d) {
            return Some(i);
        }
        i += 1;
    }
    None
}

/// Whether the website search is done after `page` (of 100 sites each, at most 20 pages).
pub fn last_page(total: i64, page: usize) -> (r: bool)
    requires
        1 <= page <= 20,
    ensures
        r == (page == 20 || total <= page * 100),
{
    page == 20 || total <= (page * 100) as i64
}

/// The row of a website: domain, type, status, 是/否 for HTTPS, directory.
pub open spec fn site_row(it: WebsiteItem) -> Seq<Seq<char>> {
    seq![
        it.primary_domain@,
        it.kind@,
        it.status@,
        if it.protocol@ == "HTTPS"@ {
            "是"@
        } else {
            "否"@
        },
        it.site_path@,
    ]
}

pub fn site_row_exec(it: &WebsiteItem) -> (r: Vec<String>)
    ensures
        string_views(r@) == site_row(*it),
{
    let mut row: Vec<String> = Vec::new();
    row.push(it.primary_domain.clone());
    row.push(it.kind.clone());
    row.push(it.status.clone());
    row.push(if same(&chars_of(it.protocol.as_str()), &chars_of("HTTPS")) {
        "是".to_owned()
    } else {
        "否".to_owned()
    });
    row.push(it.site_path.clone());
    assert(string_views(row@) =~= site_row(*it));
    row
}

/// What `web https` does.
pub enum HttpsPlan {
    /// Shows the current setting (no change was asked for).
    Show,
    /// Sets HTTPS with this redirect setting and certificate.
    Update(bool, String, CertSource),
}

/// Where the certificate comes from.
pub enum CertSource {
    /// No certificate (HTTPS is being turned off).
    Keep,
    /// The certificate the panel holds under this id.
    Existing(u64),
    /// The certificate and key in these local files, pasted in.
    Files(String, String),
}

/// Decides `web https`: without `--enable`, `--ssl-id` and `--cert` it only shows the
/// setting; otherwise HTTPS is enabled unless `--enable false`, the redirect defaults to
/// `HTTPToHTTPS`, and enabling takes the certificate files when both are given, else the
/// certificate id, which is then required.
pub fn https(opts: &HttpsOptions) -> (r: Result<HttpsPlan, WebError>)
    ensures
        opts.enable is None && opts.ssl_id is None && opts.cert_file is None ==> r matches Ok(HttpsPlan::Show),
        !(opts.enable is None && opts.ssl_id is None && opts.cert_file is None) ==> {
            let enable = match opts.enable {
                Some(e) => e,
                None => true,
            };
            let redirect = match opts.http_config {
                Some(h) => h@,
                None => "HTTPToHTTPS"@,
            };
            if !enable {
                r matches Ok(HttpsPlan::Update(e, h, CertSource::Keep)) && !e && h@ == redirect
            } else if opts.cert_file is Some && opts.key_file is Some {
                r matches Ok(HttpsPlan::Update(e, h, CertSource::Files(c, k))) && e && h@ == redirect
                    && Some(c@) == crate::config::opt_view(opts.cert_file) && Some(k@) == crate::config::opt_view(
                    opts.key_file,
                )
            } else {
                match opts.ssl_id {
                    Some(id) => r matches Ok(HttpsPlan::Update(e, h, CertSource::Existing(i))) && e && h@
                        == redirect && i == id,
                    None => r matches Err(WebError::NeedCertificate),
                }
            }
        },
{
    if opts.enable.is_none() && opts.ssl_id.is_none() && opts.cert_file.is_none() {
        return Ok(HttpsPlan::Show);
    }
    let enable = match opts.enable {
        Some(e) => e,
        None => true,
    };
    let redirect = match &opts.http_config {
        Some(h) => h.clone(),
        None => "HTTPToHTTPS".to_owned(),
    };
    if !enable {
        return Ok(HttpsPlan::Update(false, redirect, CertSource::Keep));
    }
    match (&opts.cert_file, &opts.key_file) {
        (Some(c), Some(k)) => Ok(HttpsPlan::Update(true, redirect, CertSource::Files(c.clone(), k.clone()))),
        _ => match opts.ssl_id {
            Some(id) => Ok(HttpsPlan::Update(true, redirect, CertSource::Existing(id))),
            None => Err(WebError::NeedCertificate),
        },
    }
}

/// The certificate id the panel returned for a new certificate; 0 means none.
pub fn ssl_id(id: Option<u64>) -> (r: Result<u64, WebError>)
    ensures
        match id {
            Some(i) if i != 0 => r matches Ok(x) && x == i,
            _ => r matches Err(WebError::NoCertificateId),
        },
{
    match id {
        Some(i) => if i != 0 {
            Ok(i)
        } else {
            Err(WebError::NoCertificateId)
        },
        None => Err(WebError::NoCertificateId),
    }
}

/// An ACME account of the panel (its email and id as reported).
pub struct AcmeAccount {
    pub email: Option<String>,
    pub id: Option<u64>,
}

/// The id of the first account with this email that has an id; `None` when a new
/// account must be created.
pub fn find_acme(accounts: &Vec<AcmeAccount>, email: &str) -> (r: Option<u64>)
    ensures
        match r {
            Some(id) => exists|i: int|
                0 <= i < accounts@.len() && crate::config::opt_view(#[trigger] accounts@[i].email) == Some(email@)
                    && accounts@[i].id == Some(id) && forall|k: int|
                    0 <= k < i ==> !(crate::config::opt_view(#[trigger] accounts@[k].email) == Some(email@)
                        && accounts@[k].id is Some),
            None => forall|k: int|
                0 <= k < accounts@.len() ==> !(crate::config::opt_view(#[trigger] accounts@[k].email) == Some(
                    email@,
                ) && accounts@[k].id is Some),
        },
{
    let e = chars_of(email);
    let mut i: usize = 0;
    while i < accounts.len()
        invariant
            0 <= i <= accounts.len(),
            e@ == email@,
            forall|k: int|
                0 <= k < i ==> !(crate::config::opt_view(#[trigger] accounts@[k].email) == Some(email@)
                    && accounts@[k].id is Some),
        decreases accounts.len() - i,
    {
        let a = &accounts[i];
        match &a.email {
            Some(m) => {
                if same(&chars_of(m.as_str()), &e) {
                    match a.id {
                        Some(id) => {
                            assert(crate::config::opt_view(accounts@[i as int].email) == Some(email@));
                            return Some(id);
                        },
                        None => {},
                    }
                }
            },
            None => {},
        }
        i += 1;
    }
    None
}

/// An installed app as `web create` looks for openresty.
pub struct InstalledApp {
    pub app_key: Option<String>,
    pub id: Option<u64>,
}

/// The openresty installation: the first installed app with key `openresty`, whose id
/// must be readable.
pub fn find_openresty_install(items: &Vec<InstalledApp>) -> (r: Result<Option<u64>, WebError>)
    ensures
        match r {
            Ok(id) => exists|i: int|
                0 <= i < items@.len() && crate::config::opt_view(#[trigger] items@[i].app_key) == Some(
                    "openresty"@,
                ) && items@[i].id == id && forall|k: int|
                    0 <= k < i ==> crate::config::opt_view(#[trigger] items@[k].app_key) != Some("openresty"@),
            Err(e) => e matches WebError::NoOpenresty && forall|k: int|
                0 <= k < items@.len() ==> crate::config::opt_view(#[trigger] items@[k].app_key) != Some(
                    "openresty"@,
                ),
        },
{
    let mut i: usize = 0;
    while i < items.len()
        invariant
            0 <= i <= items.len(),
            forall|k: int|
                0 <= k < i ==> crate::config::opt_view(#[trigger] items@[k].app_key) != Some("openresty"@),
        decreases items.len() - i,
    {
        match &items[i].app_key {
            Some(k) => {
                if same(&chars_of(k.as_str()), &chars_of("openresty")) {
                    assert(crate::config::opt_view(items@[i as int].app_key) == Some("openresty"@));
                    return Ok(items[i].id);
                }
            },
            None => {},
        }
        i += 1;
    }
    Err(WebError::NoOpenresty)
}

/// A website group.
pub struct Group {
    pub is_default: Option<bool>,
    pub id: Option<u64>,
}

/// The id of the first default group, if any group is default.
pub open spec fn first_default(gs: Seq<Group>) -> Option<Option<u64>>
    decreases gs.len(),
{
    if gs.len() == 0 {
        None
    } else if gs[0].is_default == Some(true) {
        Some(gs[0].id)
    } else {
        first_default(gs.drop_first())
    }
}

/// The group new websites go into: the first default group, else the first group.
pub fn find_default_website_group(groups: &Vec<Group>) -> (r: Result<Option<u64>, WebError>)
    ensures
        match first_default(groups@) {
            Some(id) => r matches Ok(x) && x == id,
            None => if groups@.len() == 0 {
                r matches Err(WebError::NoGroup)
            } else {
                r matches Ok(x) && x == groups@[0].id
            },
        },
{
    let mut i: usize = 0;
    assert(groups@.skip(0) =~= groups@);
    while i < groups.len()
        invariant
            0 <= i <= groups.len(),
            first_default(groups@) == first_default(groups@.skip(i as int)),
        decreases groups.len() - i,
    {
        assert(groups@.skip(i as int)[0] == groups@[i as int]);
        assert(groups@.skip(i as int).drop_first() =~= groups@.skip(i + 1));
        if groups[i].is_default == Some(true) {
            return Ok(groups[i].id);
        }
        i += 1;
    }
    assert(groups@.skip(i as int) =~= Seq::<Group>::empty());
    if groups.len() == 0 {
        return Err(WebError::NoGroup);
    }
    Ok(groups[0].id)
}

/// The alias of a new website: the given one, else the domain up to its first `.`.
pub fn site_alias(domain: &str, alias: &Option<String>) -> (r: String)
    ensures
        r@ == match alias {
            Some(a) => a@,
            None => split_on(domain@, '.')[0],
        },
{
    match alias {
        Some(a) => a.clone(),
        None => {
            let parts = split_char(&chars_of(domain), '.');
            proof {
                assert(split_on(domain@, '.').len() >= 1);
                assert(views(parts@)[0] == parts@[0]@);
            }
            string_of(&copy_chars(&parts[0]))
        },
    }
}


/// A lower-case hex digit.
pub open spec fn hex_digit(d: nat) -> char {
    if d < 10 {
        ((48 + d) as u8) as char
    } else {
        ((87 + d) as u8) as char
    }
}

/// `format!("{:x}", n)`: lower-case hex digits, no leading zeros.
pub open spec fn hex_text(n: nat) -> Seq<char>
    decreases n,
{
    if n < 16 {
        seq![hex_digit(n)]
    } else {
        hex_text(n / 16).push(hex_digit(n % 16))
    }
}

fn hex_u64(n: u64) -> (r: Vec<char>)
    ensures
        r@ == hex_text(n as nat),
    decreases n,
{
    let d = (n % 16) as u8;
    let c = if d < 10 {
        (48u8 + d) as char
    } else {
        (87u8 + d) as char
    };
    if n < 16 {
        vec![c]
    } else {
        let mut v = hex_u64(n / 16);
        v.push(c);
        v
    }
}

/// The task id that `web extract` submits, from five random numbers:
/// `format!("{:x}-{:x}-4{:03}-8{:03}-{:012x}", a, b, c & 0xfff, d & 0xfff, e)`.
pub open spec fn extract_task_spec(a: u32, b: u16, c: u16, d: u16, e: u64) -> Seq<char> {
    let tail = hex_text(e as nat);
    hex_text(a as nat) + "-"@ + hex_text(b as nat) + "-4"@ + crate::auth::pad0(c as int % 4096, 3)
        + "-8"@ + crate::auth::pad0(d as int % 4096, 3) + "-"@ + crate::auth::zeros(12 - tail.len())
        + tail
}

/// Writes the task id of `web extract` (see `extract_task_spec`).
pub fn extract_task_id(a: u32, b: u16, c: u16, d: u16, e: u64) -> (r: String)
    ensures
        r@ == extract_task_spec(a, b, c, d, e),
{
    let mut out = hex_u64(a as u64);
    push_all(&mut out, &chars_of("-"));
    push_all(&mut out, &hex_u64(b as u64));
    push_all(&mut out, &chars_of("-4"));
    push_all(&mut out, &crate::auth::pad_int((c % 4096) as i64, 3));
    push_all(&mut out, &chars_of("-8"));
    push_all(&mut out, &crate::auth::pad_int((d % 4096) as i64, 3));
    push_all(&mut out, &chars_of("-"));
    let tail = hex_u64(e);
    let mut k: usize = 0;
    let pad: usize = if tail.len() < 12 {
        12 - tail.len()
    } else {
        0
    };
    let ghost start = out@;
    while k < pad
        invariant
            0 <= k <= pad,
            out@ == start + crate::auth::zeros(k as int),
        decreases pad - k,
    {
        out.push('0');
        k += 1;
        assert(out@ =~= start + crate::auth::zeros(k as int));
    }
    assert(crate::auth::zeros(pad as int) =~= crate::auth::zeros(12 - tail@.len()));
    push_all(&mut out, &tail);
    string_of(&out)
}

/// A fresh task id for `web extract`, from five draws of the random generator.
pub fn new_extract_task_id() -> (r: String)
    ensures
        exists|a: u32, b: u16, c: u16, d: u16, e: u64| r@ == extract_task_spec(a, b, c, d, e),
{
    let a = crate::codec::random_u64() as u32;
    let b = crate::codec::random_u64() as u16;
    let c = crate::codec::random_u64() as u16;
    let d = crate::codec::random_u64() as u16;
    let e = crate::codec::random_u64();
    extract_task_id(a, b, c, d, e)
}

} // verus!
