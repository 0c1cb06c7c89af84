//! The app store and installed apps: the search paging, the table of apps, installation
//! choices, task polling, password changes of database apps, and the identifiers that
//! installations are submitted under. Also the reply check shared by the panel commands.
use vstd::prelude::*;
use vstd::utf8::*;
use crate::codec::{b64_encode, b64_of_str, hex_encode, hex_encode_bytes, random_16};
use crate::config::opt_view;
use crate::text::{
    chars_of, find_from, join, join_with, push_all, same, split_char, split_on, string_of,
    string_views, views, copy_chars, slice_of,
};

verus! {

broadcast use vstd::string::group_string_axioms;

/// The panel refused a request: its code (-1 when it sent none) and message.
#[derive(Debug)]
pub struct PanelError {
    pub code: i64,
    pub message: String,
}

/// Accepts a panel reply whose `code` is 200; any other (or none) is the panel's error.
pub fn check_code(code: Option<i64>, message: Option<&str>) -> (r: Result<(), PanelError>)
    ensures
        code == Some(200i64) <==> r is Ok,
        r matches Err(e) ==> e.code == (match code {
            Some(c) => c,
            None => -1i64,
        }) && e.message@ == (match message {
            Some(m) => m@,
            None => Seq::<char>::empty(),
        }),
{
    match code {
        Some(c) => {
            if c == 200 {
                return Ok(());
            }
        },
        None => {},
    }
    Err(
        PanelError {
            code: match code {
                Some(c) => c,
                None => -1,
            },
            message: match message {
                Some(m) => m.to_owned(),
                None => String::new(),
            },
        },
    )
}

#[derive(Debug)]
pub enum AppError {
    /// The new password is empty.
    EmptyPassword,
    /// Only mysql, mariadb and redis passwords can be changed (the app's key).
    PasswordUnsupported(String),
    /// No installed app has this name.
    NotInstalled(String),
    /// The app is installed already (its name).
    AlreadyInstalled(String),
    /// The app offers no version (its name).
    NoVersion(String),
    /// The task failed with this message.
    TaskFailed(String),
    /// A Redis setting other than timeout, maxclients and maxmemory.
    UnsupportedSetting(String),
}

/// Options of `apps install`.
pub struct InstallOptions {
    pub version: Option<String>,
    pub params: Vec<(String, String)>,
    pub wait: bool,
    pub timeout: i64,
}

/// Options of `apps list`.
pub struct AppsQuery {
    pub page: i64,
    pub page_size: i64,
    pub name: Option<String>,
    /// The app type to list.
    pub kind: Option<String>,
    pub tag: Option<String>,
    pub installed: bool,
    pub all: bool,
}

/// Options of `apps config`.
pub struct ConfigOptions {
    pub set: Vec<(String, String)>,
    pub show_compose: bool,
}

/// One request of the app search.
pub struct AppsSearch {
    pub page: i64,
    pub page_size: i64,
    pub name: String,
    pub tags: Vec<String>,
    pub kind: String,
}

pub open spec fn or_empty(o: Option<String>) -> Seq<char> {
    match o {
        Some(s) => s@,
        None => Seq::empty(),
    }
}

pub open spec fn clamp_size(s: i64) -> i64 {
    if s < 1 {
        1
    } else if s > 1000 {
        1000
    } else {
        s
    }
}

/// The search request for `page`: the page size is kept within 1..=1000, a given
/// non-empty tag is the only tag.
pub open spec fn search_spec(r: AppsSearch, q: AppsQuery, page: i64) -> bool {
    &&& r.page == page
    &&& r.page_size == clamp_size(q.page_size)
    &&& r.name@ == or_empty(q.name)
    &&& r.kind@ == or_empty(q.kind)
    &&& string_views(r.tags@) == (match q.tag {
        Some(t) if t@.len() > 0 => seq![t@],
        _ => Seq::<Seq<char>>::empty(),
    })
}

fn search_request(q: &AppsQuery, page: i64) -> (r: AppsSearch)
    ensures
        search_spec(r, *q, page),
{
    let mut tags: Vec<String> = Vec::new();
    match &q.tag {
        Some(t) => {
            if chars_of(t.as_str()).len() > 0 {
                tags.push(t.clone());
            }
        },
        None => {},
    }
    assert(string_views(tags@) =~= (match q.tag {
        Some(t) if t@.len() > 0 => seq![t@],
        _ => Seq::<Seq<char>>::empty(),
    }));
    AppsSearch {
        page,
        page_size: if q.page_size < 1 {
            1
        } else if q.page_size > 1000 {
            1000
        } else {
            q.page_size
        },
        name: match &q.name {
            Some(n) => n.clone(),
            None => String::new(),
        },
        tags,
        kind: match &q.kind {
            Some(k) => k.clone(),
            None => String::new(),
        },
    }
}

/// Every search request of `apps list`, the first and each following page alike, asks
/// for the name, the type and the tag of the query (empty name and type when none was
/// given; no tag when none or an empty one was given), at the given page.
pub proof fn law_search_keeps_query(r: AppsSearch, q: AppsQuery, page: i64)
    requires
        search_spec(r, q, page),
    ensures
        r.page == page,
        q.name matches Some(n) ==> r.name@ == n@,
        q.name is None ==> r.name@.len() == 0,
        q.kind matches Some(k) ==> r.kind@ == k@,
        q.kind is None ==> r.kind@.len() == 0,
        q.tag matches Some(t) ==> (t@.len() > 0 ==> r.tags@.len() == 1 && r.tags@[0]@ == t@),
        (q.tag is None || q.tag->0@.len() == 0) ==> r.tags@.len() == 0,
        1 <= r.page_size <= 1000,
{
    assert(string_views(r.tags@).len() == r.tags@.len());
    if r.tags@.len() > 0 {
        assert(string_views(r.tags@)[0] == r.tags@[0]@);
    }
}

/// The first search request of `apps list`: from the asked page, at least the first.
pub fn list(q: &AppsQuery) -> (r: AppsSearch)
    ensures
        search_spec(r, *q, if q.page < 1 {
            1
        } else {
            q.page
        }),
        q.name matches Some(n) ==> r.name@ == n@,
        q.name is None ==> r.name@.len() == 0,
{
    search_request(q, if q.page < 1 {
        1
    } else {
        q.page
    })
}

/// The next page to fetch after a page that brought the total to `fetched` of `total`:
/// only when every page is wanted (`--all` or `--installed`) and neither the items nor
/// the pages cover the total yet.
pub fn next_page(q: &AppsQuery, current: &AppsSearch, fetched: i64, total: i64) -> (r: Option<AppsSearch>)
    requires
        1 <= current.page_size <= 1000,
    ensures
        ({
            let more = (q.all || q.installed) && fetched < total && (current.page as int)
                * current.page_size < total;
            &&& more ==> (r matches Some(n) && search_spec(n, *q, (current.page + 1) as i64))
            &&& !more ==> r is None
        }),
        r matches Some(n) ==> n.name@ == or_empty(q.name) && n.kind@ == or_empty(q.kind),
{
    if !(q.all || q.installed) || fetched >= total {
        return None;
    }
    assert(-10000000000000000000000 <= (current.page as int) * current.page_size <= 10000000000000000000000) by (nonlinear_arith)
        requires
            1 <= current.page_size <= 1000,
            i64::MIN <= current.page <= i64::MAX,
    ;
    let covered: i128 = (current.page as i128) * (current.page_size as i128);
    if covered >= total as i128 {
        return None;
    }
    assert(current.page < i64::MAX) by (nonlinear_arith)
        requires
            (current.page as int) * current.page_size < total,
            1 <= current.page_size,
            total <= i64::MAX,
    ;
    Some(search_request(q, current.page + 1))
}

/// One app of the store.
pub struct AppItem {
    pub name: String,
    pub key: String,
    pub installed: bool,
    pub tags: Vec<String>,
    pub kind: String,
}

/// The table row of an app: type, name, key, 是/否 for installed, tags joined by `, `.
pub open spec fn app_row(it: AppItem) -> Seq<Seq<char>> {
    seq![
        it.kind@,
        it.name@,
        it.key@,
        if it.installed {
            "是"@
        } else {
            "否"@
        },
        join(string_views(it.tags@), ", "@),
    ]
}

pub open spec fn rows_view(v: Seq<Vec<String>>) -> Seq<Seq<Seq<char>>> {
    v.map_values(|r: Vec<String>| string_views(r@))
}

fn strings_to_chars(v: &Vec<String>) -> (r: Vec<Vec<char>>)
    ensures
        views(r@) == string_views(v@),
{
    let mut out: Vec<Vec<char>> = Vec::new();
    let mut i: usize = 0;
    while i < v.len()
        invariant
            0 <= i <= v.len(),
            views(out@) == string_views(v@.take(i as int)),
        decreases v.len() - i,
    {
        let ghost before = out@;
        let c = chars_of(v[i].as_str());
        out.push(c);
        assert(views(out@) =~= views(before).push(c@));
        assert(string_views(v@.take(i + 1)) =~= string_views(v@.take(i as int)).push(v@[i as int]@));
        i += 1;
    }
    assert(v@.take(v.len() as int) =~= v@);
    out
}

/// The rows of the app table; with `--installed` only installed apps are shown and their
/// number is the total.
pub open spec fn app_table_spec(items: Seq<AppItem>, installed_only: bool) -> Seq<Seq<Seq<char>>>
    decreases items.len(),
{
    if items.len() == 0 {
        Seq::empty()
    } else {
        let prev = app_table_spec(items.drop_last(), installed_only);
        if !installed_only || items.last().installed {
            prev.push(app_row(items.last()))
        } else {
            prev
        }
    }
}

/// The rows of `apps list` (see `app_table_spec`).
pub fn app_rows(items: &Vec<AppItem>, installed_only: bool) -> (r: Vec<Vec<String>>)
    ensures
        rows_view(r@) == app_table_spec(items@, installed_only),
{
    let mut rows: Vec<Vec<String>> = Vec::new();
    let mut i: usize = 0;
    assert(rows_view(rows@) =~= app_table_spec(items@.take(0), installed_only));
    while i < items.len()
        invariant
            0 <= i <= items.len(),
            rows_view(rows@) == app_table_spec(items@.take(i as int), installed_only),
        decreases items.len() - i,
    {
        proof {
            assert(items@.take(i + 1).drop_last() =~= items@.take(i as int));
            assert(items@.take(i + 1).last() == items@[i as int]);
        }
        let it = &items[i];
        if !installed_only || it.installed {
            let mut row: Vec<String> = Vec::new();
            row.push(it.kind.clone());
            row.push(it.name.clone());
            row.push(it.key.clone());
            row.push(if it.installed {
                "是".to_owned()
            } else {
                "否".to_owned()
            });
            let tags = join_with(&strings_to_chars(&it.tags), &chars_of(", "));
            row.push(string_of(&tags));
            assert(string_views(row@) =~= app_row(*it));
            let ghost before = rows@;
            rows.push(row);
            assert(rows_view(rows@) =~= rows_view(before).push(string_views(row@)));
        }
        i += 1;
    }
    assert(items@.take(items.len() as int) =~= items@);
    rows
}

/// The widest cell of each of the first `n` columns, in characters (0 for no rows).
pub open spec fn widths_spec(rows: Seq<Seq<Seq<char>>>, n: nat) -> Seq<nat>
    decreases rows.len(),
{
    if rows.len() == 0 {
        Seq::new(n, |j: int| 0nat)
    } else {
        let prev = widths_spec(rows.drop_last(), n);
        Seq::new(
            n,
            |j: int|
                if rows.last()[j].len() > prev[j] {
                    rows.last()[j].len()
                } else {
                    prev[j]
                },
        )
    }
}

/// The column widths of a table whose rows have at least `n` cells.
pub fn column_widths(rows: &Vec<Vec<String>>, n: usize) -> (r: Vec<usize>)
    requires
        forall|i: int| 0 <= i < rows@.len() ==> (#[trigger] rows@[i])@.len() >= n,
    ensures
        r@.map_values(|w: usize| w as nat) == widths_spec(rows_view(rows@), n as nat),
{
    let mut w: Vec<usize> = Vec::new();
    let mut j: usize = 0;
    while j < n
        invariant
            0 <= j <= n,
            w@.len() == j,
            forall|k: int| 0 <= k < j ==> w@[k] == 0,
        decreases n - j,
    {
        w.push(0);
        j += 1;
    }
    assert(w@.map_values(|x: usize| x as nat) =~= widths_spec(rows_view(rows@.take(0)), n as nat));
    let mut i: usize = 0;
    while i < rows.len()
        invariant
            0 <= i <= rows.len(),
            w@.len() == n,
            forall|k: int| 0 <= k < rows@.len() ==> (#[trigger] rows@[k])@.len() >= n,
            w@.map_values(|x: usize| x as nat) == widths_spec(rows_view(rows@.take(i as int)), n as nat),
        decreases rows.len() - i,
    {
        proof {
            assert(rows_view(rows@.take(i + 1)).drop_last() =~= rows_view(rows@.take(i as int)));
            assert(rows_view(rows@.take(i + 1)).last() == string_views(rows@[i as int]@));
        }
        let ghost prev = w@.map_values(|x: usize| x as nat);
        let row = &rows[i];
        let mut k: usize = 0;
        while k < n
            invariant
                0 <= k <= n,
                w@.len() == n,
                row@.len() >= n,
                *row == rows@[i as int],
                prev.len() == n,
                forall|t: int| 0 <= t < k ==> w@[t] as nat == (if row@[t]@.len() > prev[t] {
                    row@[t]@.len()
                } else {
                    prev[t]
                }),
                forall|t: int| k <= t < n ==> w@[t] as nat == prev[t],
            decreases n - k,
        {
            let len = chars_of(row[k].as_str()).len();
            if len > w[k] {
                w.set(k, len);
            }
            k += 1;
        }
        proof {
            assert(string_views(rows@[i as int]@).len() == row@.len());
            assert forall|t: int| 0 <= t < n implies string_views(rows@[i as int]@)[t] == row@[t]@ by {}
            assert(w@.map_values(|x: usize| x as nat) =~= widths_spec(
                rows_view(rows@.take(i + 1)),
                n as nat,
            ));
        }
        i += 1;
    }
    assert(rows@.take(rows.len() as int) =~= rows@);
    w
}

/// `w + 2` dashes per column, joined by `+`.
pub open spec fn separator_spec(widths: Seq<usize>) -> Seq<char> {
    join(widths.map_values(|w: usize| Seq::new((w + 2) as nat, |i: int| '-')), "+"@)
}

/// The rule line between a table's header and rows.
pub fn separator(widths: &Vec<usize>) -> (r: String)
    requires
        forall|i: int| 0 <= i < widths@.len() ==> #[trigger] widths@[i] <= usize::MAX - 2,
    ensures
        r@ == separator_spec(widths@),
{
    let mut parts: Vec<Vec<char>> = Vec::new();
    let mut i: usize = 0;
    while i < widths.len()
        invariant
            0 <= i <= widths.len(),
            forall|k: int| 0 <= k < widths@.len() ==> #[trigger] widths@[k] <= usize::MAX - 2,
            views(parts@) == widths@.take(i as int).map_values(
                |w: usize| Seq::new((w + 2) as nat, |j: int| '-'),
            ),
        decreases widths.len() - i,
    {
        let n = widths[i] + 2;
        let mut d: Vec<char> = Vec::new();
        let mut k: usize = 0;
        while k < n
            invariant
                0 <= k <= n,
                d@ == Seq::new(k as nat, |j: int| '-'),
            decreases n - k,
        {
            d.push('-');
            k += 1;
            assert(d@ =~= Seq::new(k as nat, |j: int| '-'));
        }
        let ghost before = parts@;
        parts.push(d);
        assert(views(parts@) =~= views(before).push(d@));
        assert(widths@.take(i + 1).map_values(|w: usize| Seq::new((w + 2) as nat, |j: int| '-'))
            =~= widths@.take(i as int).map_values(|w: usize| Seq::new((w + 2) as nat, |j: int| '-')).push(
            d@,
        ));
        i += 1;
    }
    assert(widths@.take(widths.len() as int) =~= widths@);
    string_of(&join_with(&parts, &chars_of("+")))
}

/// The identifier of an install task: 16 random bytes as a version-4 UUID.
pub open spec fn uuid_text(b: Seq<u8>) -> Seq<char> {
    let c = b.update(6, (b[6] & 0x0f) | 0x40).update(8, (b[8] & 0x3f) | 0x80);
    hex_encode(c.subrange(0, 4)) + "-"@ + hex_encode(c.subrange(4, 6)) + "-"@ + hex_encode(
        c.subrange(6, 8),
    ) + "-"@ + hex_encode(c.subrange(8, 10)) + "-"@ + hex_encode(c.subrange(10, 16))
}

fn sub_bytes(v: &Vec<u8>, a: usize, b: usize) -> (r: Vec<u8>)
    requires
        a <= b <= v.len(),
    ensures
        r@ == v@.subrange(a as int, b as int),
{
    let mut out: Vec<u8> = Vec::new();
    let mut i = a;
    while i < b
        invariant
            a <= i <= b <= v.len(),
            out@ == v@.subrange(a as int, i as int),
        decreases b - i,
    {
        out.push(v[i]);
        i += 1;
        assert(out@ =~= v@.subrange(a as int, i as int));
    }
    out
}

/// Writes 16 bytes as a version-4 UUID (see `uuid_text`).
pub fn uuid_v4(bytes: &Vec<u8>) -> (r: String)
    requires
        bytes@.len() == 16,
    ensures
        r@ == uuid_text(bytes@),
{
    let mut b = sub_bytes(bytes, 0, 16);
    assert(b@ =~= bytes@);
    let b6 = (b[6] & 0x0f) | 0x40;
    let b8 = (b[8] & 0x3f) | 0x80;
    b.set(6, b6);
    b.set(8, b8);
    let mut out = chars_of(hex_encode_bytes(sub_bytes(&b, 0, 4).as_slice()).as_str());
    push_all(&mut out, &chars_of("-"));
    push_all(&mut out, &chars_of(hex_encode_bytes(sub_bytes(&b, 4, 6).as_slice()).as_str()));
    push_all(&mut out, &chars_of("-"));
    push_all(&mut out, &chars_of(hex_encode_bytes(sub_bytes(&b, 6, 8).as_slice()).as_str()));
    push_all(&mut out, &chars_of("-"));
    push_all(&mut out, &chars_of(hex_encode_bytes(sub_bytes(&b, 8, 10).as_slice()).as_str()));
    push_all(&mut out, &chars_of("-"));
    push_all(&mut out, &chars_of(hex_encode_bytes(sub_bytes(&b, 10, 16).as_slice()).as_str()));
    string_of(&out)
}

/// A fresh version-4 UUID.
pub fn new_uuid() -> (r: String)
    ensures
        exists|b: Seq<u8>| b.len() == 16 && r@ == #[trigger] uuid_text(b),
{
    let b = random_16();
    let r = uuid_v4(&b);
    assert(b@.len() == 16 && r@ == uuid_text(b@));
    r
}

/// The version to install: the asked one, else the newest the store lists. An installed
/// app, or one without versions, is refused.
pub fn install_version(name: &str, installed: bool, versions: &Vec<String>, requested: &Option<String>) -> (r: Result<String, AppError>)
    ensures
        installed ==> (r matches Err(AppError::AlreadyInstalled(n)) && n@ == name@),
        !installed && versions@.len() == 0 ==> (r matches Err(AppError::NoVersion(n)) && n@ == name@),
        !installed && versions@.len() > 0 ==> (r matches Ok(v) && v@ == match requested {
            Some(x) => x@,
            None => versions@[0]@,
        }),
{
    if installed {
        return Err(AppError::AlreadyInstalled(name.to_owned()));
    }
    if versions.len() == 0 {
        return Err(AppError::NoVersion(name.to_owned()));
    }
    match requested {
        Some(x) => Ok(x.clone()),
        None => Ok(versions[0].clone()),
    }
}

/// How long to wait for an install task: the given seconds, 600 when none is given.
pub fn task_timeout(timeout: i64) -> (r: i64)
    ensures
        r == if timeout <= 0 {
            600
        } else {
            timeout
        },
{
    if timeout <= 0 {
        600
    } else {
        timeout
    }
}

/// Where an install task stands.
pub enum TaskState {
    Succeeded,
    /// Failed, with the panel's message.
    Failed(String),
    Running,
}

/// The state of a task from its status (`Success`; `Failed` or `Error`, with its error
/// message or 未知错误; anything else is still running).
pub fn task_state(status: &str, error_msg: Option<&str>) -> (r: TaskState)
    ensures
        status@ == "Success"@ ==> r matches TaskState::Succeeded,
        (status@ == "Failed"@ || status@ == "Error"@) ==> r is Failed,
        r matches TaskState::Failed(m) ==> m@ == (match error_msg {
            Some(e) => e@,
            None => "未知错误"@,
        }),
        !(status@ == "Success"@ || status@ == "Failed"@ || status@ == "Error"@) ==> r matches TaskState::Running,
{
    proof {
        reveal_strlit("Success");
        reveal_strlit("Failed");
        reveal_strlit("Error");
        assert("Success"@.len() == 7 && "Failed"@.len() == 6 && "Error"@.len() == 5);
    }
    let s = chars_of(status);
    if same(&s, &chars_of("Success")) {
        TaskState::Succeeded
    } else if same(&s, &chars_of("Failed")) || same(&s, &chars_of("Error")) {
        TaskState::Failed(
            match error_msg {
                Some(e) => e.to_owned(),
                None => "未知错误".to_owned(),
            },
        )
    } else {
        TaskState::Running
    }
}

/// An installed app.
pub struct InstalledItem {
    pub id: u64,
    pub name: String,
    pub app_key: String,
}

/// The first installed app called `name`.
pub fn find_installed(items: &Vec<InstalledItem>, name: &str) -> (r: Result<usize, AppError>)
    ensures
        match r {
            Ok(i) => i < items@.len() && items@[i as int].name@ == name@ && forall|k: int|
                0 <= k < i ==> (#[trigger] items@[k]).name@ != name@,
            Err(e) => (e matches AppError::NotInstalled(n) && n@ == name@) && forall|k: int|
                0 <= k < items@.len() ==> (#[trigger] items@[k]).name@ != name@,
        },
{
    let n = chars_of(name);
    let mut i: usize = 0;
    while i < items.len()
        invariant
            0 <= i <= items.len(),
            n@ == name@,
            forall|k: int| 0 <= k < i ==> (#[trigger] items@[k]).name@ != name@,
        decreases items.len() - i,
    {
        if same(&chars_of(items[i].name.as_str()), &n) {
            return Ok(i);
        }
        i += 1;
    }
    Err(AppError::NotInstalled(name.to_owned()))
}

/// The password change request of a database app.
pub enum PasswordRequest {
    /// `POST databases/change/password` (mysql, mariadb): the app key, the app (database)
    /// name and the Base64 of the password.
    Database(String, String, String),
    /// `POST databases/redis/password`: the app name and the Base64 of the password.
    Redis(String, String),
}

/// A new password may not be empty.
pub fn check_password(value: &str) -> (r: Result<(), AppError>)
    ensures
        value@.len() == 0 <==> r matches Err(AppError::EmptyPassword),
        value@.len() > 0 <==> r is Ok,
{
    if chars_of(value).len() == 0 {
        Err(AppError::EmptyPassword)
    } else {
        Ok(())
    }
}

/// The request that sets the password of the installed app `name` (of kind `app_key`)
/// to `value`: mysql and mariadb go through the database API, redis through its own;
/// other apps are refused, as is an empty password.
pub fn password(name: &str, value: &str, app_key: &str) -> (r: Result<PasswordRequest, AppError>)
    ensures
        value@.len() == 0 ==> r matches Err(AppError::EmptyPassword),
        value@.len() > 0 ==> {
            let enc = b64_encode(encode_utf8(value@));
            if app_key@ == "mysql"@ || app_key@ == "mariadb"@ {
                r matches Ok(PasswordRequest::Database(k, d, v)) && k@ == app_key@ && d@ == name@
                    && v@ == enc
            } else if app_key@ == "redis"@ {
                r matches Ok(PasswordRequest::Redis(d, v)) && d@ == name@ && v@ == enc
            } else {
                r matches Err(AppError::PasswordUnsupported(k)) && k@ == app_key@
            }
        },
{
    check_password(value)?;
    let encoded = b64_of_str(value);
    let k = chars_of(app_key);
    if same(&k, &chars_of("mysql")) || same(&k, &chars_of("mariadb")) {
        Ok(PasswordRequest::Database(app_key.to_owned(), name.to_owned(), encoded))
    } else if same(&k, &chars_of("redis")) {
        Ok(PasswordRequest::Redis(name.to_owned(), encoded))
    } else {
        Err(AppError::PasswordUnsupported(app_key.to_owned()))
    }
}

/// The apps whose connection details `apps info` shows.
pub open spec fn is_db_app(key: Seq<char>) -> bool {
    key == "mysql"@ || key == "mariadb"@ || key == "redis"@ || key == "mongodb"@ || key
        == "postgresql"@ || key == "sqlite"@ || key == "clickhouse"@
}

pub fn db_app(key: &str) -> (r: bool)
    ensures
        r == is_db_app(key@),
{
    let k = chars_of(key);
    same(&k, &chars_of("mysql")) || same(&k, &chars_of("mariadb")) || same(&k, &chars_of("redis"))
        || same(&k, &chars_of("mongodb")) || same(&k, &chars_of("postgresql")) || same(
        &k,
        &chars_of("sqlite"),
    ) || same(&k, &chars_of("clickhouse"))
}

/// The host of a panel address: what follows the first `://` up to the next `://`, cut at
/// its first `:`; `127.0.0.1` without a scheme.
pub open spec fn conn_host_spec(panel_url: Seq<char>) -> Seq<char> {
    match find_from(panel_url, "://"@, 0) {
        None => "127.0.0.1"@,
        Some(k) => {
            let rest = panel_url.skip(k + 3);
            let piece = match find_from(rest, "://"@, 0) {
                Some(j) => rest.take(j),
                None => rest,
            };
            split_on(piece, ':')[0]
        },
    }
}

pub fn conn_host(panel_url: &str) -> (r: String)
    ensures
        r@ == conn_host_spec(panel_url@),
{
    proof {
        reveal_strlit("://");
    }
    let u = chars_of(panel_url);
    let sep = chars_of("://");
    match crate::text::find_at_or_after(&u, &sep, 0) {
        None => "127.0.0.1".to_owned(),
        Some(k) => {
            proof {
                crate::text::lemma_find_from_some(u@, sep@, 0);
            }
            assert(crate::text::occurs_at(u@, sep@, k as int));
            assert(k + 3 <= u.len());
            let rest = slice_of(&u, k + 3, u.len());
            assert(rest@ =~= u@.skip(k + 3));
            let piece = match crate::text::find_at_or_after(&rest, &sep, 0) {
                Some(j) => {
                    proof {
                        crate::text::lemma_find_from_some(rest@, sep@, 0);
                    }
                    let p = slice_of(&rest, 0, j);
                    assert(p@ =~= rest@.take(j as int));
                    p
                },
                None => rest,
            };
            let parts = split_char(&piece, ':');
            proof {
                assert(split_on(piece@, ':').len() >= 1);
                assert(views(parts@)[0] == parts@[0]@);
            }
            string_of(&copy_chars(&parts[0]))
        },
    }
}

/// The user of a database app: the reported one, `root` for mysql and mariadb when none
/// is reported.
pub fn conn_username(username: &str, app_key: &str) -> (r: String)
    ensures
        r@ == if username@.len() == 0 && (app_key@ == "mysql"@ || app_key@ == "mariadb"@) {
            "root"@
        } else {
            username@
        },
{
    let k = chars_of(app_key);
    if chars_of(username).len() == 0 && (same(&k, &chars_of("mysql")) || same(&k, &chars_of("mariadb"))) {
        "root".to_owned()
    } else {
        username.to_owned()
    }
}

/// A submitted task id is a well-formed version-4 UUID: 36 characters in groups of 8, 4,
/// 4, 4 and 12 hex digits, version digit `4`, variant digit `8`, `9`, `a` or `b`.
pub proof fn law_uuid_is_version_4(b: Seq<u8>)
    requires
        b.len() == 16,
    ensures
        uuid_text(b).len() == 36,
        uuid_text(b)[8] == '-' && uuid_text(b)[13] == '-' && uuid_text(b)[18] == '-' && uuid_text(b)[23] == '-',
        uuid_text(b)[14] == '4',
        uuid_text(b)[19] == '8' || uuid_text(b)[19] == '9' || uuid_text(b)[19] == 'a' || uuid_text(b)[19] == 'b',
{
    reveal_strlit("-");
    let x6 = b[6];
    let x8 = b[8];
    let c = b.update(6, (x6 & 0x0f) | 0x40).update(8, (x8 & 0x3f) | 0x80);
    let g0 = c.subrange(0, 4);
    let g1 = c.subrange(4, 6);
    let g2 = c.subrange(6, 8);
    let g3 = c.subrange(8, 10);
    let g4 = c.subrange(10, 16);
    crate::crypto::lemma_hex_len(g0);
    crate::crypto::lemma_hex_len(g1);
    crate::crypto::lemma_hex_len(g2);
    crate::crypto::lemma_hex_len(g3);
    crate::crypto::lemma_hex_len(g4);
    let v6 = (x6 & 0x0f) | 0x40;
    let v8 = (x8 & 0x3f) | 0x80;
    assert(v6 / 16 == 4) by (bit_vector)
        requires
            v6 == (x6 & 0x0f) | 0x40,
    ;
    assert(8 <= v8 / 16 <= 11) by (bit_vector)
        requires
            v8 == (x8 & 0x3f) | 0x80,
    ;
    assert(g2[0] == v6);
    assert(g3[0] == v8);
    assert(hex_encode(g2)[0] == crate::codec::hex_lower((g2[0] / 16) as nat));
    assert(hex_encode(g3)[0] == crate::codec::hex_lower((g3[0] / 16) as nat));
    let t = uuid_text(b);
    let h0 = hex_encode(g0);
    let h1 = hex_encode(g1);
    let h2 = hex_encode(g2);
    let h3 = hex_encode(g3);
    let h4 = hex_encode(g4);
    assert(t == h0 + "-"@ + h1 + "-"@ + h2 + "-"@ + h3 + "-"@ + h4);
    assert(t[8] == "-"@[0]);
    assert(t[13] == "-"@[0]);
    assert(t[14] == h2[0]);
    assert(t[18] == "-"@[0]);
    assert(t[19] == h3[0]);
    assert(t[23] == "-"@[0]);
}


/// One line of an installed app's configuration listing: the key, the value as
/// printed, ` # ` and the Chinese label when there is one, then the parameter's type
/// and whether it can be edited (`是` or `否`).
pub open spec fn config_line_spec(key: Seq<char>, value: Seq<char>, label: Seq<char>, kind: Seq<char>, edit: bool) -> Seq<char> {
    "  "@ + key + " = "@ + value + (if label.len() == 0 { seq![] } else { " # "@ + label })
        + "  [类型:"@ + kind + " 可编辑:"@ + (if edit { "是"@ } else { "否"@ }) + "]"@
}

/// The listing line of one configuration parameter (see `config_line_spec`).
pub fn config_line(key: &str, value: &str, label: &str, kind: &str, edit: bool) -> (r: String)
    ensures
        r@ == config_line_spec(key@, value@, label@, kind@, edit),
{
    let mut out = chars_of("  ");
    push_all(&mut out, &chars_of(key));
    push_all(&mut out, &chars_of(" = "));
    push_all(&mut out, &chars_of(value));
    let lab = chars_of(label);
    if lab.len() > 0 {
        push_all(&mut out, &chars_of(" # "));
        push_all(&mut out, &lab);
    }
    push_all(&mut out, &chars_of("  [类型:"));
    push_all(&mut out, &chars_of(kind));
    push_all(&mut out, &chars_of(" 可编辑:"));
    if edit {
        push_all(&mut out, &chars_of("是"));
    } else {
        push_all(&mut out, &chars_of("否"));
    }
    push_all(&mut out, &chars_of("]"));
    proof {
        let lp: Seq<char> = if label@.len() == 0 { seq![] } else { " # "@ + label@ };
        let e: Seq<char> = if edit { "是"@ } else { "否"@ };
        assert(out@ =~= "  "@ + key@ + " = "@ + value@ + lp + "  [类型:"@ + kind@ + " 可编辑:"@ + e + "]"@);
    }
    string_of(&out)
}

/// The line on automatic port allocation: `开启` when it is on, `关闭` when off.
pub fn auto_port_line(allow_port: bool) -> (r: String)
    ensures
        r@ == "端口自动分配: "@ + (if allow_port { "开启"@ } else { "关闭"@ }),
{
    let mut out = chars_of("端口自动分配: ");
    if allow_port {
        push_all(&mut out, &chars_of("开启"));
    } else {
        push_all(&mut out, &chars_of("关闭"));
    }
    string_of(&out)
}

} // verus!
