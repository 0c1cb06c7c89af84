//! Databases and their users on MySQL-like instances, and the Redis settings that can be
//! changed: the requests each command sends and the checks made on the panel's replies.
use vstd::prelude::*;
use vstd::utf8::*;
use crate::apps::{password, AppError, PasswordRequest};
use crate::codec::{b64_encode, b64_of_str};
use crate::config::opt_view;
use crate::text::{chars_of, join, join_with, push_all, same, string_of, string_views, views};

verus! {

broadcast use vstd::string::group_string_axioms;

#[derive(Debug)]
pub enum DbError {
    /// Only mysql and mariadb databases are listed (the type asked for).
    UnsupportedType(String),
    /// The database is used by these resources (`name[type]`, comma-separated); `--force`
    /// is needed.
    InUse(String),
    /// No database of that name on the instance (the instance and the name).
    NotFound(String, String),
}

/// Options of `db create`.
pub struct CreateOptions {
    pub user: Option<String>,
    pub password: Option<String>,
    pub instance: String,
    pub format: String,
    pub permission: String,
    pub remark: Option<String>,
}

/// Options of `db delete`.
pub struct DeleteOptions {
    pub instance: String,
    pub db_type: String,
    pub force: bool,
}

/// Options of the `db user` commands.
pub struct UserOptions {
    pub instance: String,
    pub host: String,
    pub dbs: Vec<String>,
    pub remark: Option<String>,
}

/// The listing target: the type (default `mysql`) and the instance (default the type);
/// only mysql and mariadb are listed here.
pub fn list(kind: &str, instance: Option<&str>) -> (r: Result<(String, String), DbError>)
    ensures
        ({
            let k = if kind@.len() == 0 {
                "mysql"@
            } else {
                kind@
            };
            let inst = match instance {
                Some(i) => i@,
                None => k,
            };
            if k == "mysql"@ || k == "mariadb"@ {
                r matches Ok((a, b)) && a@ == k && b@ == inst
            } else {
                r matches Err(DbError::UnsupportedType(t)) && t@ == k
            }
        }),
{
    let k = if chars_of(kind).len() == 0 {
        "mysql".to_owned()
    } else {
        kind.to_owned()
    };
    let inst = match instance {
        Some(i) => i.to_owned(),
        None => k.clone(),
    };
    let kc = chars_of(k.as_str());
    if same(&kc, &chars_of("mysql")) || same(&kc, &chars_of("mariadb")) {
        Ok((k, inst))
    } else {
        Err(DbError::UnsupportedType(k))
    }
}

/// A database of an instance.
pub struct MysqlDb {
    pub id: u64,
    pub name: String,
    pub username: String,
    pub permission: String,
    pub description: String,
}

/// The first database called `name` among the search results.
pub fn find_mysql_db(items: &Vec<MysqlDb>, instance: &str, name: &str) -> (r: Result<usize, DbError>)
    ensures
        match r {
            Ok(i) => i < items@.len() && items@[i as int].name@ == name@ && forall|k: int|
                0 <= k < i ==> (#[trigger] items@[k]).name@ != name@,
            Err(e) => (e matches DbError::NotFound(a, b) && a@ == instance@ && b@ == name@) && forall|
                k: int,
            |
                0 <= k < items@.len() ==> (#[trigger] items@[k]).name@ != name@,
        },
{
    let n = chars_of(name);
    let mut i: usize = 0;
    while i < items.len()
        invariant
            0 <= i <= items.len(),
            n@ == name@,
            forall|k: int| 0 <= k < i ==> (#[trigger] items@[k]).name@ != name@,
        decreases items.len() - i,
    {
        if same(&chars_of(items[i].name.as_str()), &n) {
            return Ok(i);
        }
        i += 1;
    }
    Err(DbError::NotFound(instance.to_owned(), name.to_owned()))
}

/// The body of `POST databases`.
pub struct CreateDbRequest {
    pub name: String,
    pub from: String,
    pub database: String,
    pub format: String,
    pub username: String,
    /// Base64 of the password; empty without one.
    pub password: String,
    pub permission: String,
    pub description: String,
}

/// The request that creates database `name` on a local instance.
pub fn create(name: &str, opts: &CreateOptions) -> (r: CreateDbRequest)
    ensures
        r.name@ == name@,
        r.from@ == "local"@,
        r.database@ == opts.instance@,
        r.format@ == opts.format@,
        r.username@ == crate::apps::or_empty(opts.user),
        r.password@ == (match opts.password {
            Some(p) => b64_encode(encode_utf8(p@)),
            None => Seq::<char>::empty(),
        }),
        r.permission@ == opts.permission@,
        r.description@ == crate::apps::or_empty(opts.remark),
{
    CreateDbRequest {
        name: name.to_owned(),
        from: "local".to_owned(),
        database: opts.instance.clone(),
        format: opts.format.clone(),
        username: match &opts.user {
            Some(u) => u.clone(),
            None => String::new(),
        },
        password: match &opts.password {
            Some(p) => b64_of_str(p.as_str()),
            None => String::new(),
        },
        permission: opts.permission.clone(),
        description: match &opts.remark {
            Some(m) => m.clone(),
            None => String::new(),
        },
    }
}

/// A resource that uses a database: its name and type.
pub struct DbResource {
    pub name: String,
    pub kind: String,
}

pub open spec fn resource_text(r: DbResource) -> Seq<char> {
    r.name@ + "["@ + r.kind@ + "]"@
}

/// Whether the deletion may go on: a database in use is deleted only with `--force`; the
/// refusal names the resources (`name[type]`, joined by `, `).
pub fn delete(name: &str, resources: &Vec<DbResource>, opts: &DeleteOptions) -> (r: Result<(), DbError>)
    ensures
        resources@.len() == 0 || opts.force ==> r is Ok,
        resources@.len() > 0 && !opts.force ==> (r matches Err(DbError::InUse(t)) && t@ == join(
            resources@.map_values(|x: DbResource| resource_text(x)),
            ", "@,
        )),
{
    if resources.len() == 0 || opts.force {
        return Ok(());
    }
    let mut parts: Vec<Vec<char>> = Vec::new();
    let mut i: usize = 0;
    while i < resources.len()
        invariant
            0 <= i <= resources.len(),
            views(parts@) == resources@.take(i as int).map_values(|x: DbResource| resource_text(x)),
        decreases resources.len() - i,
    {
        let mut t = chars_of(resources[i].name.as_str());
        push_all(&mut t, &chars_of("["));
        push_all(&mut t, &chars_of(resources[i].kind.as_str()));
        push_all(&mut t, &chars_of("]"));
        let ghost before = parts@;
        parts.push(t);
        assert(views(parts@) =~= views(before).push(t@));
        assert(resources@.take(i + 1).map_values(|x: DbResource| resource_text(x))
            =~= resources@.take(i as int).map_values(|x: DbResource| resource_text(x)).push(
            resource_text(resources@[i as int]),
        ));
        i += 1;
    }
    assert(resources@.take(resources.len() as int) =~= resources@);
    Err(DbError::InUse(string_of(&join_with(&parts, &chars_of(", ")))))
}

/// The body of the database user requests.
pub struct UserRequest {
    pub database: String,
    pub username: String,
    /// Base64 of the password (absent for deletion).
    pub password: Option<String>,
    pub host: String,
    /// The remark (only when creating).
    pub description: Option<String>,
    /// The databases granted (only when creating).
    pub dbs: Option<Vec<String>>,
}

fn copy_strings(v: &Vec<String>) -> (r: Vec<String>)
    ensures
        string_views(r@) == string_views(v@),
{
    let mut out: Vec<String> = Vec::new();
    let mut i: usize = 0;
    while i < v.len()
        invariant
            0 <= i <= v.len(),
            string_views(out@) == string_views(v@.take(i as int)),
        decreases v.len() - i,
    {
        let ghost before = out@;
        let s = v[i].clone();
        out.push(s);
        assert(string_views(out@) =~= string_views(before).push(s@));
        assert(string_views(v@.take(i + 1)) =~= string_views(v@.take(i as int)).push(v@[i as int]@));
        i += 1;
    }
    assert(v@.take(v.len() as int) =~= v@);
    out
}

/// Creates `username` with `password` (sent in Base64) on the instance.
pub fn user_add(username: &str, password: &str, opts: &UserOptions) -> (r: UserRequest)
    ensures
        r.database@ == opts.instance@,
        r.username@ == username@,
        r.password matches Some(p) && p@ == b64_encode(encode_utf8(password@)),
        r.host@ == opts.host@,
        r.description matches Some(d) && d@ == crate::apps::or_empty(opts.remark),
        r.dbs matches Some(v) && string_views(v@) == string_views(opts.dbs@),
{
    UserRequest {
        database: opts.instance.clone(),
        username: username.to_owned(),
        password: Some(b64_of_str(password)),
        host: opts.host.clone(),
        description: Some(
            match &opts.remark {
                Some(m) => m.clone(),
                None => String::new(),
            },
        ),
        dbs: Some(copy_strings(&opts.dbs)),
    }
}

/// Deletes `username`@host from the instance.
pub fn user_del(username: &str, opts: &UserOptions) -> (r: UserRequest)
    ensures
        r.database@ == opts.instance@,
        r.username@ == username@,
        r.password is None,
        r.host@ == opts.host@,
        r.description is None,
        r.dbs is None,
{
    UserRequest {
        database: opts.instance.clone(),
        username: username.to_owned(),
        password: None,
        host: opts.host.clone(),
        description: None,
        dbs: None,
    }
}

/// Sets the password of `username`@host (sent in Base64).
pub fn user_passwd(username: &str, password: &str, opts: &UserOptions) -> (r: UserRequest)
    ensures
        r.database@ == opts.instance@,
        r.username@ == username@,
        r.password matches Some(p) && p@ == b64_encode(encode_utf8(password@)),
        r.host@ == opts.host@,
        r.description is None,
        r.dbs is None,
{
    UserRequest {
        database: opts.instance.clone(),
        username: username.to_owned(),
        password: Some(b64_of_str(password)),
        host: opts.host.clone(),
        description: None,
        dbs: None,
    }
}

/// The root password of a database instance is the password of its app (see
/// `apps::password`).
pub fn root_passwd(instance: &str, password_value: &str, app_key: &str) -> (r: Result<PasswordRequest, AppError>)
    ensures
        password_value@.len() == 0 ==> r matches Err(AppError::EmptyPassword),
        password_value@.len() > 0 ==> {
            let enc = b64_encode(encode_utf8(password_value@));
            if app_key@ == "mysql"@ || app_key@ == "mariadb"@ {
                r matches Ok(PasswordRequest::Database(k, d, v)) && k@ == app_key@ && d@ == instance@
                    && v@ == enc
            } else if app_key@ == "redis"@ {
                r matches Ok(PasswordRequest::Redis(d, v)) && d@ == instance@ && v@ == enc
            } else {
                r matches Err(AppError::PasswordUnsupported(k)) && k@ == app_key@
            }
        },
{
    password(instance, password_value, app_key)
}

} // verus!
