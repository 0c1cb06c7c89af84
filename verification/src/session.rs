//! The saved login session: its cookies, and where each profile's session file lives.
use vstd::prelude::*;
use crate::text::{chars_of, has_char, push_all, string_of};

verus! {

broadcast use vstd::string::group_string_axioms;

/// One cookie that the panel set at login.
pub struct CookieData {
    pub name: String,
    pub value: String,
}

/// What a successful login leaves behind for later commands.
pub struct Session {
    pub profile: String,
    pub panel_url: String,
    pub entrance: String,
    pub username: String,
    pub panel_name: String,
    pub logged_in_at: String,
    pub insecure: bool,
    pub cookies: Vec<CookieData>,
}

#[derive(Debug, PartialEq, Eq, Structural)]
pub enum SessionError {
    /// The profile name is empty or holds `/` or `\`.
    InvalidProfile,
}

/// A profile name may name a file: it is not empty and holds no path separator.
pub open spec fn valid_profile(p: Seq<char>) -> bool {
    p.len() > 0 && !p.contains('/') && !p.contains('\\')
}

/// `Path::join` of a relative file name onto a directory.
pub open spec fn path_join(dir: Seq<char>, name: Seq<char>) -> Seq<char> {
    if dir.len() == 0 {
        name
    } else if dir.last() == '/' {
        dir + name
    } else {
        dir + seq!['/'] + name
    }
}

pub open spec fn session_file(dir: Seq<char>, profile: Seq<char>) -> Seq<char> {
    path_join(dir, profile + ".json"@)
}

/// The session file of `profile` inside the configuration directory `config_dir`
/// (`<config_dir>/<profile>.json`); refused for a profile that could name another path.
pub fn session_path(config_dir: &str, profile: &str) -> (r: Result<String, SessionError>)
    ensures
        match r {
            Ok(p) => valid_profile(profile@) && p@ == session_file(config_dir@, profile@),
            Err(e) => !valid_profile(profile@) && e == SessionError::InvalidProfile,
        },
{
    let p = chars_of(profile);
    if p.len() == 0 || has_char(&p, '/') || has_char(&p, '\\') {
        return Err(SessionError::InvalidProfile);
    }
    let dir = chars_of(config_dir);
    let mut name = p;
    push_all(&mut name, &chars_of(".json"));
    let mut out = dir.clone();
    if dir.len() == 0 {
        out = name.clone();
    } else {
        if dir[dir.len() - 1] != '/' {
            out.push('/');
        }
        push_all(&mut out, &name);
    }
    proof {
        if dir@.len() > 0 && dir@.last() != '/' {
            assert(out@ =~= dir@ + seq!['/'] + name@);
        }
    }
    Ok(string_of(&out))
}

} // verus!
