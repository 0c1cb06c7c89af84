//! Redis instances: the settings `redis config` may change, and the password.
use vstd::prelude::*;
use vstd::utf8::*;
use crate::apps::{password, AppError, PasswordRequest};
use crate::codec::b64_encode;
use crate::text::{chars_of, same};

verus! {

broadcast use vstd::string::group_string_axioms;

/// The settings `redis config` changes.
pub struct ConfigOptions {
    pub set: Vec<(String, String)>,
}

/// The Redis settings as the panel reports them (missing ones empty).
pub struct RedisConf {
    pub timeout: String,
    pub maxclients: String,
    pub maxmemory: String,
}

pub open spec fn redis_view(c: RedisConf) -> (Seq<char>, Seq<char>, Seq<char>) {
    (c.timeout@, c.maxclients@, c.maxmemory@)
}

/// The settings after applying `set` in order to the current ones: each key must be
/// timeout, maxclients or maxmemory; the first other key is the error (its index).
pub open spec fn redis_apply(cur: (Seq<char>, Seq<char>, Seq<char>), set: Seq<(String, String)>) -> Result<(Seq<char>, Seq<char>, Seq<char>), int>
    decreases set.len(),
{
    if set.len() == 0 {
        Ok(cur)
    } else {
        match redis_apply(cur, set.drop_last()) {
            Err(i) => Err(i),
            Ok(c) => {
                let (k, v) = set.last();
                if k@ == "timeout"@ {
                    Ok((v@, c.1, c.2))
                } else if k@ == "maxclients"@ {
                    Ok((c.0, v@, c.2))
                } else if k@ == "maxmemory"@ {
                    Ok((c.0, c.1, v@))
                } else {
                    Err(set.len() - 1)
                }
            },
        }
    }
}

/// The update of `redis config NAME --set k=v ...`: the current timeout, maxclients and
/// maxmemory, with the given settings applied; another key is refused.
pub fn config(current: &RedisConf, opts: &ConfigOptions) -> (r: Result<RedisConf, AppError>)
    ensures
        match redis_apply(redis_view(*current), opts.set@) {
            Ok(c) => r matches Ok(n) && redis_view(n) == c,
            Err(i) => 0 <= i < opts.set@.len() && (r matches Err(AppError::UnsupportedSetting(k)) && k@
                == opts.set@[i].0@),
        },
{
    let mut conf = RedisConf {
        timeout: current.timeout.clone(),
        maxclients: current.maxclients.clone(),
        maxmemory: current.maxmemory.clone(),
    };
    let mut i: usize = 0;
    assert(opts.set@.take(0) =~= Seq::<(String, String)>::empty());
    while i < opts.set.len()
        invariant
            0 <= i <= opts.set.len(),
            redis_apply(redis_view(*current), opts.set@.take(i as int)) == Ok::<
                (Seq<char>, Seq<char>, Seq<char>),
                int,
            >(redis_view(conf)),
        decreases opts.set.len() - i,
    {
        proof {
            assert(opts.set@.take(i + 1).drop_last() =~= opts.set@.take(i as int));
            assert(opts.set@.take(i + 1).last() == opts.set@[i as int]);
        }
        let (k, v) = &opts.set[i];
        let kc = chars_of(k.as_str());
        if same(&kc, &chars_of("timeout")) {
            conf.timeout = v.clone();
        } else if same(&kc, &chars_of("maxclients")) {
            conf.maxclients = v.clone();
        } else if same(&kc, &chars_of("maxmemory")) {
            conf.maxmemory = v.clone();
        } else {
            proof {
                lemma_redis_err_stays(redis_view(*current), opts.set@, i + 1);
            }
            return Err(AppError::UnsupportedSetting(k.clone()));
        }
        i += 1;
    }
    assert(opts.set@.take(opts.set.len() as int) =~= opts.set@);
    Ok(conf)
}

proof fn lemma_redis_err_stays(cur: (Seq<char>, Seq<char>, Seq<char>), set: Seq<(String, String)>, n: int)
    requires
        0 <= n <= set.len(),
        redis_apply(cur, set.take(n)) is Err,
    ensures
        redis_apply(cur, set) == redis_apply(cur, set.take(n)),
        0 <= redis_apply(cur, set)->Err_0 < n,
    decreases set.len() - n,
{
    lemma_redis_err_index(cur, set.take(n));
    if n < set.len() {
        assert(set.take(n + 1).drop_last() =~= set.take(n));
        lemma_redis_err_stays(cur, set, n + 1);
    } else {
        assert(set.take(n) =~= set);
    }
}

proof fn lemma_redis_err_index(cur: (Seq<char>, Seq<char>, Seq<char>), set: Seq<(String, String)>)
    requires
        redis_apply(cur, set) is Err,
    ensures
        0 <= redis_apply(cur, set)->Err_0 < set.len(),
    decreases set.len(),
{
    if set.len() > 0 && redis_apply(cur, set.drop_last()) is Err {
        lemma_redis_err_index(cur, set.drop_last());
    }
}

/// The Redis password is the password of its app (see `apps::password`).
pub fn passwd(name: &str, password_value: &str, app_key: &str) -> (r: Result<PasswordRequest, AppError>)
    ensures
        password_value@.len() == 0 ==> r matches Err(AppError::EmptyPassword),
        password_value@.len() > 0 ==> {
            let enc = b64_encode(encode_utf8(password_value@));
            if app_key@ == "mysql"@ || app_key@ == "mariadb"@ {
                r matches Ok(PasswordRequest::Database(k, d, v)) && k@ == app_key@ && d@ == name@
                    && v@ == enc
            } else if app_key@ == "redis"@ {
                r matches Ok(PasswordRequest::Redis(d, v)) && d@ == name@ && v@ == enc
            } else {
                r matches Err(AppError::PasswordUnsupported(k)) && k@ == app_key@
            }
        },
{
    password(name, password_value, app_key)
}

} // verus!
