//! Configuration, read from environment entries handed in as plain key/value
//! pairs. Every setting is optional: a missing entry, or one that does not
//! parse as the expected type, falls back to the default.

use crate::text::{all_digits, dec_val, parse_dec_u64};
use vstd::prelude::*;

verus! {

#[derive(Clone, Debug)]
pub struct AppConfig {
    pub host: String,
    pub port: u16,
    pub env: String,
    pub username: String,
    pub password: String,
    pub workflow_history_limit: usize,
    pub workflow_pending_limit: usize,
    pub cache_dir: String,
    pub root_dir: String,
    pub record_path: String,
    pub max_cache_bytes: u64,
}

/// The environment as key/value text.
pub open spec fn env_view(vars: Seq<(String, String)>) -> Seq<(Seq<char>, Seq<char>)> {
    vars.map_values(|p: (String, String)| (p.0@, p.1@))
}

/// The first entry for a key, if any.
pub open spec fn env_lookup(env: Seq<(Seq<char>, Seq<char>)>, key: Seq<char>) -> Option<Seq<char>>
    decreases env.len(),
{
    if env.len() == 0 {
        None
    } else if env[0].0 == key {
        Some(env[0].1)
    } else {
        env_lookup(env.skip(1), key)
    }
}

/// A value parses as a decimal number that fits in a `u64`.
pub open spec fn dec_parses(s: Seq<char>) -> bool {
    s.len() > 0 && all_digits(s) && dec_val(s) <= u64::MAX
}

/// The entry's text, or the default when the entry is missing.
pub open spec fn text_or(v: Option<Seq<char>>, default: Seq<char>) -> Seq<char> {
    match v {
        Some(s) => s,
        None => default,
    }
}

/// The entry's number, or the default when it is missing, does not parse, or
/// exceeds `bound`.
pub open spec fn dec_or(v: Option<Seq<char>>, bound: nat, default: nat) -> nat {
    match v {
        Some(s) => if dec_parses(s) && dec_val(s) <= bound {
            dec_val(s)
        } else {
            default
        },
        None => default,
    }
}

fn env_get(vars: &Vec<(String, String)>, key: &str) -> (r: Option<String>)
    ensures
        r is Some <==> env_lookup(env_view(vars@), key@) is Some,
        r matches Some(v) ==> Some(v@) == env_lookup(env_view(vars@), key@),
{
    let needle = key.to_owned();
    let n = vars.len();
    proof {
        assert(env_view(vars@).skip(0) =~= env_view(vars@));
    }
    let mut i: usize = 0;
    while i < n
        invariant
            0 <= i <= n,
            n == vars@.len(),
            needle@ == key@,
            env_lookup(env_view(vars@), key@) == env_lookup(
                env_view(vars@).skip(i as int),
                key@,
            ),
            forall|j: int| 0 <= j < i ==> (#[trigger] env_view(vars@)[j]).0 != key@,
        decreases n - i,
    {
        proof {
            assert(env_view(vars@).skip(i as int)[0] == env_view(vars@)[i as int]);
            assert(env_view(vars@).skip(i as int).skip(1) =~= env_view(vars@).skip(i + 1));
        }
        if vars[i].0 == needle {
            return Some(vars[i].1.clone());
        }
        i = i + 1;
    }
    proof {
        assert(env_view(vars@).skip(n as int) =~= Seq::<(Seq<char>, Seq<char>)>::empty());
    }
    None
}

fn text_from_env(vars: &Vec<(String, String)>, key: &str, default: &str) -> (r: String)
    ensures
        r@ == text_or(env_lookup(env_view(vars@), key@), default@),
{
    match env_get(vars, key) {
        Some(v) => v,
        None => default.to_owned(),
    }
}

fn u64_from_env(vars: &Vec<(String, String)>, key: &str, default: u64) -> (r: u64)
    ensures
        r == dec_or(env_lookup(env_view(vars@), key@), u64::MAX as nat, default as nat),
{
    match env_get(vars, key) {
        Some(v) => match parse_dec_u64(v.as_str()) {
            Some(n) => n,
            None => default,
        },
        None => default,
    }
}

fn u16_from_env(vars: &Vec<(String, String)>, key: &str, default: u16) -> (r: u16)
    ensures
        r == dec_or(env_lookup(env_view(vars@), key@), u16::MAX as nat, default as nat),
{
    match env_get(vars, key) {
        Some(v) => match parse_dec_u64(v.as_str()) {
            Some(n) => if n <= u16::MAX as u64 {
                n as u16
            } else {
                default
            },
            None => default,
        },
        None => default,
    }
}

fn usize_from_env(vars: &Vec<(String, String)>, key: &str, default: usize) -> (r: usize)
    ensures
        r == dec_or(env_lookup(env_view(vars@), key@), usize::MAX as nat, default as nat),
{
    match env_get(vars, key) {
        Some(v) => match parse_dec_u64(v.as_str()) {
            Some(n) => if n <= usize::MAX as u64 {
                n as usize
            } else {
                default
            },
            None => default,
        },
        None => default,
    }
}

impl AppConfig {
    /// Builds the configuration from environment entries. Every field is the
    /// environment's value where one is set and parses, the default
    /// otherwise.
    pub fn from_env(vars: &Vec<(String, String)>) -> (r: AppConfig)
        ensures
            ({
                let e = env_view(vars@);
                &&& r.host@ == text_or(env_lookup(e, "COMFY_ROUTER__HOST"@), "0.0.0.0"@)
                &&& r.port == dec_or(
                    env_lookup(e, "COMFY_ROUTER__PORT"@),
                    u16::MAX as nat,
                    8080,
                )
                &&& r.username@ == text_or(env_lookup(e, "COMFY_ROUTER__USERNAME"@), "admin"@)
                &&& r.password@ == text_or(env_lookup(e, "COMFY_ROUTER__PASSWORD"@), "admin"@)
                &&& r.workflow_history_limit == dec_or(
                    env_lookup(e, "COMFY_ROUTER__HISTORY_LIMIT"@),
                    usize::MAX as nat,
                    50,
                )
                &&& r.workflow_pending_limit == dec_or(
                    env_lookup(e, "COMFY_ROUTER__PENDING_LIMIT"@),
                    usize::MAX as nat,
                    25,
                )
                &&& r.env@ == text_or(env_lookup(e, "COMFY_ROUTER__ENV"@), "dev"@)
                &&& r.cache_dir@ == text_or(
                    env_lookup(e, "COMFY_ROUTER__DOWNLOAD__CACHE_DIR"@),
                    "/tmp/cache"@,
                )
                &&& r.root_dir@ == text_or(
                    env_lookup(e, "COMFY_ROUTER__DOWNLOAD__ROOT_DIR"@),
                    "/tmp/model"@,
                )
                &&& r.record_path@ == text_or(
                    env_lookup(e, "COMFY_ROUTER__DOWNLOAD__RECORD_PATH"@),
                    "/tmp/record.json"@,
                )
                &&& r.max_cache_bytes == dec_or(
                    env_lookup(e, "COMFY_ROUTER__DOWNLOAD__MAX_CACHE_BYTES"@),
                    u64::MAX as nat,
                    68719476736,
                )
            }),
    {
        AppConfig {
            host: text_from_env(vars, "COMFY_ROUTER__HOST", "0.0.0.0"),
            port: u16_from_env(vars, "COMFY_ROUTER__PORT", 8080),
            username: text_from_env(vars, "COMFY_ROUTER__USERNAME", "admin"),
            password: text_from_env(vars, "COMFY_ROUTER__PASSWORD", "admin"),
            workflow_history_limit: usize_from_env(vars, "COMFY_ROUTER__HISTORY_LIMIT", 50),
            workflow_pending_limit: usize_from_env(vars, "COMFY_ROUTER__PENDING_LIMIT", 25),
            env: text_from_env(vars, "COMFY_ROUTER__ENV", "dev"),
            cache_dir: text_from_env(vars, "COMFY_ROUTER__DOWNLOAD__CACHE_DIR", "/tmp/cache"),
            root_dir: text_from_env(vars, "COMFY_ROUTER__DOWNLOAD__ROOT_DIR", "/tmp/model"),
            record_path: text_from_env(
                vars,
                "COMFY_ROUTER__DOWNLOAD__RECORD_PATH",
                "/tmp/record.json",
            ),
            max_cache_bytes: u64_from_env(
                vars,
                "COMFY_ROUTER__DOWNLOAD__MAX_CACHE_BYTES",
                68719476736,
            ),
        }
    }
}

} // verus!
