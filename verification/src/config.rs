//! The service settings, taken from environment variables with defaults for
//! those unset or unreadable. Reading the environment is left to the caller,
//! which hands over each variable's value (absent when unset).

use vstd::prelude::*;
use crate::text::{spec_starts_with, starts_with, str_eq, to_owned_string};

verus! {

/// Whether `c` is an ASCII decimal digit.
pub open spec fn is_digit(c: char) -> bool {
    '0' <= c && c <= '9'
}

/// The number written by a string of decimal digits.
pub open spec fn digits_value(s: Seq<char>) -> nat
    decreases s.len(),
{
    if s.len() == 0 {
        0
    } else {
        digits_value(s.drop_last()) * 10 + ((s.last() as nat) - 48) as nat
    }
}

/// The digits of an unsigned number, after an optional leading '+'.
pub open spec fn unsigned_digits(s: Seq<char>) -> Seq<char> {
    if s.len() > 0 && s[0] == '+' {
        s.drop_first()
    } else {
        s
    }
}

/// An unsigned decimal number up to `max`, as integer parsing reads it: an
/// optional '+', then one or more ASCII digits and nothing else.
pub open spec fn spec_parse_uint(s: Seq<char>, max: nat) -> Option<nat> {
    let d = unsigned_digits(s);
    if d.len() > 0 && (forall|i: int| 0 <= i < d.len() ==> is_digit(#[trigger] d[i])) && digits_value(d) <= max {
        Some(digits_value(d))
    } else {
        None
    }
}

proof fn lemma_digits_prefix(d: Seq<char>, i: int)
    requires
        0 <= i <= d.len(),
        forall|j: int| 0 <= j < d.len() ==> is_digit(#[trigger] d[j]),
    ensures
        digits_value(d.take(i)) <= digits_value(d),
    decreases d.len(),
{
    if i < d.len() {
        let e = d.drop_last();
        assert forall|j: int| 0 <= j < e.len() implies is_digit(#[trigger] e[j]) by {
            assert(e[j] == d[j]);
        }
        lemma_digits_prefix(e, i);
        assert(e.take(i) =~= d.take(i));
    } else {
        assert(d.take(i) =~= d);
    }
}

/// Reads an unsigned decimal number no greater than `max`.
pub fn parse_uint(s: &str, max: u64) -> (res: Option<u64>)
    ensures
        match res {
            Some(v) => spec_parse_uint(s@, max as nat) == Some(v as nat),
            None => spec_parse_uint(s@, max as nat) is None,
        },
{
    let n = s.unicode_len();
    let start: usize = if n > 0 && s.get_char(0) == '+' { 1 } else { 0 };
    let ghost d = unsigned_digits(s@);
    proof {
        assert(d =~= s@.skip(start as int));
    }
    if start >= n {
        return None;
    }
    let mut acc: u64 = 0;
    let mut i: usize = start;
    while i < n
        invariant
            start <= i <= n,
            n == s@.len(),
            d == s@.skip(start as int),
            d == unsigned_digits(s@),
            forall|j: int| 0 <= j < i - start ==> is_digit(#[trigger] d[j]),
            acc as nat == digits_value(d.take(i - start)),
            acc <= max,
        decreases n - i,
    {
        let c = s.get_char(i);
        if !('0' <= c && c <= '9') {
            proof {
                assert(d[i - start] == c);
                assert(!is_digit(d[i - start]));
                assert(!(forall|j: int| 0 <= j < d.len() ==> is_digit(#[trigger] d[j])));
                assert(d == unsigned_digits(s@));
            }
            return None;
        }
        let digit: u64 = (c as u64) - 48;
        proof {
            assert(d[i - start] == c);
            assert(d.take(i - start + 1).drop_last() =~= d.take(i - start));
            assert(d.take(i - start + 1).last() == c);
            assert(digits_value(d.take(i - start + 1)) == acc * 10 + digit);
        }
        if digit > max || acc > (max - digit) / 10 {
            proof {
                if digit <= max {
                    assert(acc * 10 + digit > max) by (nonlinear_arith)
                        requires
                            acc > (max - digit) / 10,
                            digit <= max,
                    ;
                }
                if forall|j: int| 0 <= j < d.len() ==> is_digit(#[trigger] d[j]) {
                    lemma_digits_prefix(d, i - start + 1);
                    assert(digits_value(d) > max);
                }
                assert(d == unsigned_digits(s@));
            }
            return None;
        }
        proof {
            assert(acc * 10 + digit <= max) by (nonlinear_arith)
                requires
                    acc <= (max - digit) / 10,
                    digit <= max,
            ;
        }
        acc = acc * 10 + digit;
        i = i + 1;
    }
    proof {
        assert(d.take(n - start) =~= d);
    }
    Some(acc)
}

/// How log lines are written.
#[derive(Debug, Clone, Copy, PartialEq, Eq, Structural)]
pub enum LogFormat {
    Json,
    Pretty,
}

/// The raw values of the environment variables that configure the
/// service, each absent when unset or unreadable.
pub struct EnvVars {
    pub port: Option<String>,
    pub database_url: Option<String>,
    pub database_path: Option<String>,
    pub profiles_path: Option<String>,
    pub secrets_dir: Option<String>,
    pub admin_token: Option<String>,
    pub log_level: Option<String>,
    pub log_format: Option<String>,
    pub cache_ttl_secs: Option<String>,
    pub doc_cache_ttl_secs: Option<String>,
    pub max_fallbacks: Option<String>,
}

/// The service settings.
#[derive(Debug)]
pub struct Config {
    pub port: u16,
    /// PostgreSQL URL; when set, it takes precedence over `database_path`.
    pub database_url: Option<String>,
    pub database_path: String,
    pub profiles_path: String,
    pub secrets_dir: String,
    pub admin_token: Option<String>,
    pub log_level: String,
    pub log_format: LogFormat,
    pub cache_ttl_secs: u64,
    /// Time to live of the URL-keyed page content cache, longer than that
    /// of search results: page content changes far less often than rankings.
    pub doc_cache_ttl_secs: u64,
    pub max_fallbacks: usize,
}

/// A variable read as a number up to `max`, or `default` when it is unset
/// or not such a number.
pub open spec fn number_or(v: Option<String>, max: nat, default: nat) -> nat {
    match v {
        Some(s) => match spec_parse_uint(s@, max) {
            Some(n) => n,
            None => default,
        },
        None => default,
    }
}

/// A variable's value, or `default` when it is unset.
pub open spec fn text_or(v: Option<String>, default: Seq<char>) -> Seq<char> {
    match v {
        Some(s) => s@,
        None => default,
    }
}

fn number_var(v: &Option<String>, max: u64, default: u64) -> (res: u64)
    requires
        default <= max,
    ensures
        res as nat == number_or(*v, max as nat, default as nat),
        res <= max,
{
    match v {
        Some(s) => match parse_uint(s.as_str(), max) {
            Some(n) => n,
            None => default,
        },
        None => default,
    }
}

fn text_var(v: Option<String>, default: &str) -> (res: String)
    ensures
        res@ == text_or(v, default@),
{
    match v {
        Some(s) => s,
        None => to_owned_string(default),
    }
}

impl Config {
    /// The settings from the environment: PORT (8090), DATABASE_URL (kept
    /// only when it starts with "postgres"), DATABASE_PATH ("./proviz.db"),
    /// PROFILES_PATH ("./profiles.toml"), SECRETS_DIR ("/run/secrets"),
    /// ADMIN_TOKEN (kept only when not empty), LOG_LEVEL ("INFO"),
    /// LOG_FORMAT ("pretty", anything else JSON), CACHE_TTL_SECS (3600),
    /// DOC_CACHE_TTL_SECS (6 hours) and MAX_FALLBACKS (3). A number that does
    /// not parse falls back to its default.
    pub fn from_vars(vars: EnvVars) -> (res: Config)
        ensures
            res.port as nat == number_or(vars.port, u16::MAX as nat, 8090),
            match vars.database_url {
                Some(u) => if spec_starts_with(u@, "postgres"@) { res.database_url == Some(u) } else { res.database_url is None },
                None => res.database_url is None,
            },
            res.database_path@ == text_or(vars.database_path, "./proviz.db"@),
            res.profiles_path@ == text_or(vars.profiles_path, "./profiles.toml"@),
            res.secrets_dir@ == text_or(vars.secrets_dir, "/run/secrets"@),
            match vars.admin_token {
                Some(t) => if t@.len() > 0 { res.admin_token == Some(t) } else { res.admin_token is None },
                None => res.admin_token is None,
            },
            res.log_level@ == text_or(vars.log_level, "INFO"@),
            res.log_format == (match vars.log_format {
                Some(f) => if f@ == "pretty"@ { LogFormat::Pretty } else { LogFormat::Json },
                None => LogFormat::Json,
            }),
            res.cache_ttl_secs as nat == number_or(vars.cache_ttl_secs, u64::MAX as nat, 3600),
            res.doc_cache_ttl_secs as nat == number_or(vars.doc_cache_ttl_secs, u64::MAX as nat, 21600),
            res.max_fallbacks as nat == number_or(vars.max_fallbacks, usize::MAX as nat, 3),
    {
        let port = number_var(&vars.port, 65535, 8090) as u16;
        let cache_ttl_secs = number_var(&vars.cache_ttl_secs, u64::MAX, 3600);
        let doc_cache_ttl_secs = number_var(&vars.doc_cache_ttl_secs, u64::MAX, 6 * 3600);
        let max_fallbacks = number_var(&vars.max_fallbacks, usize::MAX as u64, 3) as usize;
        let log_format = match &vars.log_format {
            Some(f) => if str_eq(f.as_str(), "pretty") {
                LogFormat::Pretty
            } else {
                LogFormat::Json
            },
            None => LogFormat::Json,
        };
        let database_url = match vars.database_url {
            Some(u) => if starts_with(u.as_str(), "postgres") {
                Some(u)
            } else {
                None
            },
            None => None,
        };
        let admin_token = match vars.admin_token {
            Some(t) => if t.unicode_len() > 0 {
                Some(t)
            } else {
                None
            },
            None => None,
        };
        Config {
            port,
            database_url,
            database_path: text_var(vars.database_path, "./proviz.db"),
            profiles_path: text_var(vars.profiles_path, "./profiles.toml"),
            secrets_dir: text_var(vars.secrets_dir, "/run/secrets"),
            admin_token,
            log_level: text_var(vars.log_level, "INFO"),
            log_format,
            cache_ttl_secs,
            doc_cache_ttl_secs,
            max_fallbacks,
        }
    }
}

} // verus!
