//! Resolution of a key reference to its secret. A reference names a file in
//! the secrets directory (checked first) or else an environment variable.
//! Reading the file and the environment is left to the caller; this module
//! decides what the reads amount to.

use vstd::prelude::*;
use crate::text::{concat2, concat3, spec_trim, to_owned_string, trim};

verus! {

/// Why a key reference could not be resolved.
#[derive(Debug)]
pub enum ResolveError {
    /// Neither a secrets file nor an environment variable has this name.
    NotFound(String),
    /// The secrets file exists but could not be read.
    FileRead { key_ref: String, message: String },
}

/// `name` under `dir`, as a path joins them: an absolute `name` stands
/// alone, and a separator goes between the two unless `dir` is empty or
/// already ends with one.
pub open spec fn spec_join_path(dir: Seq<char>, name: Seq<char>) -> Seq<char> {
    if name.len() > 0 && name[0] == '/' {
        name
    } else if dir.len() == 0 {
        name
    } else if dir.last() == '/' {
        dir + name
    } else {
        dir + seq!['/'] + name
    }
}

/// Joins a file name to a directory path.
pub fn join_path(dir: &str, name: &str) -> (res: String)
    ensures
        res@ == spec_join_path(dir@, name@),
{
    let dn = dir.unicode_len();
    let nn = name.unicode_len();
    if nn > 0 && name.get_char(0) == '/' {
        to_owned_string(name)
    } else if dn == 0 {
        to_owned_string(name)
    } else if dir.get_char(dn - 1) == '/' {
        concat2(dir, name)
    } else {
        proof { reveal_strlit("/"); }
        concat3(dir, "/", name)
    }
}

/// The text of a resolve error.
pub open spec fn resolve_message(e: ResolveError) -> Seq<char> {
    match e {
        ResolveError::NotFound(r) => "Key ref '"@ + r@ + "' not found in secrets dir or environment"@,
        ResolveError::FileRead { key_ref, message } => "Failed to read secrets file for '"@ + key_ref@ + "': "@ + message@,
    }
}

impl ResolveError {
    /// The error as text.
    pub fn message(&self) -> (res: String)
        ensures
            res@ == resolve_message(*self),
    {
        match self {
            ResolveError::NotFound(r) => concat3("Key ref '", r.as_str(), "' not found in secrets dir or environment"),
            ResolveError::FileRead { key_ref, message } => {
                let head = concat3("Failed to read secrets file for '", key_ref.as_str(), "': ");
                concat2(head.as_str(), message.as_str())
            },
        }
    }

    /// The places looked at for `key_ref`: the secrets file, then the
    /// environment variable.
    pub fn checked_locations(&self, key_ref: &str, secrets_dir: &str) -> (res: Vec<String>)
        ensures
            res@.len() == 2,
            res@[0]@ == "file:"@ + spec_join_path(secrets_dir@, key_ref@),
            res@[1]@ == "env:"@ + key_ref@,
    {
        let path = join_path(secrets_dir, key_ref);
        let mut out: Vec<String> = Vec::new();
        out.push(concat2("file:", path.as_str()));
        out.push(concat2("env:", key_ref));
        out
    }
}

/// Resolves a key reference from what its secrets file and environment
/// variable hold. The file wins when it exists; otherwise the variable.
pub fn resolve_key(
    key_ref: &str,
    file: Option<Result<String, String>>,
    env: Option<String>,
) -> (res: Result<String, ResolveError>)
    ensures
        match file {
            Some(Ok(v)) => res matches Ok(k) && k@ == spec_trim(v@),
            Some(Err(m)) => res matches Err(ResolveError::FileRead { key_ref: r, message })
                && r@ == key_ref@ && message@ == m@,
            None => match env {
                Some(v) => res matches Ok(k) && k@ == v@,
                None => res matches Err(ResolveError::NotFound(r)) && r@ == key_ref@,
            },
        },
{
    match file {
        Some(Ok(v)) => Ok(trim(v.as_str())),
        Some(Err(m)) => Err(ResolveError::FileRead { key_ref: to_owned_string(key_ref), message: m }),
        None => match env {
            Some(v) => Ok(v),
            None => Err(ResolveError::NotFound(to_owned_string(key_ref))),
        },
    }
}

/// The outcome of a key check: found, or missing with the places looked
/// at.
pub fn check_key(key_ref: &str, secrets_dir: &str, resolved: &Result<String, ResolveError>) -> (res: (bool, Option<Vec<String>>))
    ensures
        res.0 == resolved is Ok,
        match resolved {
            Ok(_) => res.1 is None,
            Err(_) => res.1 matches Some(locs) && locs@.len() == 2
                && locs@[0]@ == "file:"@ + spec_join_path(secrets_dir@, key_ref@)
                && locs@[1]@ == "env:"@ + key_ref@,
        },
{
    match resolved {
        Ok(_) => (true, None),
        Err(e) => (false, Some(e.checked_locations(key_ref, secrets_dir))),
    }
}

/// The answer of a key check: "ok", or "missing" with the places looked at.
pub struct ResolveResponse {
    pub status: String,
    pub checked: Option<Vec<String>>,
}

/// The answer to a key check from its outcome.
pub fn resolve_response(found: bool, checked: Option<Vec<String>>) -> (res: ResolveResponse)
    ensures
        res.status@ == (if found { "ok"@ } else { "missing"@ }),
        res.checked == checked,
{
    let status = if found { to_owned_string("ok") } else { to_owned_string("missing") };
    ResolveResponse { status, checked }
}

} // verus!
