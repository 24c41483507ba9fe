//! The error values of the library and of the HTTP service: what went wrong
//! in storage, key resolution and the core, and what a client is answered.

use vstd::prelude::*;
use crate::executor::AttemptRecord;
use crate::text::{concat2, to_owned_string};

verus! {

/// Errors of the core logic.
#[derive(Debug)]
pub enum CoreError {
    NoCandidates,
    KeyResolution(String),
}

/// The text of a core error.
pub open spec fn core_message(e: CoreError) -> Seq<char> {
    match e {
        CoreError::NoCandidates => "No candidates available"@,
        CoreError::KeyResolution(m) => "Key resolution failed: "@ + m@,
    }
}

impl CoreError {
    /// The error as text.
    pub fn message(&self) -> (res: String)
        ensures
            res@ == core_message(*self),
    {
        match self {
            CoreError::NoCandidates => to_owned_string("No candidates available"),
            CoreError::KeyResolution(m) => concat2("Key resolution failed: ", m.as_str()),
        }
    }
}

/// Errors of a storage backend.
#[derive(Debug)]
pub enum StorageError {
    NotFound(String),
    Backend(String),
    Join,
}

/// The human-readable text of a storage error.
pub open spec fn storage_message(e: StorageError) -> Seq<char> {
    match e {
        StorageError::NotFound(m) => "Not found: "@ + m@,
        StorageError::Backend(m) => "Storage error: "@ + m@,
        StorageError::Join => "Task join error"@,
    }
}

impl StorageError {
    /// The error as text: "Not found: ...", "Storage error: ..." or
    /// "Task join error".
    pub fn message(&self) -> (res: String)
        ensures
            res@ == storage_message(*self),
    {
        match self {
            StorageError::NotFound(m) => concat2("Not found: ", m.as_str()),
            StorageError::Backend(m) => concat2("Storage error: ", m.as_str()),
            StorageError::Join => to_owned_string("Task join error"),
        }
    }
}

/// What a client is answered when a request fails: an HTTP status, a
/// message, a machine-readable code, and for an exhausted provider chain the
/// chain and the attempts made.
#[derive(Debug)]
pub struct AppError {
    pub status: u16,
    pub message: String,
    pub code: String,
    pub fallback_chain: Option<String>,
    pub attempts: Option<Vec<AttemptRecord>>,
}

/// Whether `e` has this status, message and code, and no chain or attempts.
pub open spec fn plain_error(e: AppError, status: u16, message: Seq<char>, code: Seq<char>) -> bool {
    &&& e.status == status
    &&& e.message@ == message
    &&& e.code@ == code
    &&& e.fallback_chain is None
    &&& e.attempts is None
}

impl AppError {
    /// 404 with code "not_found".
    pub fn not_found(msg: String) -> (res: AppError)
        ensures
            plain_error(res, 404, msg@, "not_found"@),
    {
        AppError { status: 404, message: msg, code: to_owned_string("not_found"), fallback_chain: None, attempts: None }
    }

    /// 401 for a missing or wrong admin token.
    pub fn unauthorized() -> (res: AppError)
        ensures
            plain_error(res, 401, "Invalid or missing admin token"@, "unauthorized"@),
    {
        AppError {
            status: 401,
            message: to_owned_string("Invalid or missing admin token"),
            code: to_owned_string("unauthorized"),
            fallback_chain: None,
            attempts: None,
        }
    }

    /// 503 with code "no_providers_available".
    pub fn service_unavailable(msg: String) -> (res: AppError)
        ensures
            plain_error(res, 503, msg@, "no_providers_available"@),
    {
        AppError {
            status: 503,
            message: msg,
            code: to_owned_string("no_providers_available"),
            fallback_chain: None,
            attempts: None,
        }
    }

    /// 503 with code "no_providers_available" that carries the whole chain
    /// of attempts and skips, so the caller sees which backends were tried.
    pub fn service_unavailable_with_attempts(
        msg: String,
        fallback_chain: String,
        attempts: Vec<AttemptRecord>,
    ) -> (res: AppError)
        ensures
            res.status == 503,
            res.message@ == msg@,
            res.code@ == "no_providers_available"@,
            res.fallback_chain == Some(fallback_chain),
            res.attempts == Some(attempts),
    {
        AppError {
            status: 503,
            message: msg,
            code: to_owned_string("no_providers_available"),
            fallback_chain: Some(fallback_chain),
            attempts: Some(attempts),
        }
    }

    /// 500 with code "internal_error".
    pub fn internal(msg: String) -> (res: AppError)
        ensures
            plain_error(res, 500, msg@, "internal_error"@),
    {
        AppError { status: 500, message: msg, code: to_owned_string("internal_error"), fallback_chain: None, attempts: None }
    }

    /// 503 with code "admin_disabled": the admin API has no token set up.
    pub fn admin_disabled() -> (res: AppError)
        ensures
            plain_error(res, 503, "Admin API disabled: ADMIN_TOKEN not configured"@, "admin_disabled"@),
    {
        AppError {
            status: 503,
            message: to_owned_string("Admin API disabled: ADMIN_TOKEN not configured"),
            code: to_owned_string("admin_disabled"),
            fallback_chain: None,
            attempts: None,
        }
    }

    /// A storage error as a client answer: a missing record is a 404 with
    /// its message, anything else a 500 with the error's text.
    pub fn from_storage(e: StorageError) -> (res: AppError)
        ensures
            match e {
                StorageError::NotFound(m) => plain_error(res, 404, m@, "not_found"@),
                _ => plain_error(res, 500, storage_message(e), "internal_error"@),
            },
    {
        match e {
            StorageError::NotFound(m) => AppError::not_found(m),
            other => {
                let text = other.message();
                AppError::internal(text)
            },
        }
    }
}

/// Answers an admin request by its bearer token: refused with 503 when no
/// token is configured, with 401 unless the `Authorization` header is
/// "Bearer " followed by exactly the configured token.
pub fn check_admin_token(configured: Option<&str>, authorization: Option<&str>) -> (res: Result<(), AppError>)
    ensures
        match configured {
            None => res matches Err(e) && plain_error(e, 503, "Admin API disabled: ADMIN_TOKEN not configured"@, "admin_disabled"@),
            Some(t) => {
                let ok = match authorization {
                    Some(h) => h@ == "Bearer "@ + t@,
                    None => false,
                };
                if ok {
                    res is Ok
                } else {
                    res matches Err(e) && plain_error(e, 401, "Invalid or missing admin token"@, "unauthorized"@)
                }
            },
        },
{
    match configured {
        None => Err(AppError::admin_disabled()),
        Some(token) => {
            let expected = concat2("Bearer ", token);
            let ok = match authorization {
                Some(h) => crate::text::str_eq(h, expected.as_str()),
                None => false,
            };
            if ok {
                Ok(())
            } else {
                Err(AppError::unauthorized())
            }
        },
    }
}

} // verus!
