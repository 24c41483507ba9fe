use proviz::config::{parse_uint, Config, EnvVars, LogFormat};
use proviz::errors::{check_admin_token, AppError, CoreError, StorageError};
use proviz::keys::{check_key, join_path, resolve_key, resolve_response, ResolveError};

fn no_vars() -> EnvVars {
    EnvVars {
        port: None,
        database_url: None,
        database_path: None,
        profiles_path: None,
        secrets_dir: None,
        admin_token: None,
        log_level: None,
        log_format: None,
        cache_ttl_secs: None,
        doc_cache_ttl_secs: None,
        max_fallbacks: None,
    }
}

#[test]
fn test_resolve_key_from_env() {
    // no secrets file: the environment variable's value is taken as it is
    let result = resolve_key("PROVIZ_TEST_KEY_XYZ", None, Some("test-secret-value".to_string())).unwrap();
    assert_eq!(result, "test-secret-value");
}

#[test]
fn test_resolve_key_not_found() {
    let result = resolve_key("PROVIZ_NONEXISTENT_KEY_12345", None, None);
    assert!(result.is_err());
}

#[test]
fn test_resolve_key_from_file() {
    let result = resolve_key("MY_KEY", Some(Ok("  file-secret-value  \n".to_string())), None).unwrap();
    assert_eq!(result, "file-secret-value");
}

#[test]
fn file_wins_over_environment() {
    let r = resolve_key("K", Some(Ok("\tfrom-file\r\n".into())), Some("from-env".into())).unwrap();
    assert_eq!(r, "from-file");
    let r = resolve_key("K", None, Some("  spaced  ".into())).unwrap();
    assert_eq!(r, "  spaced  ");
}

#[test]
fn unreadable_file_is_an_error() {
    match resolve_key("K", Some(Err("permission denied".into())), Some("env".into())) {
        Err(ResolveError::FileRead { key_ref, message }) => {
            assert_eq!(key_ref, "K");
            assert_eq!(message, "permission denied");
        }
        other => panic!("unexpected {other:?}"),
    }
    let e = resolve_key("K", Some(Err("denied".into())), None).unwrap_err();
    assert_eq!(e.message(), "Failed to read secrets file for 'K': denied");
    let e = resolve_key("K", None, None).unwrap_err();
    assert_eq!(e.message(), "Key ref 'K' not found in secrets dir or environment");
}

#[test]
fn checked_locations_name_file_then_env() {
    let e = ResolveError::NotFound("BRAVE_KEY_1".into());
    assert_eq!(
        e.checked_locations("BRAVE_KEY_1", "/run/secrets"),
        vec!["file:/run/secrets/BRAVE_KEY_1".to_string(), "env:BRAVE_KEY_1".to_string()]
    );
    assert_eq!(join_path("/run/secrets/", "K"), "/run/secrets/K");
    assert_eq!(join_path("dir", "/abs/K"), "/abs/K");
    assert_eq!(join_path("", "K"), "K");
}

#[test]
fn check_key_reports_missing_locations() {
    let missing = resolve_key("K", None, None);
    let (ok, checked) = check_key("K", "/s", &missing);
    assert!(!ok);
    assert_eq!(checked.unwrap(), vec!["file:/s/K".to_string(), "env:K".to_string()]);
    let found = resolve_key("K", None, Some("v".into()));
    let (ok, checked) = check_key("K", "/s", &found);
    assert!(ok);
    assert!(checked.is_none());
    assert_eq!(resolve_response(true, None).status, "ok");
    assert_eq!(resolve_response(false, Some(vec![])).status, "missing");
}

#[test]
fn config_defaults() {
    let c = Config::from_vars(no_vars());
    assert_eq!(c.port, 8090);
    assert!(c.database_url.is_none());
    assert_eq!(c.database_path, "./proviz.db");
    assert_eq!(c.profiles_path, "./profiles.toml");
    assert_eq!(c.secrets_dir, "/run/secrets");
    assert!(c.admin_token.is_none());
    assert_eq!(c.log_level, "INFO");
    assert_eq!(c.log_format, LogFormat::Json);
    assert_eq!(c.cache_ttl_secs, 3600);
    assert_eq!(c.doc_cache_ttl_secs, 6 * 3600);
    assert_eq!(c.max_fallbacks, 3);
}

#[test]
fn config_reads_variables() {
    let mut v = no_vars();
    v.port = Some("9000".into());
    v.database_url = Some("postgres://db".into());
    v.admin_token = Some("".into());
    v.log_format = Some("pretty".into());
    v.cache_ttl_secs = Some("0".into());
    v.max_fallbacks = Some("+7".into());
    v.doc_cache_ttl_secs = Some("12x".into());
    let c = Config::from_vars(v);
    assert_eq!(c.port, 9000);
    assert_eq!(c.database_url.as_deref(), Some("postgres://db"));
    assert!(c.admin_token.is_none());
    assert_eq!(c.log_format, LogFormat::Pretty);
    assert_eq!(c.cache_ttl_secs, 0);
    assert_eq!(c.max_fallbacks, 7);
    assert_eq!(c.doc_cache_ttl_secs, 21600);

    let mut v = no_vars();
    v.port = Some("70000".into());
    v.database_url = Some("sqlite://x".into());
    v.log_format = Some("PRETTY".into());
    let c = Config::from_vars(v);
    assert_eq!(c.port, 8090);
    assert!(c.database_url.is_none());
    assert_eq!(c.log_format, LogFormat::Json);
}

#[test]
fn parse_uint_follows_integer_parsing() {
    assert_eq!(parse_uint("0", 10), Some(0));
    assert_eq!(parse_uint("+10", 10), Some(10));
    assert_eq!(parse_uint("11", 10), None);
    assert_eq!(parse_uint("", 10), None);
    assert_eq!(parse_uint("+", 10), None);
    assert_eq!(parse_uint("-1", 10), None);
    assert_eq!(parse_uint(" 1", 10), None);
    assert_eq!(parse_uint("18446744073709551615", u64::MAX), Some(u64::MAX));
    assert_eq!(parse_uint("18446744073709551616", u64::MAX), None);
    assert_eq!(parse_uint("007", 10), Some(7));
}

#[test]
fn admin_token_gate() {
    let e = check_admin_token(None, Some("Bearer x")).unwrap_err();
    assert_eq!((e.status, e.code.as_str()), (503, "admin_disabled"));
    let e = check_admin_token(Some("secret"), None).unwrap_err();
    assert_eq!((e.status, e.code.as_str()), (401, "unauthorized"));
    let e = check_admin_token(Some("secret"), Some("Bearer wrong")).unwrap_err();
    assert_eq!(e.status, 401);
    assert!(check_admin_token(Some("secret"), Some("secret")).is_err());
    assert!(check_admin_token(Some("secret"), Some("Bearer secret")).is_ok());
}

#[test]
fn error_answers() {
    let e = AppError::from_storage(StorageError::NotFound("provider x".into()));
    assert_eq!((e.status, e.message.as_str(), e.code.as_str()), (404, "provider x", "not_found"));
    let e = AppError::from_storage(StorageError::Backend("disk full".into()));
    assert_eq!((e.status, e.message.as_str(), e.code.as_str()), (500, "Storage error: disk full", "internal_error"));
    let e = AppError::from_storage(StorageError::Join);
    assert_eq!(e.message, "Task join error");
    let e = AppError::service_unavailable_with_attempts("All provider candidates exhausted".into(), "a:rpm".into(), vec![]);
    assert_eq!(e.status, 503);
    assert_eq!(e.fallback_chain.as_deref(), Some("a:rpm"));
    assert_eq!(AppError::unauthorized().message, "Invalid or missing admin token");
    assert_eq!(CoreError::KeyResolution("x".into()).message(), "Key resolution failed: x");
    assert_eq!(CoreError::NoCandidates.message(), "No candidates available");
}
