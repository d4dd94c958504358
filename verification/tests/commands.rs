use neurographrag::commands::edit::{
    check_body_length, check_description_length, check_expected_updated_at, check_rows_updated,
    edited_fields,
};
use neurographrag::commands::forget::check_forgotten;
use neurographrag::commands::health::{health_status, missing_entity_labels};
use neurographrag::commands::list::snippet_of;
use neurographrag::commands::purge::{
    age_limit_seconds, check_candidates, cleanup_warning, cutoff_epoch, older_than_seconds_warning,
    validate_older_than,
};
use neurographrag::constants::PURGE_RETENTION_DAYS_DEFAULT;
use neurographrag::commands::read::current_version;
use neurographrag::commands::rename::{is_name_slug_text, validate_new_name};
use neurographrag::commands::restore::version_not_found;
use neurographrag::commands::{memory_not_found, or_unknown, require_database};
use neurographrag::errors::AppError;

fn detail(e: AppError) -> (i32, String) {
    let code = e.exit_code();
    let m = match e {
        AppError::Validation(m)
        | AppError::Duplicate(m)
        | AppError::Conflict(m)
        | AppError::NotFound(m)
        | AppError::NamespaceError(m)
        | AppError::LimitExceeded(m)
        | AppError::Database(m)
        | AppError::Embedding(m)
        | AppError::VecExtension(m)
        | AppError::DbBusy(m)
        | AppError::Io(m)
        | AppError::Internal(m)
        | AppError::Json(m) => m,
        AppError::BatchPartialFailure { total, failed } => format!("{failed} of {total}"),
    };
    (code, m)
}

#[test]
fn missing_memory_is_not_found() {
    assert_eq!(
        detail(memory_not_found("notes", "global")),
        (4, "memory 'notes' not found in namespace 'global'".to_string())
    );
    assert!(check_forgotten(true, "notes", "global").is_ok());
    assert_eq!(
        detail(check_forgotten(false, "notes", "work").unwrap_err()),
        (4, "memory 'notes' not found in namespace 'work'".to_string())
    );
}

#[test]
fn missing_database_is_not_found() {
    assert!(require_database("/tmp/x.db", true).is_ok());
    assert_eq!(
        detail(require_database("/tmp/x.db", false).unwrap_err()),
        (4, "database not found at /tmp/x.db. Run 'neurographrag init' first.".to_string())
    );
}

#[test]
fn unknown_schema_version_reads_unknown() {
    assert_eq!(or_unknown(Some("7".to_string())), "7");
    assert_eq!(or_unknown(None), "unknown");
}

#[test]
fn stale_expected_updated_at_is_a_conflict() {
    assert!(check_expected_updated_at(None, 5).is_ok());
    assert!(check_expected_updated_at(Some(5), 5).is_ok());
    assert_eq!(
        detail(check_expected_updated_at(Some(-12), 1700000000).unwrap_err()),
        (3, "optimistic lock conflict: expected updated_at=-12, but current is 1700000000".to_string())
    );
    assert_eq!(
        detail(check_expected_updated_at(Some(i64::MIN), 0).unwrap_err()).1,
        "optimistic lock conflict: expected updated_at=-9223372036854775808, but current is 0"
    );
}

#[test]
fn body_and_description_limits() {
    assert!(check_body_length(&"a".repeat(20_000)).is_ok());
    assert_eq!(
        detail(check_body_length(&"a".repeat(20_001)).unwrap_err()),
        (6, "body exceeds 20000 chars".to_string())
    );
    assert!(check_description_length(None).is_ok());
    assert!(check_description_length(Some(&"d".repeat(500))).is_ok());
    assert_eq!(
        detail(check_description_length(Some(&"d".repeat(501))).unwrap_err()),
        (1, "description exceeds 500 chars".to_string())
    );
}

#[test]
fn edit_keeps_what_is_not_given_and_hashes_the_body() {
    let f = edited_fields("old body".to_string(), "old desc".to_string(), None, Some("new desc".to_string()));
    assert_eq!(f.body, "old body");
    assert_eq!(f.description, "new desc");
    assert_eq!(f.body_hash.len(), 64);
    let g = edited_fields("old body".to_string(), "old desc".to_string(), Some(String::new()), None);
    assert_eq!(g.body, "");
    assert_eq!(g.description, "old desc");
    assert_eq!(g.body_hash, "af1349b9f5f9a1a6a0404dea36dcc9499bcb25c9adc112b7cc9a93cae41f3262");
    assert_ne!(f.body_hash, g.body_hash);
}

#[test]
fn untouched_update_is_a_conflict() {
    assert!(check_rows_updated(1).is_ok());
    assert_eq!(
        detail(check_rows_updated(0).unwrap_err()),
        (3, "optimistic lock conflict: memory was modified by another process".to_string())
    );
}

#[test]
fn health_status_and_labels() {
    assert_eq!(health_status("ok"), "ok");
    assert_eq!(health_status("*** in database main ***"), "degraded");
    assert_eq!(health_status("OK"), "degraded");
    assert_eq!(missing_entity_labels(&[3, -1, 0]), vec!["entity_id=3", "entity_id=-1", "entity_id=0"]);
}

#[test]
fn snippet_keeps_the_first_characters() {
    assert_eq!(snippet_of("short"), "short");
    let long = "é".repeat(250);
    assert_eq!(snippet_of(&long), "é".repeat(200));
}

#[test]
fn purge_checks() {
    assert!(validate_older_than(0).is_ok());
    assert_eq!(
        detail(validate_older_than(-1).unwrap_err()),
        (1, "older-than-seconds must be >= 0".to_string())
    );
    assert_eq!(cutoff_epoch(1_700_000_000, 3600), 1_699_996_400);
    assert!(check_candidates(None, "global", 0).is_ok());
    assert!(check_candidates(Some("a"), "global", 2).is_ok());
    assert_eq!(
        detail(check_candidates(Some("a"), "global", 0).unwrap_err()),
        (4, "soft-deleted memory 'a' not found in namespace 'global'".to_string())
    );
    assert_eq!(
        cleanup_warning("vec_chunks", 42, "no such table"),
        "vec_chunks cleanup failed for memory_id 42: no such table"
    );
}

#[test]
fn purge_age_limit_comes_from_days_unless_seconds_are_given() {
    assert_eq!(age_limit_seconds(PURGE_RETENTION_DAYS_DEFAULT, None), 90 * 86_400);
    assert_eq!(age_limit_seconds(0, None), 0);
    assert_eq!(age_limit_seconds(u32::MAX, None), u32::MAX as i64 * 86_400);
    assert_eq!(age_limit_seconds(30, Some(3600)), 3600);
    assert_eq!(
        older_than_seconds_warning(),
        "--older-than-seconds is deprecated; use --retention-days"
    );
}

#[test]
fn read_version_defaults_to_one() {
    assert_eq!(current_version(Some(4)), 4);
    assert_eq!(current_version(None), 1);
}

#[test]
fn name_slugs() {
    for ok in ["a", "0", "abc", "a-b", "a--b", "my-note-2", "x9"] {
        assert!(is_name_slug_text(ok), "{ok}");
    }
    for bad in ["", "-a", "a-", "2fa", "2024-notes", "A", "a_b", "a b", "ção", "a\n", "__x", "-"] {
        assert!(!is_name_slug_text(bad), "{bad:?}");
    }
    assert!(is_name_slug_text(&"a".repeat(80)));
    assert!(!is_name_slug_text(&"a".repeat(81)));
}

#[test]
fn new_name_validation() {
    assert!(validate_new_name("good-name").is_ok());
    assert_eq!(
        detail(validate_new_name("2fa").unwrap_err()),
        (1, "new-name must be kebab-case slug (lowercase letters, digits, hyphens): '2fa'".to_string())
    );
    assert_eq!(detail(validate_new_name("").unwrap_err()), (1, "new-name must be 1-80 chars".to_string()));
    assert_eq!(
        detail(validate_new_name(&"a".repeat(81)).unwrap_err()),
        (1, "new-name must be 1-80 chars".to_string())
    );
    assert!(validate_new_name(&"a".repeat(80)).is_ok());
    assert_eq!(
        detail(validate_new_name("Bad Name").unwrap_err()),
        (1, "new-name must be kebab-case slug (lowercase letters, digits, hyphens): 'Bad Name'".to_string())
    );
}

#[test]
fn missing_version_is_not_found() {
    assert_eq!(
        detail(version_not_found(3, "notes")),
        (4, "version 3 not found for memory 'notes'".to_string())
    );
}
