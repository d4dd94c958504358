use neurographrag::errors::AppError;

#[test]
fn every_error_maps_to_its_exit_code() {
    let cases: Vec<(AppError, i32)> = vec![
        (AppError::Validation("v".to_string()), 1),
        (AppError::Duplicate("d".to_string()), 2),
        (AppError::Conflict("c".to_string()), 3),
        (AppError::NotFound("n".to_string()), 4),
        (AppError::NamespaceError("ns".to_string()), 5),
        (AppError::LimitExceeded("l".to_string()), 6),
        (AppError::Database("db".to_string()), 10),
        (AppError::Embedding("e".to_string()), 11),
        (AppError::VecExtension("x".to_string()), 12),
        (AppError::DbBusy("b".to_string()), 15),
        (AppError::Io("io".to_string()), 14),
        (AppError::Internal("i".to_string()), 20),
        (AppError::Json("j".to_string()), 20),
        (AppError::BatchPartialFailure { total: 10, failed: 3 }, 13),
    ];
    for (e, code) in cases {
        assert_eq!(e.exit_code(), code);
        assert_ne!(e.exit_code(), 0);
    }
}

#[test]
fn messages_name_the_kind_then_the_detail() {
    assert_eq!(AppError::Validation("bad".to_string()).message(), "validation error: bad");
    assert_eq!(AppError::NotFound("gone".to_string()).message(), "not found: gone");
    assert_eq!(AppError::VecExtension("x".to_string()).message(), "sqlite-vec extension failed: x");
    assert_eq!(AppError::Io("disk".to_string()).message(), "IO error: disk");
    assert_eq!(AppError::Json("eof".to_string()).message(), "json error: eof");
    assert_eq!(
        AppError::BatchPartialFailure { total: 12, failed: 0 }.message(),
        "batch partial failure: 0 of 12 items failed"
    );
}
