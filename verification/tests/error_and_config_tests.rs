use airline_api::config::Config;
use airline_api::error::{map_db_error, AppError, DbFailure};
use airline_api::user::{
    ensure_email_available, ensure_passport_available, PaginationParams as UserPagination,
    user_page_window, user_total_pages,
};
use airline_api::routes_api::{
    make_pagination, page_defaults, route_offset, total_pages,
    PaginationParams as RoutePagination,
};

#[test]
fn duplicate_key_codes_become_conflicts() {
    for code in ["23000", "1062"] {
        let e = map_db_error(DbFailure::Database {
            code: Some(code.to_string()),
            message: "dup".to_string(),
        });
        match e {
            AppError::ConflictError(m) => assert_eq!(m, "Duplicate entry violation"),
            other => panic!("expected conflict, got {:?}", other),
        }
    }
}

#[test]
fn foreign_key_codes_become_validation_failures() {
    for code in ["23503", "1452"] {
        let e = map_db_error(DbFailure::Database {
            code: Some(code.to_string()),
            message: "fk".to_string(),
        });
        match e {
            AppError::ValidationError(m) => assert_eq!(m, "Foreign key constraint violation"),
            other => panic!("expected validation failure, got {:?}", other),
        }
    }
}

#[test]
fn missing_rows_and_other_failures() {
    match map_db_error(DbFailure::RowNotFound) {
        AppError::NotFoundError(m) => assert_eq!(m, "Resource not found"),
        other => panic!("expected not-found, got {:?}", other),
    }
    match map_db_error(DbFailure::Other("boom".to_string())) {
        AppError::DatabaseError(m) => assert_eq!(m, "boom"),
        other => panic!("expected database error, got {:?}", other),
    }
    match map_db_error(DbFailure::Database { code: None, message: "odd".to_string() }) {
        AppError::DatabaseError(m) => assert_eq!(m, "odd"),
        other => panic!("expected database error, got {:?}", other),
    }
}

#[test]
fn status_codes_follow_the_taxonomy() {
    assert_eq!(AppError::AuthError("x".to_string()).status_code(), 401);
    assert_eq!(AppError::AuthzError("x".to_string()).status_code(), 403);
    assert_eq!(AppError::ValidationError("x".to_string()).status_code(), 400);
    assert_eq!(AppError::NotFoundError("x".to_string()).status_code(), 404);
    assert_eq!(AppError::ConflictError("x".to_string()).status_code(), 409);
    assert_eq!(AppError::DatabaseError("x".to_string()).status_code(), 500);
    assert_eq!(AppError::InternalError("x".to_string()).status_code(), 500);
}

#[test]
fn uniqueness_decisions() {
    assert!(ensure_email_available(false).is_ok());
    match ensure_email_available(true) {
        Err(AppError::ConflictError(m)) => assert_eq!(m, "Email already in use"),
        other => panic!("expected conflict, got {:?}", other),
    }
    match ensure_passport_available(true) {
        Err(AppError::ConflictError(m)) => assert_eq!(m, "Passport number already in use"),
        other => panic!("expected conflict, got {:?}", other),
    }
}

#[test]
fn config_defaults_and_rejections() {
    let c = Config::resolve("mysql://db".to_string(), None, "s3cr3t".to_string(), None).unwrap();
    assert_eq!(c.server_port, 3000);
    assert_eq!(c.jwt_expiration, 86400);
    assert_eq!(c.database_url, "mysql://db");
    assert_eq!(c.jwt_secret, "s3cr3t");

    let c = Config::resolve(
        "u".to_string(),
        Some("8080".to_string()),
        "k".to_string(),
        Some("7200".to_string()),
    )
    .unwrap();
    assert_eq!(c.server_port, 8080);
    assert_eq!(c.jwt_expiration, 7200);

    assert!(Config::resolve("u".to_string(), Some("banana".to_string()), "k".to_string(), None)
        .is_none());
    assert!(Config::resolve("u".to_string(), Some("70000".to_string()), "k".to_string(), None)
        .is_none());
    assert!(Config::resolve("u".to_string(), None, "k".to_string(), Some("x".to_string()))
        .is_none());
}

#[test]
fn route_pagination_defaults_and_arithmetic() {
    let params = RoutePagination { page: None, limit: None };
    assert_eq!(page_defaults(&params), (1, 10));
    let params = RoutePagination { page: Some(3), limit: Some(25) };
    assert_eq!(page_defaults(&params), (3, 25));
    assert_eq!(route_offset(3, 25), 50);
    assert_eq!(total_pages(0, 10), 0);
    assert_eq!(total_pages(1, 10), 1);
    assert_eq!(total_pages(10, 10), 1);
    assert_eq!(total_pages(11, 10), 2);
    let p = make_pagination(2, 10, 35);
    assert_eq!(p.total_pages, 4);
    assert_eq!(p.total_items, 35);
}

#[test]
fn user_pagination_validates_bounds() {
    let params = UserPagination { page: None, limit: None };
    assert_eq!(user_page_window(&params).unwrap(), (1, 10, 0));
    let params = UserPagination { page: Some(4), limit: Some(20) };
    assert_eq!(user_page_window(&params).unwrap(), (4, 20, 60));
    let params = UserPagination { page: Some(0), limit: Some(10) };
    match user_page_window(&params) {
        Err(AppError::ValidationError(m)) => assert_eq!(m, "Page and limit must be positive"),
        other => panic!("expected validation failure, got {:?}", other),
    }
    assert_eq!(user_total_pages(35, 10), 4);
}
