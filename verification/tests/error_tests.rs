use md_explorer::errors::{error_page, present, status_for, HttpStatus, ResolutionFailure};

#[test]
fn status_mapping_is_fixed() {
    assert_eq!(status_for(&ResolutionFailure::NotFound).code(), 404);
    assert_eq!(status_for(&ResolutionFailure::Forbidden).code(), 403);
    assert_eq!(status_for(&ResolutionFailure::IoFailure("disk".to_string())).code(), 500);
    assert_eq!(HttpStatus::Success.code(), 200);
}

#[test]
fn not_found_page() {
    let (status, body) = present(&ResolutionFailure::NotFound);
    assert_eq!(status.code(), 404);
    assert!(body.contains("<title>404 Not Found</title>"));
    assert!(body.contains("404 Not Found</h1>"));
}

#[test]
fn forbidden_page() {
    let (status, body) = present(&ResolutionFailure::Forbidden);
    assert_eq!(status.code(), 403);
    assert!(body.contains("<title>403 Forbidden</title>"));
}

#[test]
fn io_failure_page_hides_the_cause() {
    let (status, body) = present(&ResolutionFailure::IoFailure("secret-disk-path".to_string()));
    assert_eq!(status.code(), 500);
    assert!(body.contains("<title>500 Internal Server Error</title>"));
    assert!(!body.contains("secret-disk-path"));
}

#[test]
fn error_page_escapes_the_heading() {
    let body = error_page(HttpStatus::NotFound, "a<b");
    assert!(body.contains("<title>404 a<b</title>"));
    assert!(body.contains("404 a&lt;b</h1>"));
}
