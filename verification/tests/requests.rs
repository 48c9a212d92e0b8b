use sadhana_frontend::requests::{
    cache_headers, error_body, error_contains, error_ends_with, is_success, join_yatra_notice, leave_yatra_notice,
    login_notice, new_practice_notice, password_reset_notice, registration_notice, request_error, sends_body,
    status_error, text_contains, text_ends_with, AppError, ErrorBody, ErrorNotice, HttpMethod, RequestOptions,
};

#[test]
fn statuses() {
    assert!(is_success(200));
    assert!(is_success(204));
    assert!(!is_success(302));
    assert_eq!(error_body(401), ErrorBody::Message);
    assert_eq!(error_body(403), ErrorBody::Message);
    assert_eq!(error_body(422), ErrorBody::Errors);
    assert_eq!(error_body(404), ErrorBody::Nothing);
}

#[test]
fn errors_of_statuses() {
    assert_eq!(status_error(401, Some("no".into()), None), AppError::Unauthorized("no".into()));
    assert_eq!(status_error(401, None, None), AppError::Unauthorized(String::new()));
    assert_eq!(status_error(403, Some("x".into()), None), AppError::Forbidden("x".into()));
    assert_eq!(status_error(404, None, None), AppError::NotFound);
    assert_eq!(status_error(500, None, None), AppError::InternalServerError);
    assert_eq!(
        status_error(422, None, Some(vec!["bad".into()])),
        AppError::UnprocessableEntity(vec!["bad".into()])
    );
    assert_eq!(status_error(422, None, None), AppError::DeserializeError);
    assert_eq!(status_error(418, None, None), AppError::RequestError);
}

#[test]
fn outcome_of_a_request() {
    assert_eq!(request_error(false, 0, false, None, None), Some(AppError::RequestError));
    assert_eq!(request_error(true, 200, true, None, None), None);
    assert_eq!(request_error(true, 201, false, None, None), Some(AppError::DeserializeError));
    assert_eq!(request_error(true, 404, false, None, None), Some(AppError::NotFound));
    assert!(sends_body(HttpMethod::Post));
    assert!(sends_body(HttpMethod::Put));
    assert!(!sends_body(HttpMethod::Get));
    assert!(!sends_body(HttpMethod::Delete));
}

#[test]
fn headers_of_cached_reads() {
    let none = cache_headers(&RequestOptions::new(false));
    assert!(none.is_empty());
    let only = cache_headers(&RequestOptions::new(true));
    assert_eq!(only.len(), 1);
    assert_eq!(only[0].name, "X-Cache-Only");
    assert_eq!(only[0].value, "1");
    let keyed = cache_headers(&RequestOptions { use_cache: true, cache_key: Some("k1".into()) });
    assert_eq!(keyed.len(), 2);
    assert_eq!(keyed[1].name, "X-Cache-Key");
    assert_eq!(keyed[1].value, "k1");
}

#[test]
fn searching_text() {
    assert!(text_contains("Practice already exists.", "already exists."));
    assert!(text_contains("abc", ""));
    assert!(!text_contains("ab", "abc"));
    assert!(!text_contains("already exist", "already exists."));
    assert!(text_ends_with("x already exists.", "already exists."));
    assert!(!text_ends_with("already exists. x", "already exists."));
}

#[test]
fn validation_errors_by_message() {
    let e = AppError::UnprocessableEntity(vec!["first".into(), "Name already exists. Pick another".into()]);
    assert!(error_contains(&e, "already exists."));
    assert!(!error_ends_with(&e, "already exists."));
    assert!(!error_contains(&AppError::NotFound, "already exists."));
}

#[test]
fn notices() {
    let exists = AppError::UnprocessableEntity(vec!["Practice Japa already exists.".into()]);
    assert_eq!(new_practice_notice(&exists), Some(ErrorNotice::PracticeAlreadyExists));
    assert_eq!(join_yatra_notice(&exists), Some(ErrorNotice::YatraAlreadyJoined));
    assert_eq!(registration_notice(&exists), Some(ErrorNotice::UserAlreadyExists));
    assert_eq!(leave_yatra_notice(&exists), None);
    let last = AppError::UnprocessableEntity(vec!["Error: Can't delete last yatra admin".into()]);
    assert_eq!(leave_yatra_notice(&last), Some(ErrorNotice::LastYatraAdminCannotLeave));
    assert_eq!(new_practice_notice(&last), None);
    assert_eq!(password_reset_notice(&AppError::NotFound), Some(ErrorNotice::InvalidResetLink));
    assert_eq!(login_notice(&AppError::NotFound), Some(ErrorNotice::LoginNotFound));
    assert_eq!(login_notice(&AppError::RequestError), None);
}
