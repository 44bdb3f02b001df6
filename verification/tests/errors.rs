use superkeyloader::error_handler_wrapper;
use superkeyloader::{github, gitlab, FetchError, Provider};

#[test]
fn test_error_handling() {
    // All Ok
    let all_ok_input: Result<Vec<String>, u16> = Ok(vec!["key1".to_string(), "key2".to_string()]);
    let all_ok_output: Result<Vec<String>, String> =
        Ok(vec!["key1".to_string(), "key2".to_string()]);
    assert_eq!(
        error_handler_wrapper(all_ok_input).unwrap(),
        all_ok_output.unwrap()
    );

    // No keys
    let no_keys_input: Result<Vec<String>, u16> = Ok(vec![]);
    assert_eq!(error_handler_wrapper(no_keys_input).is_err(), true);

    // No user
    let no_user_error_code: u16 = 404;
    let no_user_input: Result<Vec<String>, u16> = Err(no_user_error_code);
    assert_eq!(error_handler_wrapper(no_user_input).is_err(), true);

    // Other error
    let other_error_code: u16 = 500;
    let other_error_input: Result<Vec<String>, u16> = Err(other_error_code);
    assert_eq!(error_handler_wrapper(other_error_input).is_err(), true);

    // Invalid GitHub username
    let invalid_user_input: Result<Vec<String>, u16> = Err(github::INVALID_GH_USERNAME);
    assert_eq!(error_handler_wrapper(invalid_user_input).is_err(), true);

    // Invalid GitHub API Response
    let invalid_user_input: Result<Vec<String>, u16> = Err(github::INVALID_GH_API_RESPONSE);
    assert_eq!(error_handler_wrapper(invalid_user_input).is_err(), true);
}

#[test]
fn round_trip_keeps_a_non_empty_result() {
    let keys = vec!["a".to_string(), "b".to_string(), "c".to_string()];
    let out = error_handler_wrapper(Ok(keys.clone()));
    assert_eq!(out, Ok(keys));
}

#[test]
fn messages_name_each_case() {
    let msg = error_handler_wrapper(Ok(vec![])).unwrap_err();
    assert_eq!(msg, "User has no SSH keys available");

    let msg = error_handler_wrapper(Err(404)).unwrap_err();
    assert_eq!(msg, "Wrong username, doesn't exists");
    assert!(msg.contains("Wrong username"));

    let msg = error_handler_wrapper(Err(github::INVALID_GH_API_RESPONSE)).unwrap_err();
    assert_eq!(msg, "Invalid GitHub API response");

    let msg = error_handler_wrapper(Err(github::INVALID_GH_USERNAME)).unwrap_err();
    assert!(msg.contains("Invalid username"));
    assert!(msg.contains("GitHub"));

    let msg = error_handler_wrapper(Err(gitlab::INVALID_GITLAB_API_RESPONSE)).unwrap_err();
    assert_eq!(msg, "Invalid GitLab API response");

    let msg = error_handler_wrapper(Err(gitlab::INVALID_GITLAB_USERNAME)).unwrap_err();
    assert!(msg.contains("Invalid username"));
    assert!(msg.contains("GitLab"));

    let msg = error_handler_wrapper(Err(500)).unwrap_err();
    assert_eq!(msg, "API response code: 500");
    let msg = error_handler_wrapper(Err(999)).unwrap_err();
    assert_eq!(msg, "API response code: 999");
}

#[test]
fn error_codes_are_stable() {
    assert_eq!(FetchError::InvalidUsername(Provider::Github).code(), 1001);
    assert_eq!(FetchError::InvalidApiResponse(Provider::Github).code(), 1002);
    assert_eq!(FetchError::InvalidUsername(Provider::Gitlab).code(), 1003);
    assert_eq!(FetchError::InvalidApiResponse(Provider::Gitlab).code(), 1004);
    assert_eq!(FetchError::TransportStatus(403).code(), 403);
    assert_eq!(FetchError::TransportStatus(500).code(), 500);
}

#[test]
fn transport_status_to_message_path() {
    // a 404 from the transport becomes the "wrong username" message
    let e = FetchError::TransportStatus(404);
    let msg = error_handler_wrapper(Err(e.code())).unwrap_err();
    assert_eq!(msg, "Wrong username, doesn't exists");
}
