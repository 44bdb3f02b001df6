use superkeyloader::gitlab::{
    auth_header_value, keys_from_response, keys_path, validate_response, validate_ssh_key,
    validate_username, INVALID_GITLAB_API_RESPONSE, INVALID_GITLAB_USERNAME,
};
use superkeyloader::{FetchError, Provider};

const VALID_USERNAME: &str = "test_1.user-name";
const INVALID_USERNAME_CHARS: &str = "user!user";

const KEY_A: &str = "ssh-rsa AAAAB3NzaC1yc2EAAAADAQABAAABAQCarT/me5sWxY9Tizc+2SEtJLzqJuSLQWXycIiJc9azQCsPqqLiYt1ge3Df0ctpYJqUfrR1UQ7KOOVR3i78dxyPS9PxqXorGtkl7K7BAeI08nBPICYFExusbz3YqudEU9+KKK7STwvDH8O+EU/UTWlQMvsYj4JaKNU40HJTc2yWO+k12Xe3p2Zhl3TTPaJkQfJnlATX6r6LoT1aQAUnuyjpaGCWjGHSU4lBUhESPvPArZW4k9fMM4/eb7TZS5szU0GXi4gWjMpdPMdpdzksZoXQV07A7X6ZFtLTkpVAWw7i88BVC/IRC+Bl/NVPuRZsC0wW+t+tzFqhud0ZiMEx4UHh";

#[test]
fn test_gitlab_username_validation() {
    assert_eq!(validate_username(&String::from(VALID_USERNAME)), true);
    assert_eq!(validate_username(&String::from(INVALID_USERNAME_CHARS)), false);
}

#[test]
fn username_allows_dots_dashes_underscores() {
    assert!(validate_username("a"));
    assert!(validate_username("-a_b.c-"));
    // no length cap is known, so none is imposed
    assert!(validate_username(&"a".repeat(300)));
    assert!(!validate_username(""));
    assert!(!validate_username("user name"));
    assert!(!validate_username("user/user"));
}

#[test]
fn gitlab_valid_response_three_keys() {
    let body = format!(
        "\n        {}\n        {}\n        {}\n    ",
        KEY_A, KEY_A, KEY_A
    );
    let r = keys_from_response(200, &body);
    let keys = r.unwrap();
    assert_eq!(keys.len(), 3);
    // lines come back unmodified, in order: interior indentation is kept
    assert_eq!(keys[0], KEY_A);
    assert_eq!(keys[1], format!("        {}", KEY_A));
    assert_eq!(keys[2], format!("        {}", KEY_A));
}

#[test]
fn invalid_response_line_fails_whole_body() {
    let body = format!("\n        {}\n        42\n    ", KEY_A);
    let r = keys_from_response(200, &body);
    assert_eq!(r, Err(FetchError::InvalidApiResponse(Provider::Gitlab)));
    assert_eq!(
        FetchError::InvalidApiResponse(Provider::Gitlab).code(),
        INVALID_GITLAB_API_RESPONSE
    );
}

#[test]
fn gitlab_no_keys_response_is_ok_and_empty() {
    let r = keys_from_response(200, "");
    assert_eq!(r, Ok(vec![]));
    let r = keys_from_response(200, "  \n  \n");
    assert_eq!(r, Ok(vec![]));
}

#[test]
fn gitlab_missing_username_is_status_404() {
    let r = keys_from_response(404, KEY_A);
    assert_eq!(r, Err(FetchError::TransportStatus(404)));
}

#[test]
fn gitlab_invalid_username_never_builds_a_path() {
    assert_eq!(
        keys_path(INVALID_USERNAME_CHARS),
        Err(FetchError::InvalidUsername(Provider::Gitlab))
    );
    assert_eq!(
        FetchError::InvalidUsername(Provider::Gitlab).code(),
        INVALID_GITLAB_USERNAME
    );
    assert_eq!(
        keys_path(VALID_USERNAME),
        Ok(String::from("/test_1.user-name.keys"))
    );
}

#[test]
fn auth_header_uses_bearer_scheme() {
    assert_eq!(auth_header_value("abc123"), "Bearer abc123");
}

#[test]
fn ssh_key_line_validation() {
    // allowed type and real base64 data
    assert!(validate_ssh_key("ssh-rsa QUFBQg=="));
    assert!(validate_ssh_key("ssh-ecdsa QUFBQg== comment@host"));
    assert!(validate_ssh_key("   ssh-rsa QUFBQg==   "));
    // fewer than two parts
    assert!(!validate_ssh_key("42"));
    assert!(!validate_ssh_key(""));
    assert!(!validate_ssh_key("   "));
    // key data that is not base64
    assert!(!validate_ssh_key("ssh-rsa !!!"));
    // key type outside the allow-list
    assert!(!validate_ssh_key("ssh-dss QUFBQg=="));
    assert!(!validate_ssh_key("ecdsa QUFBQg=="));
}

#[test]
fn response_validation_checks_every_line() {
    assert!(validate_response(""));
    assert!(validate_response("ssh-rsa QUFBQg==\nssh-ecdsa QUFBQg=="));
    assert!(!validate_response("ssh-rsa QUFBQg==\nnot-a-key\nssh-rsa QUFBQg=="));
    // an interior line of only blanks is not discarded and fails validation
    assert!(!validate_response("ssh-rsa QUFBQg==\n   \nssh-rsa QUFBQg=="));
}
