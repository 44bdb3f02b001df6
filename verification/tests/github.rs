use superkeyloader::github::{
    auth_header_value, format_key, keys_from_response, keys_path, parse_records, validate_username,
    GhKey, INVALID_GH_API_RESPONSE, INVALID_GH_USERNAME,
};
use superkeyloader::{FetchError, Provider};

const VALID_USERNAME: &str = "testuser";
const INVALID_USERNAME_LENGTH: &str = "user-user-user-user-user-user-user-user-";
const INVALID_USERNAME_ENDING_HYPHEN: &str = "user-user-";
const INVALID_USERNAME_CONSEC_HYPHEN: &str = "user--user";

const VALID_3_KEYS_JSON: &str = r#"[
  {
    "id": 12257919,
    "key": "ssh-rsa AAAAB3NzaC1yc2EAAAADAQABAAABAQCarT/me5sWxY9Tizc"
  },
  {
    "id": 22932337,
    "key": "ssh-rsa AAAAB3NzaC1yc2EAAAADAQABAAACAQC+MxvBji8iUuN2so2"
  },
  {
    "id": 69196823,
    "key": "ssh-rsa AAAAB3NzaC1yc2EAAAADAQABAAABAQDq/BrJT0c7LSmTRDE"
  }
]"#;

const EMPTY_JSON: &str = r#"[]"#;

const INVALID_JSON: &str = r#"[
  {
    "id": "12257919",
    "key": "ssh-rsa AAAAB3NzaC1yc2EAAAADAQABAAABAQCarT/me5sWxY9Tizc"
  },
  {
    "key": "ssh-rsa AAAAB3NzaC1yc2EAAAADAQABAAACAQC+MxvBji8iUuN2so2"
  },
  {
    "id": 69196823,
    "key": 42
  }
]"#;

#[test]
fn test_github_username_validation() {
    assert_eq!(validate_username(&String::from(VALID_USERNAME)), true);
    assert_eq!(validate_username(&String::from(INVALID_USERNAME_LENGTH)), false);
    assert_eq!(validate_username(&String::from(INVALID_USERNAME_ENDING_HYPHEN)), false);
    assert_eq!(validate_username(&String::from(INVALID_USERNAME_CONSEC_HYPHEN)), false);
}

#[test]
fn username_rules_edges() {
    assert!(validate_username("a"));
    assert!(validate_username("a-b"));
    assert!(validate_username("0user9"));
    // exactly 39 characters is allowed, 40 is not
    assert!(validate_username(&"a".repeat(39)));
    assert!(!validate_username(&"a".repeat(40)));
    assert!(!validate_username(""));
    assert!(!validate_username("user name"));
    assert!(!validate_username("user_name"));
    assert!(!validate_username("a-"));
}

#[test]
fn valid_response_three_keys() {
    let r = keys_from_response(200, VALID_3_KEYS_JSON);
    let keys = r.unwrap();
    assert_eq!(keys.len(), 3);
    assert_eq!(
        keys[0],
        "ssh-rsa AAAAB3NzaC1yc2EAAAADAQABAAABAQCarT/me5sWxY9Tizc from-GH-id-12257919"
    );
    assert_eq!(
        keys[1],
        "ssh-rsa AAAAB3NzaC1yc2EAAAADAQABAAACAQC+MxvBji8iUuN2so2 from-GH-id-22932337"
    );
    assert_eq!(
        keys[2],
        "ssh-rsa AAAAB3NzaC1yc2EAAAADAQABAAABAQDq/BrJT0c7LSmTRDE from-GH-id-69196823"
    );
}

#[test]
fn invalid_response_is_typed_error() {
    let r = keys_from_response(200, INVALID_JSON);
    assert_eq!(r, Err(FetchError::InvalidApiResponse(Provider::Github)));
    assert_eq!(
        FetchError::InvalidApiResponse(Provider::Github).code(),
        INVALID_GH_API_RESPONSE
    );
}

#[test]
fn no_keys_response_is_ok_and_empty() {
    let r = keys_from_response(200, EMPTY_JSON);
    assert_eq!(r, Ok(vec![]));
}

#[test]
fn missing_username_is_status_404() {
    let r = keys_from_response(404, VALID_3_KEYS_JSON);
    assert_eq!(r, Err(FetchError::TransportStatus(404)));
    assert_eq!(FetchError::TransportStatus(404).code(), 404);
}

#[test]
fn invalid_username_never_builds_a_path() {
    assert_eq!(
        keys_path(INVALID_USERNAME_LENGTH),
        Err(FetchError::InvalidUsername(Provider::Github))
    );
    assert_eq!(
        keys_path(INVALID_USERNAME_ENDING_HYPHEN),
        Err(FetchError::InvalidUsername(Provider::Github))
    );
    assert_eq!(
        keys_path(INVALID_USERNAME_CONSEC_HYPHEN),
        Err(FetchError::InvalidUsername(Provider::Github))
    );
    assert_eq!(
        FetchError::InvalidUsername(Provider::Github).code(),
        INVALID_GH_USERNAME
    );
    assert_eq!(keys_path(VALID_USERNAME), Ok(String::from("/users/testuser/keys")));
}

#[test]
fn auth_header_uses_token_scheme() {
    assert_eq!(auth_header_value("abc123"), "token abc123");
}

#[test]
fn format_key_appends_id_marker() {
    let k = GhKey { id: 0, key: String::from("abc") };
    assert_eq!(format_key(&k), "abc from-GH-id-0");
    let k = GhKey { id: u64::MAX, key: String::from("x y") };
    assert_eq!(format_key(&k), "x y from-GH-id-18446744073709551615");
}

#[test]
fn parser_accepts_general_json_records() {
    // swapped field order, unknown fields with nested values, escapes
    let body = r#" [ {"key": "a\nbA", "id": 7, "extra": {"a": [1, -2.5e3, true, null], "b": "x"}} ] "#;
    let ks = parse_records(body).unwrap();
    assert_eq!(ks.len(), 1);
    assert_eq!(ks[0].id, 7);
    assert_eq!(ks[0].key, "a\nbA");
    let lines = keys_from_response(204, body).unwrap();
    assert_eq!(lines, vec![String::from("a\nbA from-GH-id-7")]);
}

#[test]
fn parser_rejects_malformed_bodies() {
    // not an array
    assert_eq!(parse_records("null"), None);
    assert_eq!(parse_records(""), None);
    assert_eq!(parse_records("{}"), None);
    // trailing content
    assert_eq!(parse_records("[] x"), None);
    // trailing comma
    assert_eq!(parse_records(r#"[{"id":1,"key":"k"},]"#), None);
    // array item that is not an object
    assert_eq!(parse_records(r#"[5]"#), None);
    // missing required fields
    assert_eq!(parse_records(r#"[{}]"#), None);
    assert_eq!(parse_records(r#"[{"id":1}]"#), None);
    assert_eq!(parse_records(r#"[{"key":"k"}]"#), None);
    // duplicate field
    assert_eq!(parse_records(r#"[{"id":1,"id":2,"key":"k"}]"#), None);
    // id must be a plain unsigned integer
    assert_eq!(parse_records(r#"[{"id":-1,"key":"k"}]"#), None);
    assert_eq!(parse_records(r#"[{"id":1.5,"key":"k"}]"#), None);
    assert_eq!(parse_records(r#"[{"id":1e3,"key":"k"}]"#), None);
    assert_eq!(parse_records(r#"[{"id":01,"key":"k"}]"#), None);
    assert_eq!(parse_records(r#"[{"id":18446744073709551616,"key":"k"}]"#), None);
    // key must be a string
    assert_eq!(parse_records(r#"[{"id":1,"key":42}]"#), None);
    // unterminated string, unknown escape, lone surrogate
    assert_eq!(parse_records(r#"[{"id":1,"key":"k]"#), None);
    assert_eq!(parse_records(r#"[{"id":1,"key":"\x"}]"#), None);
    assert_eq!(parse_records(r#"[{"id":1,"key":"\ud800"}]"#), None);
}

#[test]
fn parser_handles_id_bounds() {
    let ks = parse_records(r#"[{"id":18446744073709551615,"key":"k"}]"#).unwrap();
    assert_eq!(ks[0].id, u64::MAX);
    let ks = parse_records(r#"[{"id":0,"key":"k"}]"#).unwrap();
    assert_eq!(ks[0].id, 0);
}

#[test]
fn parser_decodes_unicode_escapes() {
    let ks = parse_records(r#"[{"id":1,"key":"\u0041\u00e9"}]"#).unwrap();
    assert_eq!(ks[0].key, "A\u{e9}");
    let ks = parse_records(r#"[{"id":1,"key":"\ud83d\ude00"}]"#).unwrap();
    assert_eq!(ks[0].key, "\u{1F600}");
    // unescaped text outside ASCII passes through unchanged
    let ks = parse_records("[{\"id\":1,\"key\":\"\u{e9}\u{1F600}\"}]").unwrap();
    assert_eq!(ks[0].key, "\u{e9}\u{1F600}");
}
