use neocities_deploy::auth::Auth;

#[test]
fn test_auth() {
    let credentials = Auth::from("username:password");
    assert!(credentials == Auth::Credentials("username".to_string(), "password".to_string()));
    assert_eq!(credentials.header(), "Basic dXNlcm5hbWU6cGFzc3dvcmQ=");

    let api_key = Auth::from("api_key");
    assert!(api_key == Auth::ApiKey("api_key".to_string()));
    assert_eq!(api_key.header(), "Bearer api_key");
}

#[test]
fn auth_splits_at_the_first_colon() {
    assert!(Auth::from("user:pa:ss") == Auth::Credentials("user".to_string(), "pa:ss".to_string()));
    assert!(Auth::from(":") == Auth::Credentials(String::new(), String::new()));
    assert!(Auth::from("user:") == Auth::Credentials("user".to_string(), String::new()));
    assert!(Auth::from(":pass") == Auth::Credentials(String::new(), "pass".to_string()));
    assert!(Auth::from("") == Auth::ApiKey(String::new()));
}

#[test]
fn auth_is_written_as_it_was_read() {
    for text in ["username:password", "api_key", "user:pa:ss", ":", ""] {
        assert_eq!(Auth::from(text).into_string(), text);
    }
    let auth = Auth::Credentials("a".to_string(), "b".to_string());
    assert_eq!(auth.clone().into_string(), "a:b");
    assert!(auth.is_encodable());
    assert!(Auth::ApiKey("k".to_string()).is_encodable());
}

#[test]
fn header_encodes_the_credentials_in_base64() {
    assert_eq!(Auth::from("a:b").header(), "Basic YTpi");
    assert_eq!(Auth::from("ab:c").header(), "Basic YWI6Yw==");
    assert_eq!(Auth::from("\u{fb}\u{ff}:\u{fe}").header(), "Basic w7vDvzrDvg==");
    assert_eq!(Auth::from(":").header(), "Basic Og==");
}

#[test]
fn secrets_are_hidden_for_the_log() {
    let credentials = Auth::from("username:password");
    assert!(credentials.is_redactable());
    assert!(credentials.redacted() == Auth::Credentials("username".to_string(), "********".to_string()));
    let key = Auth::from("c6275ca833ac06c83926ccb00dff4c82");
    assert!(key.is_redactable());
    let hidden = key.redacted().into_string();
    assert_eq!(hidden, "c6275c**************************");
    assert_eq!(hidden.len(), 32);
    assert!(Auth::from("sixsix").is_redactable());
    assert_eq!(Auth::from("sixsix").redacted().into_string(), format!("sixsix{}", "*".repeat(26)));
    assert_eq!(Auth::from("\u{e9}1234").redacted().into_string(), format!("\u{e9}1234{}", "*".repeat(26)));
    assert!(!Auth::from("short").is_redactable());
    assert!(!Auth::from("12345\u{e9}").is_redactable());
    assert!(!Auth::from("").is_redactable());
}
