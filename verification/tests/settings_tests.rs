use nacho_media::settings::{strip_trailing_slashes, AppSettings};

#[test]
fn defaults_are_unconfigured() {
    let s = AppSettings::default();
    assert!(s.nacho_server_url.is_none());
    assert!(s.nacho_auth_token.is_none());
}

#[test]
fn updates_touch_only_their_field() {
    let mut s = AppSettings::default();
    s.update_nacho_server_url(Some("https://example.test/".to_string()));
    s.update_nacho_auth_token(Some("token-abc123".to_string()));
    assert_eq!(s.get_nacho_server_url().as_deref(), Some("https://example.test/"));
    assert_eq!(s.get_nacho_auth_token().as_deref(), Some("token-abc123"));
    s.update_nacho_server_url(None);
    assert!(s.get_nacho_server_url().is_none());
    assert_eq!(s.get_nacho_auth_token().as_deref(), Some("token-abc123"));
}

#[test]
fn base_url_trims_trailing_slashes() {
    let mut s = AppSettings::default();
    s.update_nacho_server_url(Some("https://example.test///".to_string()));
    assert_eq!(s.nacho_server_base_url().unwrap(), "https://example.test");
    s.update_nacho_server_url(Some("https://example.test".to_string()));
    assert_eq!(s.nacho_server_base_url().unwrap(), "https://example.test");
}

#[test]
fn missing_or_empty_settings_are_reported() {
    let mut s = AppSettings::default();
    assert_eq!(
        s.nacho_server_base_url().unwrap_err(),
        "Nacho Server URL not configured. Please set it in Settings."
    );
    s.update_nacho_server_url(Some(String::new()));
    assert!(s.nacho_server_base_url().is_err());
    assert_eq!(
        s.nacho_auth_token_value().unwrap_err(),
        "Nacho Auth Token not configured. Please set it in Settings."
    );
    s.update_nacho_auth_token(Some("tok".to_string()));
    assert_eq!(s.nacho_auth_token_value().unwrap(), "tok");
}

#[test]
fn slash_stripping_handles_plain_strings() {
    assert_eq!(strip_trailing_slashes("a/b/"), "a/b");
    assert_eq!(strip_trailing_slashes("////"), "");
    assert_eq!(strip_trailing_slashes("no-slash"), "no-slash");
    assert_eq!(strip_trailing_slashes(""), "");
}
