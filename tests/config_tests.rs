use terzi::config::{parse_bounded, Config, StoredToken};
use terzi::error::TerziError;

#[test]
fn defaults_and_get_value() {
    let c = Config::defaults("nano");
    assert_eq!(c.get_value("general.default_timeout").as_deref(), Some("30"));
    assert_eq!(c.get_value("general.follow_redirects").as_deref(), Some("true"));
    assert_eq!(c.get_value("output.max_body_length").as_deref(), Some("10000"));
    assert_eq!(c.get_value("network.proxy_url"), None);
    assert_eq!(c.get_value("ui.editor").as_deref(), Some("nano"));
    assert_eq!(c.get_value("no.such.key"), None);
    assert_eq!(Config::default().ui.editor, "vim");
    assert!(c.validate().is_ok());
}

#[test]
fn set_value_validates_each_key() {
    let mut c = Config::defaults("vim");
    assert!(c.set_value("general.default_timeout", "60").is_ok());
    assert_eq!(c.general.default_timeout, 60);
    assert!(matches!(c.set_value("general.default_timeout", "abc"), Err(TerziError::InvalidInput(_))));
    assert_eq!(c.general.default_timeout, 60);
    assert!(c.set_value("network.max_redirects", "255").is_ok());
    assert!(matches!(c.set_value("network.max_redirects", "256"), Err(TerziError::InvalidInput(_))));
    assert!(c.set_value("output.default_format", "yaml").is_ok());
    assert!(matches!(c.set_value("output.default_format", "xml"), Err(TerziError::InvalidInput(_))));
    assert!(c.set_value("output.max_body_length", "none").is_ok());
    assert_eq!(c.output.max_body_length, None);
    assert!(c.set_value("network.proxy_url", "http://proxy:3128").is_ok());
    assert!(matches!(c.set_value("network.proxy_url", "bad url"), Err(TerziError::InvalidInput(_))));
    assert!(c.set_value("ui.fuzzy_search", "false").is_ok());
    assert!(!c.ui.fuzzy_search);
    assert!(matches!(c.set_value("ui.fuzzy_search", "no"), Err(TerziError::InvalidInput(_))));
    assert!(matches!(c.set_value("bogus", "1"), Err(TerziError::NotFound(_))));
    assert_eq!(Config::list_all_keys().len(), 29);
}

#[test]
fn validate_limits_and_colors() {
    let mut c = Config::defaults("vim");
    c.network.connection_timeout = 301;
    assert!(matches!(c.validate(), Err(TerziError::InvalidInput(_))));
    c.reset_to_defaults("vim");
    assert!(c.validate().is_ok());
    assert!(c.should_use_colors(false));
    c.output.color_scheme = "auto".to_string();
    assert!(!c.should_use_colors(false));
    assert!(c.should_use_colors(true));
    assert_eq!(c.get_color_scheme(), "auto");
}

#[test]
fn number_parsing() {
    assert_eq!(parse_bounded("42", 100), Some(42));
    assert_eq!(parse_bounded("+7", 100), Some(7));
    assert_eq!(parse_bounded("101", 100), None);
    assert_eq!(parse_bounded("", 100), None);
    assert_eq!(parse_bounded("+", 100), None);
    assert_eq!(parse_bounded("1a", 100), None);
    assert_eq!(parse_bounded("18446744073709551615", u64::MAX), Some(u64::MAX));
    assert_eq!(parse_bounded("18446744073709551616", u64::MAX), None);
}

#[test]
fn stored_tokens() {
    let mut c = Config::defaults("vim");
    let token = StoredToken {
        token_type: "bearer".to_string(),
        value: "abc".to_string(),
        expires_at: None,
        refresh_token: None,
        scopes: vec!["read".to_string()],
    };
    c.save_token("api", token);
    assert_eq!(c.get_token("api").map(|t| t.value.as_str()), Some("abc"));
    assert_eq!(c.list_tokens(), vec!["api".to_string()]);
    assert!(c.delete_token("api"));
    assert!(!c.delete_token("api"));
    assert!(c.get_token("api").is_none());
}

#[test]
fn request_ids_are_fresh() {
    let a = terzi::clock::generate_request_id();
    let b = terzi::clock::generate_request_id();
    assert_eq!(a.len(), 32);
    assert_ne!(a, b);
}
