use std::time::Duration;
use terzi::format::{format_bytes, format_duration, format_millis, sanitize_filename, time_ago_from, truncate_string};
use terzi::layout::calculate_column_widths;
use terzi::table::Table;
use terzi::util::{next_env_placeholder, splice_chars};
use terzi::util::{
    diff_json, extract_domain, extract_template_variables, filter_headers, get_file_extension,
    guess_content_type, join_messages, mask_sensitive_data, mask_token, merge_headers, minify_json,
    normalize_url, parse_content_type, prettify_json, ColorScheme, Timer,
};
use terzi::validate::{
    is_valid_email, is_valid_header_name, is_valid_header_value, is_valid_json, is_valid_url,
    validate_method, validate_timeout,
};
use terzi::error::TerziError;

#[test]
fn test_normalize_url() {
    assert_eq!(normalize_url("https://example.com:443/").unwrap(), "https://example.com/");
    assert_eq!(normalize_url("http://example.com:80/path").unwrap(), "http://example.com/path");
}

#[test]
fn test_format_duration() {
    assert_eq!(format_duration(Duration::from_millis(500)), "500ms");
    assert_eq!(format_duration(Duration::from_secs(2)), "2.00s");
    assert_eq!(format_duration(Duration::from_secs(65)), "1m 5s");
}

#[test]
fn test_format_bytes() {
    assert_eq!(format_bytes(500), "500 B");
    assert_eq!(format_bytes(1500), "1.5 KB");
    assert_eq!(format_bytes(1_500_000), "1.4 MB");
}

#[test]
fn test_is_valid_json() {
    assert!(is_valid_json(r#"{"test": true}"#));
    assert!(is_valid_json(r#"[1, 2, 3]"#));
    assert!(!is_valid_json("not json"));
}

#[test]
fn test_guess_content_type() {
    assert_eq!(guess_content_type(r#"{"test": true}"#), "application/json");
    assert_eq!(guess_content_type("<xml></xml>"), "application/xml");
    assert_eq!(guess_content_type("name=value"), "application/x-www-form-urlencoded");
    assert_eq!(guess_content_type("plain text"), "text/plain");
}

#[test]
fn test_extract_template_variables() {
    let text = "Hello {{name}}, your {{item}} is ready!";
    let vars = extract_template_variables(text);
    assert_eq!(vars, vec!["item", "name"]);
}

#[test]
fn extract_variables_dedups_trims_and_stops_at_unterminated() {
    let vars = extract_template_variables("{{ b }} {{a}} {{b}} {{}} {{c");
    assert_eq!(vars, vec!["a", "b"]);
    assert!(extract_template_variables("no patterns here").is_empty());
}

#[test]
fn format_millis_edges() {
    assert_eq!(format_millis(0), "0ms");
    assert_eq!(format_millis(999), "999ms");
    assert_eq!(format_millis(1000), "1.00s");
    assert_eq!(format_millis(1234), "1.23s");
    assert_eq!(format_millis(1235), "1.24s");
    assert_eq!(format_millis(59_999), "60.00s");
    assert_eq!(format_millis(60_000), "1m 0s");
    assert_eq!(format_millis(3_723_000), "62m 3s");
}

#[test]
fn format_bytes_units() {
    assert_eq!(format_bytes(0), "0 B");
    assert_eq!(format_bytes(1023), "1023 B");
    assert_eq!(format_bytes(1024), "1.0 KB");
    assert_eq!(format_bytes(1_073_741_824), "1.0 GB");
    assert_eq!(format_bytes(1_099_511_627_776 * 2048), "2048.0 TB");
}

#[test]
fn time_ago_buckets() {
    assert_eq!(time_ago_from(Some(5)), "5s ago");
    assert_eq!(time_ago_from(Some(120)), "2m ago");
    assert_eq!(time_ago_from(Some(7200)), "2h ago");
    assert_eq!(time_ago_from(Some(172_800)), "2d ago");
    assert_eq!(time_ago_from(None), "in the future");
}

#[test]
fn truncate_and_sanitize() {
    assert_eq!(truncate_string("hello", 10), "hello");
    assert_eq!(truncate_string("hello world", 8), "hello...");
    assert_eq!(truncate_string("hello", 2), "...");
    assert_eq!(truncate_string("\u{e9}\u{e9}\u{e9}\u{e9}", 5), "\u{e9}...");
    assert_eq!(truncate_string("\u{e9}\u{e9}", 4), "\u{e9}\u{e9}");
    assert_eq!(sanitize_filename("a/b:c*d?.json"), "a_b_c_d_.json");
}

#[test]
fn validation_helpers() {
    assert!(validate_timeout(1).is_ok());
    assert!(validate_timeout(3600).is_ok());
    assert!(matches!(validate_timeout(0), Err(TerziError::InvalidInput(_))));
    assert!(matches!(validate_timeout(3601), Err(TerziError::InvalidInput(_))));
    assert!(validate_method("patch").is_ok());
    assert!(matches!(validate_method("FETCH"), Err(TerziError::InvalidInput(_))));
    assert!(is_valid_header_name("X-Test"));
    assert!(!is_valid_header_name(""));
    assert!(!is_valid_header_name("Bad:Name"));
    assert!(!is_valid_header_name("Caf\u{e9}"));
    assert!(is_valid_header_value("ok value"));
    assert!(!is_valid_header_value("bad\r\nvalue"));
    assert!(is_valid_email("a@b.c"));
    assert!(!is_valid_email("a@b@c"));
    assert!(!is_valid_email("abc"));
    assert!(is_valid_url("https://example.com"));
    assert!(!is_valid_url("not-a-valid-url"));
}

#[test]
fn content_type_parsing() {
    let (media, params) = parse_content_type("Text/HTML; Charset=\"UTF-8\"; boundary=x");
    assert_eq!(media, "text/html");
    assert_eq!(params.get("charset").map(|s| s.as_str()), Some("UTF-8"));
    assert_eq!(params.get("boundary").map(|s| s.as_str()), Some("x"));
}

#[test]
fn file_extensions() {
    assert_eq!(get_file_extension("data.json"), Some("json"));
    assert_eq!(get_file_extension("archive.tar.gz"), Some("gz"));
    assert_eq!(get_file_extension("README"), None);
}

#[test]
fn header_merge_and_filter() {
    let mut base = Table::new();
    base.insert("Accept".to_string(), "text/plain".to_string());
    base.insert("Authorization".to_string(), "secret".to_string());
    let mut over = Table::new();
    over.insert("Accept".to_string(), "application/json".to_string());
    let merged = merge_headers(&base, &over);
    assert_eq!(merged.get("Accept").map(|s| s.as_str()), Some("application/json"));
    assert_eq!(merged.get("Authorization").map(|s| s.as_str()), Some("secret"));
    let filtered = filter_headers(&merged, &["AUTH"]);
    assert!(filtered.get("Authorization").is_none());
    assert!(filtered.get("Accept").is_some());
}

#[test]
fn url_and_json_helpers() {
    assert_eq!(extract_domain("https://api.example.com/x").unwrap(), "api.example.com");
    assert!(matches!(extract_domain("nope"), Err(TerziError::InvalidInput(_))));
    assert_eq!(minify_json("{ \"a\" : 1 }").unwrap(), "{\"a\":1}");
    assert!(prettify_json("{\"a\":1}").unwrap().contains('\n'));
    assert!(matches!(prettify_json("nope"), Err(TerziError::InvalidInput(_))));
    assert_eq!(diff_json("{\"a\":1}", "{ \"a\": 1 }").unwrap(), "No differences found");
    assert!(diff_json("{\"a\":1}", "{\"a\":2}").unwrap().starts_with("Values differ:\nOld: "));
}

#[test]
fn masking() {
    assert_eq!(mask_token("abcd"), "****");
    assert_eq!(mask_token("abcdefgh"), "ab****gh");
    assert_eq!(mask_sensitive_data("token=abcdefgh ok", &["abcdefgh"]), "token=ab****gh ok");
    assert_eq!(mask_sensitive_data("keep", &["("]), "keep");
}

#[test]
fn joining_and_colors_and_timer() {
    let msgs = vec!["outer".to_string(), "inner".to_string()];
    assert_eq!(join_messages(&msgs), "outer → inner");
    assert_eq!(ColorScheme::dark().success, "bright_green");
    assert_eq!(ColorScheme::light().dim, "black");
    let mut t = Timer::new();
    let _ = t.elapsed_ms();
    let _ = t.restart();
}

#[test]
fn column_widths_fit_and_scale() {
    let headers = ["Name", "URL"];
    let rows = vec![vec!["short".to_string(), "https://example.com/a/very/long/path".to_string()]];
    let w = calculate_column_widths(&headers, &rows, 100, None);
    assert_eq!(w.len(), 2);
    // Least widths 5 and 8, most widths 15 and 36; 84 spare, shared 2:3.
    assert_eq!(w, vec![15, 36]);
    let narrow = calculate_column_widths(&headers, &rows, 6, None);
    assert_eq!(narrow, vec![5, 5]);
    assert!(calculate_column_widths(&[], &rows, 80, None).is_empty());
}

#[test]
fn env_placeholders_and_splicing() {
    assert_eq!(next_env_placeholder("a ${HOME} b"), Some((2, 8, "HOME".to_string())));
    assert_eq!(next_env_placeholder("no vars"), None);
    assert_eq!(next_env_placeholder("open ${X"), None);
    assert_eq!(splice_chars("a ${HOME} b", 2, 9, "/root"), "a /root b");
}

#[test]
fn request_timeout_falls_back_to_default() {
    assert_eq!(terzi::client::effective_timeout(Some(5), 30), 5);
    assert_eq!(terzi::client::effective_timeout(None, 30), 30);
}
