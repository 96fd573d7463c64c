use base64::Engine;
use terzi::cli::{build_request_from_cli, format_help_section, suggest_similar_commands, RequestArgs};
use terzi::config::Config;
use terzi::error::TerziError;
use terzi::request::{
    create_authenticated_request, create_get_request, create_post_json_request, validate_request,
    RequestBuilder, RequestCollection, SavedRequest,
};
use terzi::table::Table;

fn header(r: &SavedRequest, k: &str) -> Option<String> {
    r.headers.get(k).cloned()
}

#[test]
fn builder_normalizes_method_and_keeps_url() {
    let r = RequestBuilder::new("https://api.example.com/x?q=1", "post").unwrap().build();
    assert_eq!(r.method, "POST");
    assert_eq!(r.url, "https://api.example.com/x?q=1");
    assert!(r.body.is_none());
    assert_eq!(r.created_at, r.updated_at);
    for m in ["get", "Put", "DELETE", "patch", "head", "options"] {
        let b = RequestBuilder::new("http://localhost:8080/", m).unwrap().build();
        assert_eq!(b.method, m.to_uppercase());
    }
}

#[test]
fn builder_rejects_bad_url_and_method() {
    assert!(matches!(RequestBuilder::new("not-a-valid-url", "GET"), Err(TerziError::InvalidInput(_))));
    assert!(matches!(RequestBuilder::new("https://example.com", "FETCH"), Err(TerziError::InvalidInput(_))));
}

#[test]
fn json_body_sets_content_type_and_keeps_text() {
    let text = "{ \"b\": 2,  \"a\": 1 }";
    let r = RequestBuilder::new("https://example.com", "POST").unwrap().json_body(text).unwrap().build();
    assert_eq!(header(&r, "Content-Type").as_deref(), Some("application/json"));
    assert_eq!(r.body.as_deref(), Some(text));
}

#[test]
fn json_body_rejects_invalid_json() {
    let b = RequestBuilder::new("https://example.com", "POST").unwrap();
    assert!(matches!(b.json_body("invalid json"), Err(TerziError::InvalidInput(_))));
    let b = RequestBuilder::new("https://example.com", "POST").unwrap();
    assert!(matches!(b.json_body("{\"a\":"), Err(TerziError::InvalidInput(_))));
}

#[test]
fn auth_basic_encodes_credentials() {
    let r = RequestBuilder::new("https://example.com", "GET").unwrap().auth("basic:alice:secret").unwrap().build();
    let expected = format!("Basic {}", base64::prelude::BASE64_STANDARD.encode("alice:secret"));
    assert_eq!(header(&r, "Authorization"), Some(expected));
    assert_eq!(header(&r, "Authorization").as_deref(), Some("Basic YWxpY2U6c2VjcmV0"));
}

#[test]
fn auth_schemes() {
    let b = || RequestBuilder::new("https://example.com", "GET").unwrap();
    let r = b().auth("bearer:tok").unwrap().build();
    assert_eq!(header(&r, "Authorization").as_deref(), Some("Bearer tok"));
    let r = b().auth("Bearer:tok").unwrap().build();
    assert_eq!(header(&r, "Authorization").as_deref(), Some("Bearer tok"));
    let r = b().auth("plaintoken").unwrap().build();
    assert_eq!(header(&r, "Authorization").as_deref(), Some("Bearer plaintoken"));
    let r = b().auth("api-key:X-Custom:v1").unwrap().build();
    assert_eq!(header(&r, "X-Custom").as_deref(), Some("v1"));
    let r = b().auth("apikey:v2").unwrap().build();
    assert_eq!(header(&r, "X-API-Key").as_deref(), Some("v2"));
    assert!(matches!(b().auth("basic:nocolon"), Err(TerziError::InvalidInput(_))));
    match b().auth("digest:x") {
        Err(TerziError::UnsupportedAuthType(s)) => assert_eq!(s, "digest"),
        _ => panic!("expected an unsupported scheme"),
    }
}

#[test]
fn form_body_encodes_in_table_order() {
    let mut form = Table::new();
    form.insert("name".to_string(), "John Doe".to_string());
    form.insert("age".to_string(), "30".to_string());
    form.insert("q".to_string(), "a&b=c".to_string());
    let r = RequestBuilder::new("https://example.com", "POST").unwrap().form_body(form).unwrap().build();
    assert_eq!(r.body.as_deref(), Some("name=John%20Doe&age=30&q=a%26b%3Dc"));
    assert_eq!(header(&r, "Content-Type").as_deref(), Some("application/x-www-form-urlencoded"));
}

#[test]
fn setters_and_tags() {
    let r = RequestBuilder::new("https://example.com", "GET")
        .unwrap()
        .name("n")
        .header("A", "1")
        .header("A", "2")
        .raw_body("raw")
        .timeout(10)
        .follow_redirects(false)
        .description("d")
        .tag("x")
        .tag("x")
        .tags(vec!["y".to_string(), "x".to_string()])
        .build();
    assert_eq!(r.name, "n");
    assert_eq!(header(&r, "A").as_deref(), Some("2"));
    assert_eq!(r.headers.len(), 1);
    assert_eq!(r.body.as_deref(), Some("raw"));
    assert_eq!(r.timeout, Some(10));
    assert_eq!(r.follow_redirects, Some(false));
    assert_eq!(r.description.as_deref(), Some("d"));
    assert_eq!(r.tags, vec!["x".to_string(), "y".to_string()]);
}

#[test]
fn saved_request_mutators() {
    let mut r = SavedRequest::new("n".to_string(), "https://e.com".to_string(), "GET".to_string());
    let before = r.updated_at;
    r.add_header("K".to_string(), "V".to_string());
    r.add_tag("t".to_string());
    r.add_tag("t".to_string());
    r.add_tag("u".to_string());
    r.remove_tag("t");
    r.set_body(Some("b".to_string()));
    assert_eq!(r.tags, vec!["u".to_string()]);
    assert_eq!(r.body.as_deref(), Some("b"));
    assert!(r.updated_at >= before);
    assert!(r.updated_at >= r.created_at);
}

#[test]
fn collections() {
    let mut c = RequestCollection::new("c".to_string());
    let a = SavedRequest::new("a".to_string(), "https://a.com".to_string(), "GET".to_string());
    let id = a.id.clone();
    c.add_request(a);
    c.add_request(SavedRequest::new("b".to_string(), "https://b.com".to_string(), "GET".to_string()));
    assert_eq!(c.find_request("b").unwrap().url, "https://b.com");
    assert!(c.find_request("zzz").is_none());
    assert!(c.remove_request(&id));
    assert!(!c.remove_request(&id));
    assert_eq!(c.requests.len(), 1);
}

#[test]
fn helpers_and_validation() {
    let g = create_get_request("https://example.com").unwrap();
    assert_eq!(g.method, "GET");
    assert!(create_get_request("bad").is_err());
    let p = create_post_json_request("https://example.com", "{\"a\":1}").unwrap();
    assert_eq!(p.body.as_deref(), Some("{\"a\":1}"));
    let a = create_authenticated_request("https://example.com", "delete", "tok").unwrap();
    assert_eq!(a.method, "DELETE");
    assert_eq!(header(&a, "Authorization").as_deref(), Some("Bearer tok"));
    assert!(validate_request(&g).is_ok());
    let mut bad = g.clone();
    bad.timeout = Some(0);
    assert!(matches!(validate_request(&bad), Err(TerziError::InvalidInput(_))));
    let mut bad_json = p.clone();
    bad_json.body = Some("{".to_string());
    assert!(matches!(validate_request(&bad_json), Err(TerziError::InvalidInput(_))));
}

#[test]
fn cli_options_build_a_request() {
    let config = Config::defaults("vim");
    let base = RequestArgs {
        method: "post".to_string(),
        headers: vec!["X-Test-Header: test-value".to_string(), "User-Agent: Terzi-Test".to_string()],
        body: None,
        json: Some("{\"test\": \"data\", \"number\": 42}".to_string()),
        form_data: vec![],
        auth: Some("bearer:test-token".to_string()),
        follow_redirects: false,
        timeout: 30,
    };
    let r = build_request_from_cli(&base, "https://httpbin.org/post", &config).unwrap();
    assert_eq!(r.method, "POST");
    assert_eq!(r.headers.get("X-Test-Header").map(|s| s.as_str()), Some("test-value"));
    assert_eq!(r.headers.get("Authorization").map(|s| s.as_str()), Some("Bearer test-token"));
    assert_eq!(r.headers.get("Content-Type").map(|s| s.as_str()), Some("application/json"));
    assert_eq!(r.timeout, Some(30));
    assert_eq!(r.follow_redirects, Some(true));

    let mut bad = base.clone();
    bad.json = Some("invalid json".to_string());
    assert!(matches!(build_request_from_cli(&bad, "https://httpbin.org/post", &config), Err(TerziError::InvalidInput(_))));
    assert!(matches!(build_request_from_cli(&base, "not-a-valid-url", &config), Err(TerziError::InvalidInput(_))));
    let mut two = base.clone();
    two.body = Some("raw".to_string());
    assert!(matches!(build_request_from_cli(&two, "https://e.com", &config), Err(TerziError::InvalidInput(_))));
    let mut header = base.clone();
    header.headers = vec!["NoColon".to_string()];
    assert!(matches!(build_request_from_cli(&header, "https://e.com", &config), Err(TerziError::InvalidInput(_))));
    let mut form = base.clone();
    form.json = None;
    form.form_data = vec!["name=John".to_string(), "age=30".to_string()];
    form.timeout = 5;
    let f = build_request_from_cli(&form, "https://e.com", &config).unwrap();
    assert_eq!(f.body.as_deref(), Some("name=John&age=30"));
    assert_eq!(f.timeout, Some(5));
    let mut slow = base.clone();
    slow.timeout = 0;
    assert!(matches!(build_request_from_cli(&slow, "https://e.com", &config), Err(TerziError::InvalidInput(_))));
    let mut digest = base.clone();
    digest.auth = Some("digest:x".to_string());
    assert!(matches!(build_request_from_cli(&digest, "https://e.com", &config), Err(TerziError::UnsupportedAuthType(_))));
}

#[test]
fn command_suggestions_and_help() {
    assert_eq!(suggest_similar_commands("hist"), vec!["history"]);
    assert_eq!(suggest_similar_commands("exp"), vec!["export"]);
    assert_eq!(suggest_similar_commands("").len(), 11);
    assert!(suggest_similar_commands("zzz").is_empty());
    let text = format_help_section("T", &[("a", "first")]);
    assert_eq!(text, format!("T:\n  {:20} first\n\n", "a"));
}

#[test]
fn collection_request_changed_in_place() {
    let mut c = RequestCollection::new("c".to_string());
    c.add_request(SavedRequest::new("a".to_string(), "https://a.com".to_string(), "GET".to_string()));
    if let Some(r) = c.find_request_mut("a") {
        r.timeout = Some(7);
    }
    assert_eq!(c.requests[0].timeout, Some(7));
    assert!(c.find_request_mut("b").is_none());
}
