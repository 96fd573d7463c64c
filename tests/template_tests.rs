use terzi::error::TerziError;
use terzi::request::{RequestBuilder, SavedRequest};
use terzi::table::Table;
use terzi::template::{substitute, RequestTemplate, TemplateVariable, VariableType};

fn vars(pairs: &[(&str, &str)]) -> Table<String> {
    let mut t = Table::new();
    for (k, v) in pairs {
        t.insert(k.to_string(), v.to_string());
    }
    t
}

fn base(url: &str) -> SavedRequest {
    RequestBuilder::new(url, "POST")
        .unwrap()
        .header("Authorization", "Bearer {{token}}")
        .raw_body("{\"user\": \"{{user}}\"}")
        .build()
}

fn variable(name: &str, default: Option<&str>, required: bool) -> TemplateVariable {
    TemplateVariable {
        name: name.to_string(),
        description: None,
        default_value: default.map(|d| d.to_string()),
        required,
        variable_type: VariableType::String,
    }
}

#[test]
fn render_substitutes_url_headers_and_body() {
    let mut t = RequestTemplate::new("t".to_string(), base("https://{{host}}/users"));
    t.add_environment("dev".to_string(), vars(&[("host", "dev.example.com"), ("token", "devtok")]));
    let r = t.render(Some("dev"), vars(&[("user", "ann"), ("token", "override")])).unwrap();
    assert_eq!(r.url, "https://dev.example.com/users");
    assert_eq!(r.headers.get("Authorization").map(|s| s.as_str()), Some("Bearer override"));
    assert_eq!(r.body.as_deref(), Some("{\"user\": \"ann\"}"));
    assert_eq!(t.base_request.url, "https://{{host}}/users");
}

#[test]
fn render_twice_gives_identical_output() {
    let t = RequestTemplate::new("t".to_string(), base("https://example.com/{{user}}"));
    let a = t.render(None, vars(&[("user", "u1"), ("token", "x")])).unwrap();
    let b = t.render(None, vars(&[("user", "u1"), ("token", "x")])).unwrap();
    assert_eq!(a.url, b.url);
    assert_eq!(a.body, b.body);
    assert_eq!(a.headers.get("Authorization"), b.headers.get("Authorization"));
    let again = RequestTemplate::new("t2".to_string(), a.clone());
    let c = again.render(None, vars(&[("user", "u1"), ("token", "x")])).unwrap();
    assert_eq!(c.url, a.url);
    assert_eq!(c.body, a.body);
}

#[test]
fn render_reports_missing_placeholder() {
    let t = RequestTemplate::new(
        "t".to_string(),
        RequestBuilder::new("https://example.com/{{missing}}", "GET").unwrap().build(),
    );
    match t.render(None, Table::new()) {
        Err(TerziError::UnresolvedVariable(tok)) => assert_eq!(tok, "{{missing}}"),
        other => panic!("unexpected {:?}", other.map(|r| r.url)),
    }
}

#[test]
fn render_checks_required_and_applies_defaults() {
    let mut t = RequestTemplate::new("t".to_string(), base("https://example.com/{{user}}"));
    t.add_variable(variable("user", None, true));
    t.add_variable(variable("token", Some("deftok"), true));
    match t.render(None, Table::new()) {
        Err(TerziError::MissingRequiredVariable(n)) => assert_eq!(n, "user"),
        _ => panic!("expected a missing variable"),
    }
    let r = t.render(None, vars(&[("user", "bob")])).unwrap();
    assert_eq!(r.headers.get("Authorization").map(|s| s.as_str()), Some("Bearer deftok"));
    assert_eq!(r.url, "https://example.com/bob");
}

#[test]
fn substitution_is_not_recursive() {
    let out = substitute("{{a}}-{{b}}", &vars(&[("a", "{{b}}"), ("b", "x")]));
    assert_eq!(out, "{{b}}-x");
    assert_eq!(substitute("{{{a}}}", &vars(&[("a", "1")])), "{1}");
}

#[test]
fn unknown_environment_is_ignored() {
    let t = RequestTemplate::new("t".to_string(), base("https://example.com/{{user}}"));
    let r = t.render(Some("nope"), vars(&[("user", "u"), ("token", "t")])).unwrap();
    assert_eq!(r.url, "https://example.com/u");
}
