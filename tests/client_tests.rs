use terzi::client::Response;
use terzi::table::Table;

fn response(status: u16, content_type: Option<&str>) -> Response {
    let mut headers = Table::new();
    if let Some(ct) = content_type {
        headers.insert("content-type".to_string(), ct.to_string());
    }
    Response {
        status,
        headers,
        body: String::new(),
        duration_ms: 1500,
        size: 2048,
        url: "https://example.com".to_string(),
        method: "GET".to_string(),
    }
}

#[test]
fn status_classes_and_markers() {
    assert!(response(204, None).is_success());
    assert!(response(404, None).is_client_error());
    assert!(response(502, None).is_server_error());
    assert_eq!(response(200, None).status_emoji(), "🟢");
    assert_eq!(response(301, None).status_emoji(), "🟡");
    assert_eq!(response(404, None).status_emoji(), "🔴");
    assert_eq!(response(500, None).status_emoji(), "💥");
    assert_eq!(response(700, None).status_emoji(), "❓");
}

#[test]
fn content_kinds_and_human_figures() {
    assert!(response(200, Some("application/json; charset=utf-8")).is_json());
    assert!(response(200, Some("text/xml")).is_xml());
    assert!(response(200, Some("text/html")).is_html());
    assert!(!response(200, None).is_json());
    assert_eq!(response(200, None).size_human(), "2.0 KB");
    assert_eq!(response(200, None).duration_human(), "1.50s");
}
