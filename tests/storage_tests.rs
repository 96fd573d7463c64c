use terzi::client::Response;
use terzi::error::TerziError;
use terzi::request::{RequestBuilder, SavedRequest};
use terzi::storage::{HistoryEntry, Storage, HISTORY_LIMIT};
use terzi::table::Table;

fn req(name: &str, url: &str) -> SavedRequest {
    RequestBuilder::new(url, "GET").unwrap().name(name).build()
}

fn entry(id: usize, ts: i64) -> HistoryEntry {
    HistoryEntry {
        id: id.to_string(),
        timestamp: ts,
        method: "GET".to_string(),
        url: "https://example.com".to_string(),
        response_status: Some(200),
        duration_ms: Some(10),
        request_size: None,
        response_size: Some(1),
        error_message: None,
    }
}

fn response(status: u16) -> Response {
    Response {
        status,
        headers: Table::new(),
        body: String::new(),
        duration_ms: 120,
        size: 26,
        url: "https://api.example.com/x".to_string(),
        method: "GET".to_string(),
    }
}

#[test]
fn saved_json_request_round_trips() {
    let mut s = Storage::new();
    let r = RequestBuilder::new("https://api.example.com/x", "POST").unwrap().json_body("{\"a\":1}").unwrap().build();
    s.save_request("ex1", &r);
    let got = s.get_request("ex1").unwrap();
    assert_eq!(got.name, "ex1");
    assert_eq!(got.method, "POST");
    assert_eq!(got.headers.get("Content-Type").map(|v| v.as_str()), Some("application/json"));
    assert_eq!(got.body.as_deref(), Some("{\"a\":1}"));
    assert!(s.get_request("missing").is_none());
    assert!(s.delete_request("ex1"));
    assert!(!s.delete_request("ex1"));
}

#[test]
fn history_keeps_newest_thousand() {
    let mut s = Storage::new();
    for i in 1..=1001 {
        s.record_history(entry(i, i as i64));
    }
    let h = s.data().history;
    assert_eq!(h.len(), HISTORY_LIMIT);
    assert_eq!(h[0].id, "2");
    assert_eq!(h[999].id, "1001");
}

#[test]
fn success_and_failure_are_both_recorded() {
    let mut s = Storage::new();
    let r = req("a", "https://api.example.com/x");
    s.add_to_history(&r, &response(200));
    s.add_error_to_history(&r, "operation timed out");
    let h = s.data().history;
    assert_eq!(h.len(), 2);
    assert_eq!(h[0].response_status, Some(200));
    assert_eq!(h[0].error_message, None);
    assert_eq!(h[0].duration_ms, Some(120));
    assert_eq!(h[1].response_status, None);
    assert_eq!(h[1].error_message.as_deref(), Some("operation timed out"));
}

#[test]
fn history_listing_and_stats() {
    let mut s = Storage::new();
    let mut e1 = entry(1, 100);
    e1.duration_ms = Some(30);
    let mut e2 = entry(2, 300);
    e2.response_status = Some(404);
    e2.duration_ms = Some(10);
    let mut e3 = entry(3, 200);
    e3.response_status = None;
    e3.duration_ms = None;
    let mut e4 = entry(4, 250);
    e4.response_status = Some(503);
    e4.duration_ms = Some(20);
    s.record_history(e1);
    s.record_history(e2);
    s.record_history(e3);
    s.record_history(e4);
    let recent = s.get_history(2);
    assert_eq!(recent.iter().map(|e| e.id.as_str()).collect::<Vec<_>>(), vec!["2", "4"]);
    let stats = s.get_history_stats();
    assert_eq!(stats.total_requests, 4);
    assert_eq!(stats.successful_requests, 1);
    assert_eq!(stats.client_errors, 1);
    assert_eq!(stats.server_errors, 1);
    assert_eq!(stats.failed_requests, 1);
    assert_eq!(stats.total_duration_ms, 60);
    assert_eq!(stats.average_duration_ms, Some(20));
    assert_eq!(stats.min_duration_ms, Some(10));
    assert_eq!(stats.max_duration_ms, Some(30));
    s.clear_history();
    assert_eq!(s.get_history_stats().average_duration_ms, None);
}

#[test]
fn exact_name_outranks_url_match() {
    let mut s = Storage::new();
    s.save_request("foo", &req("foo", "https://example.com/a"));
    s.save_request("other", &req("other", "https://example.com/foo"));
    s.save_request("none", &req("none", "https://example.com/b"));
    let found = s.search_requests("FOO");
    assert_eq!(found.len(), 2);
    assert_eq!(found[0].name, "foo");
    assert_eq!(found[1].name, "other");
}

#[test]
fn listing_filters_and_orders_by_creation() {
    let mut s = Storage::new();
    let mut a = req("alpha", "https://a.example.com");
    a.created_at = 10;
    let mut b = req("beta", "https://b.example.com");
    b.created_at = 20;
    b.tags.push("Users".to_string());
    s.save_request("alpha", &a);
    s.save_request("beta", &b);
    let all = s.list_requests(None);
    assert_eq!(all.iter().map(|r| r.name.as_str()).collect::<Vec<_>>(), vec!["beta", "alpha"]);
    let users = s.list_requests(Some("users"));
    assert_eq!(users.len(), 1);
    assert_eq!(users[0].name, "beta");
}

#[test]
fn collections_environments_settings() {
    let mut s = Storage::new();
    s.create_collection("zeta", None);
    s.create_collection("alpha", Some("first".to_string()));
    assert!(s.add_request_to_collection("alpha", req("r", "https://e.com")).is_ok());
    assert!(matches!(s.add_request_to_collection("nope", req("r", "https://e.com")), Err(TerziError::NotFound(_))));
    let names: Vec<String> = s.list_collections().into_iter().map(|c| c.name).collect();
    assert_eq!(names, vec!["alpha".to_string(), "zeta".to_string()]);
    assert_eq!(s.get_collection("alpha").unwrap().requests.len(), 1);
    assert!(s.delete_collection("zeta"));
    let mut env = Table::new();
    env.insert("host".to_string(), "h".to_string());
    s.save_environment("prod", env.clone());
    s.save_environment("dev", env);
    assert_eq!(s.list_environments(), vec!["dev".to_string(), "prod".to_string()]);
    assert_eq!(s.get_environment("dev").unwrap().get("host").map(|v| v.as_str()), Some("h"));
    assert!(s.delete_environment("dev"));
    s.set_setting("k", "v");
    assert_eq!(s.get_setting("k").as_deref(), Some("v"));
    assert_eq!(s.list_settings().len(), 1);
}

#[test]
fn export_then_replace_import_restores_everything() {
    let mut s = Storage::new();
    s.save_request("a", &req("a", "https://a.com"));
    s.set_setting("k", "v");
    s.record_history(entry(1, 5));
    let exported = s.export_data(true);
    let mut t = Storage::new();
    t.save_request("other", &req("other", "https://o.com"));
    t.import_data(exported, false);
    let d = t.data();
    assert!(d.requests.get("other").is_none());
    assert_eq!(d.requests.get("a").unwrap().url, "https://a.com");
    assert_eq!(d.history.len(), 1);
    assert_eq!(d.settings.get("k").map(|v| v.as_str()), Some("v"));
    assert_eq!(s.export_data(false).history.len(), 0);
}

#[test]
fn merging_import_unions_and_orders_history() {
    let mut s = Storage::new();
    s.set_setting("k", "old");
    s.record_history(entry(1, 50));
    let mut other = Storage::new();
    other.set_setting("k", "new");
    other.set_setting("x", "1");
    other.record_history(entry(2, 10));
    s.import_data(other.export_data(true), true);
    let d = s.data();
    assert_eq!(d.settings.get("k").map(|v| v.as_str()), Some("new"));
    assert_eq!(d.settings.get("x").map(|v| v.as_str()), Some("1"));
    assert_eq!(d.history.iter().map(|e| e.id.as_str()).collect::<Vec<_>>(), vec!["2", "1"]);
}
