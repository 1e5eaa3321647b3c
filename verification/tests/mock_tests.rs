use logux::mock::{file_body, MatchRule, MockBody, MockEngine, MockResponse, MockRuleData};

fn sample_rules() -> Vec<MockRuleData> {
    let mut m1 = MatchRule::default();
    m1.method = "GET".to_string();
    m1.path = "/api/test".to_string();
    let mut r1 = MockResponse::default();
    r1.resp_type = "json".to_string();
    r1.status = 200;
    r1.body = "{\"ok\": true}".to_string();
    let mut m2 = MatchRule::default();
    m2.path = "/api/other".to_string();
    let mut r2 = MockResponse::default();
    r2.resp_type = "error".to_string();
    r2.status = 500;
    vec![
        MockRuleData {
            id: "test_mock".to_string(),
            enabled: true,
            priority: 10,
            match_: None,
            match_field: Some(m1),
            response: r1,
        },
        MockRuleData {
            id: "disabled_mock".to_string(),
            enabled: false,
            priority: 0,
            match_: None,
            match_field: Some(m2),
            response: r2,
        },
    ]
}

fn loaded() -> MockEngine {
    let mut engine = MockEngine::new();
    engine.load_rules(sample_rules(), "/tmp/rules.yaml", 100);
    engine
}

#[test]
fn test_load_rules() {
    let mut engine = MockEngine::new();
    let msg = engine.load_rules(sample_rules(), "/tmp/rules.yaml", 100);
    assert_eq!(msg, "Loaded 2 rules");
    assert_eq!(engine.rules.len(), 2);
}

#[test]
fn test_priority_order() {
    let engine = loaded();
    assert_eq!(engine.rules[0].id, "test_mock");
    assert_eq!(engine.rules[0].priority, 10);
}

#[test]
fn test_enable_disable() {
    let mut engine = loaded();
    assert!(engine.disable_rule("test_mock"));
    assert!(!engine.get_rule("test_mock").unwrap().enabled);
    assert!(engine.enable_rule("test_mock"));
    assert!(engine.get_rule("test_mock").unwrap().enabled);
    assert!(!engine.enable_rule("nonexistent"));
}

#[test]
fn test_match_request() {
    let mut engine = loaded();
    let result = engine.match_request("GET", "/api/test", "example.com");
    assert!(result.is_some());
    let (status, body) = result.unwrap();
    assert_eq!(status, 200);
    match body {
        MockBody::Text(t) => assert!(t.contains("ok")),
        MockBody::File { .. } => panic!("expected a text body"),
    }
}

#[test]
fn test_disabled_not_matched() {
    let mut engine = loaded();
    let result = engine.match_request("GET", "/api/other", "example.com");
    assert!(result.is_none());
}

#[test]
fn test_reload() {
    let engine = loaded();
    assert_eq!(engine.reload(), Ok("/tmp/rules.yaml".to_string()));
}

#[test]
fn reload_without_file_is_an_error() {
    let engine = MockEngine::new();
    assert_eq!(engine.reload(), Err("No rules file loaded".to_string()));
}

#[test]
fn match_counts_hits_and_ignores_method_case() {
    let mut engine = loaded();
    assert!(engine.match_request("get", "/api/test/1", "x").is_some());
    assert!(engine.match_request("POST", "/api/test", "x").is_none());
    assert_eq!(engine.get_rule("test_mock").unwrap().hit_count, 1);
}

#[test]
fn error_rule_answers_error_body() {
    let mut engine = loaded();
    assert!(engine.enable_rule("disabled_mock"));
    let (status, body) = engine.match_request("GET", "/api/other", "h").unwrap();
    assert_eq!(status, 500);
    assert_eq!(body, MockBody::Text("{\"error\": \"Mocked error\", \"status\": 500}".to_string()));
}

#[test]
fn equal_priorities_keep_file_order() {
    let mut rules = sample_rules();
    rules[0].priority = 0;
    let mut engine = MockEngine::new();
    engine.load_rules(rules, "r.yaml", 1);
    assert_eq!(engine.rules[0].id, "test_mock");
    assert_eq!(engine.rules[1].id, "disabled_mock");
}

#[test]
fn hot_reload_only_when_newer() {
    let engine = loaded();
    assert!(engine.check_hot_reload(Some(101)));
    assert!(!engine.check_hot_reload(Some(100)));
    assert!(!engine.check_hot_reload(None));
    assert!(!MockEngine::new().check_hot_reload(Some(5)));
}

#[test]
fn disable_then_enable_restores_matching() {
    let mut engine = loaded();
    engine.disable_rule("test_mock");
    assert!(engine.match_request("GET", "/api/test", "h").is_none());
    engine.enable_rule("test_mock");
    assert!(engine.match_request("GET", "/api/test", "h").is_some());
}

#[test]
fn rule_list_has_header_and_rows() {
    let engine = loaded();
    let mut out = Vec::new();
    engine.list_lines(&mut out);
    assert!(out.len() >= 3);
    assert!(out.iter().any(|l| l.contains("test_mock")));
}

fn file_rule(file: &str) -> Vec<MockRuleData> {
    let mut m = MatchRule::default();
    m.path = "/api/users/123".to_string();
    let mut r = MockResponse::default();
    r.resp_type = "file".to_string();
    r.status = 200;
    r.file = file.to_string();
    vec![MockRuleData {
        id: "profile".to_string(),
        enabled: true,
        priority: 0,
        match_: None,
        match_field: Some(m),
        response: r,
    }]
}

#[test]
fn relative_mock_file_is_read_beside_the_rules_file() {
    let mut engine = MockEngine::new();
    engine.load_rules(file_rule("mocks/profile_123.json"), "/home/dev/rules.yaml", 1);
    let (status, body) = engine.match_request("GET", "/api/users/123", "h").unwrap();
    assert_eq!(status, 200);
    assert_eq!(
        body,
        MockBody::File {
            path: "/home/dev/mocks/profile_123.json".to_string(),
            name: "mocks/profile_123.json".to_string(),
        }
    );
}

#[test]
fn absolute_mock_file_is_read_as_named() {
    let mut engine = MockEngine::new();
    engine.load_rules(file_rule("/data/p.json"), "/home/dev/rules.yaml", 1);
    assert_eq!(engine.resolve_file("/data/p.json"), "/data/p.json");
    assert_eq!(engine.resolve_file("p.json"), "/home/dev/p.json");
}

#[test]
fn mock_file_without_rules_file_or_directory() {
    let engine = MockEngine::new();
    assert_eq!(engine.resolve_file("p.json"), "p.json");
    let mut beside = MockEngine::new();
    beside.load_rules(Vec::new(), "rules.yaml", 1);
    assert_eq!(beside.resolve_file("p.json"), "p.json");
}

#[test]
fn unreadable_mock_file_answers_an_error_object() {
    assert_eq!(
        file_body("mocks/x.json", None),
        "{\"error\": \"Mock file not found: mocks/x.json\"}"
    );
    assert_eq!(file_body("mocks/x.json", Some("{\"id\": 1}".to_string())), "{\"id\": 1}");
}
