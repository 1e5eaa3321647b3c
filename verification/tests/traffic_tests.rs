use logux::traffic::TrafficState;
use std::collections::HashMap;

#[test]
fn requests_get_increasing_ids_and_responses() {
    let mut s = TrafficState::new();
    let a = s.add_request("GET", "http://a/x", "a", "/x", HashMap::new(), Vec::new());
    let b = s.add_request("POST", "http://b/y", "b", "/y", HashMap::new(), b"payload".to_vec());
    assert_eq!((a, b), (1, 2));
    s.set_response(b, 201, HashMap::new(), b"done".to_vec());
    s.set_response(99, 200, HashMap::new(), Vec::new());
    assert_eq!(s.get_entry(b).unwrap().status, Some(201));
    assert!(s.get_entry(3).is_none());
}

#[test]
fn filter_narrows_the_listing() {
    let mut s = TrafficState::new();
    s.add_request("GET", "http://api.example.com/users", "api.example.com", "/users", HashMap::new(), Vec::new());
    s.add_request("POST", "http://cdn.other.net/img", "cdn.other.net", "/img", HashMap::new(), Vec::new());
    assert_eq!(s.get_filtered(10).len(), 2);
    s.filter.host = "EXAMPLE".to_string();
    let shown = s.get_filtered(10);
    assert_eq!(shown.len(), 1);
    assert_eq!(shown[0].path, "/users");
    s.filter.reset();
    assert_eq!(s.get_filtered(1).len(), 1);
    assert_eq!(s.get_filtered(1)[0].id, 2);
}

#[test]
fn clear_drops_everything() {
    let mut s = TrafficState::new();
    s.add_request("GET", "u", "h", "/", HashMap::new(), Vec::new());
    s.clear();
    assert_eq!(s.get_filtered(10).len(), 0);
    assert!(s.get_entry(1).is_none());
}

#[test]
fn body_search_looks_at_both_bodies() {
    let mut s = TrafficState::new();
    let id = s.add_request("GET", "u", "h", "/", HashMap::new(), b"needle".to_vec());
    s.add_request("GET", "u", "h", "/", HashMap::new(), b"hay".to_vec());
    s.filter.body_search = "NEEDLE".to_string();
    let shown = s.get_filtered(10);
    assert_eq!(shown.len(), 1);
    assert_eq!(shown[0].id, id);
}

#[test]
fn inspect_lists_headers_and_bodies() {
    let mut s = TrafficState::new();
    let mut h = HashMap::new();
    h.insert("Accept".to_string(), "text/plain".to_string());
    let id = s.add_request("GET", "http://a/x", "a", "/x", h, b"ping".to_vec());
    s.set_response(id, 200, HashMap::new(), b"pong".to_vec());
    let mut out = Vec::new();
    s.inspect("1", &mut out);
    assert_eq!(out[0], "\x1b[1m--- Traffic #1 ---\x1b[0m");
    assert_eq!(out[1], "\x1b[1mGET\x1b[0m http://a/x");
    assert_eq!(out[2], "Status: 200");
    assert!(out.contains(&"  Accept: text/plain".to_string()));
    assert!(out.contains(&"ping".to_string()));
    assert!(out.contains(&"pong".to_string()));
}

#[test]
fn requests_are_stamped_with_the_time_of_day() {
    let mut s = TrafficState::new();
    let id = s.add_request("GET", "http://a/x", "a", "/x", HashMap::new(), Vec::new());
    let ts: Vec<char> = s.get_entry(id).unwrap().timestamp.chars().collect();
    assert_eq!(ts.len(), 12);
    assert_eq!((ts[2], ts[5], ts[8]), (':', ':', '.'));
    for (i, c) in ts.iter().enumerate() {
        if i != 2 && i != 5 && i != 8 {
            assert!(c.is_ascii_digit());
        }
    }
    let two = |i: usize| ts[i].to_digit(10).unwrap() * 10 + ts[i + 1].to_digit(10).unwrap();
    assert!(two(0) <= 23 && two(3) <= 59 && two(6) <= 60);
}
