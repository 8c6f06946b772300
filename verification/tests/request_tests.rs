use mws::headers::HeaderMap;
use mws::parse::parse_request;
use mws::request::Request;

fn request_with(entries: &[(&str, &str)]) -> Request {
    let mut headers = HeaderMap::new();
    for (k, v) in entries {
        headers.insert(k.to_string(), v.to_string());
    }
    Request {
        method: "GET".to_string(),
        path: "/".to_string(),
        version: "HTTP/1.1".to_string(),
        headers,
        body: Vec::new(),
        peer_addr: "198.51.100.7".to_string(),
    }
}

#[test]
fn get_header_is_case_insensitive() {
    let input = b"GET / HTTP/1.1\r\nContent-Type: text/plain\r\n\r\n".to_vec();
    let (req, _) = parse_request(&input, "198.51.100.7".to_string()).unwrap();
    assert_eq!(req.get_header("content-type"), Some("text/plain".to_string()));
    assert_eq!(req.get_header("CONTENT-TYPE"), Some("text/plain".to_string()));
    assert_eq!(req.get_header("Content-Type"), Some("text/plain".to_string()));
    assert_eq!(req.get_header("content-typo"), None);
}

#[test]
fn get_header_finds_first_match_in_order() {
    let req = request_with(&[("X-One", "a"), ("x-one", "b")]);
    assert_eq!(req.get_header("X-ONE"), Some("a".to_string()));
}

#[test]
fn real_ip_caller_list_wins_over_builtin() {
    let req = request_with(&[("X-Forwarded-For", "1.2.3.4"), ("cf-connecting-ip", "5.6.7.8")]);
    let ip = req.get_real_ip(Some(vec!["X-Forwarded-For"]));
    assert_eq!(ip, "1.2.3.4");
}

#[test]
fn real_ip_caller_list_is_matched_exactly() {
    // The caller-supplied names are looked up as stored, so a
    // differently-cased stored key is not found and the built-in
    // order takes over.
    let req = request_with(&[("x-forwarded-for", "1.2.3.4"), ("cf-connecting-ip", "5.6.7.8")]);
    let ip = req.get_real_ip(Some(vec!["X-Forwarded-For"]));
    assert_eq!(ip, "5.6.7.8");
}

#[test]
fn real_ip_caller_list_in_order() {
    let req = request_with(&[("B", "second"), ("A", "first")]);
    assert_eq!(req.get_real_ip(Some(vec!["A", "B"])), "first");
    assert_eq!(req.get_real_ip(Some(vec!["B", "A"])), "second");
}

#[test]
fn real_ip_cdn_header_before_generic() {
    let req = request_with(&[("X-Real-IP", "9.9.9.9"), ("CF-Connecting-IP", "5.6.7.8")]);
    assert_eq!(req.get_real_ip(None), "5.6.7.8");
}

#[test]
fn real_ip_generic_header_when_no_cdn() {
    let req = request_with(&[("x-real-ip", "9.9.9.9")]);
    assert_eq!(req.get_real_ip(None), "9.9.9.9");
}

#[test]
fn real_ip_falls_back_to_peer_address() {
    let req = request_with(&[("Host", "example.org")]);
    assert_eq!(req.get_real_ip(None), "198.51.100.7");
    let req2 = request_with(&[]);
    assert_eq!(req2.get_real_ip(Some(vec!["X-Forwarded-For"])), "198.51.100.7");
}

#[test]
fn header_map_insert_and_lookup() {
    let mut headers = HeaderMap::new();
    assert_eq!(headers.len(), 0);
    headers.insert("Alpha".to_string(), "1".to_string());
    headers.insert("Beta".to_string(), "2".to_string());
    headers.insert("Alpha".to_string(), "3".to_string());
    assert_eq!(headers.len(), 2);
    assert_eq!(headers.get("Alpha"), Some("3".to_string()));
    assert_eq!(headers.get("alpha"), None);
    assert_eq!(headers.get_ci("alpha"), Some("3".to_string()));
    assert_eq!(headers.entry_at(0), ("Alpha".to_string(), "3".to_string()));
    assert_eq!(headers.entry_at(1), ("Beta".to_string(), "2".to_string()));
}
