use rust_web_server::uri::{format_uri, parse_uri, QueryParams};

#[test]
fn test_parse_uri_with_query() {
    let (path, query) = parse_uri("/api/users?name=John").unwrap();
    assert_eq!(("/api/users", &vec![("name".to_string(), "John".to_string())]), (path.as_str(), query.get_all()));
    assert_eq!(("/api/users", &"John".to_string()), (path.as_str(), query.get("name").unwrap()));
}

#[test]
fn test_parse_uri_no_query() {
    let (path, query) = parse_uri("/api/users").unwrap();
    assert_eq!(("/api/users", &Vec::new()), (path.as_str(), query.get_all()));
    assert_eq!(("/api/users", None), (path.as_str(), query.get("")));
}

#[test]
fn test_parse_uri_empty_query() {
    let (path, query) = parse_uri("/api/users?").unwrap();
    assert_eq!(("/api/users", &Vec::new()), (path.as_str(), query.get_all()));
    assert_eq!(("/api/users", None), (path.as_str(), query.get("")));
}

fn pairs(v: &[(&str, &str)]) -> Vec<(String, String)> {
    v.iter().map(|(a, b)| (a.to_string(), b.to_string())).collect()
}

#[test]
fn query_keeps_order_and_duplicates() {
    let (path, query) = parse_uri("/s?a=1&b=2&a=3").unwrap();
    assert_eq!(path, "/s");
    assert_eq!(query.get_all(), &pairs(&[("a", "1"), ("b", "2"), ("a", "3")]));
    assert_eq!(query.get("a").unwrap(), "1");
    assert_eq!(query.get("c"), None);
}

#[test]
fn query_element_without_equals_is_a_name() {
    let (_, query) = parse_uri("/s?flag&x=1").unwrap();
    assert_eq!(query.get_all(), &pairs(&[("flag", ""), ("x", "1")]));
}

#[test]
fn query_value_splits_on_first_equals_only() {
    let (_, query) = parse_uri("/s?k=a=b").unwrap();
    assert_eq!(query.get_all(), &pairs(&[("k", "a=b")]));
}

#[test]
fn query_is_not_decoded() {
    let (_, query) = parse_uri("/s?q=a%20b+c").unwrap();
    assert_eq!(query.get("q").unwrap(), "a%20b+c");
}

#[test]
fn only_first_question_mark_splits() {
    let (path, query) = parse_uri("/p?a=b?c").unwrap();
    assert_eq!(path, "/p");
    assert_eq!(query.get_all(), &pairs(&[("a", "b?c")]));
    assert!(!path.contains('?'));
}

#[test]
fn parsed_uri_reassembles() {
    let u = "/search?q=cats&page=2";
    let (path, query) = parse_uri(u).unwrap();
    assert_eq!(format_uri(&path, &query), u);
}

#[test]
fn format_then_parse_round_trips() {
    let params = QueryParams { items: pairs(&[("q", "cats"), ("page", "2"), ("", "")]) };
    let u = format_uri("/search", &params);
    assert_eq!(u, "/search?q=cats&page=2&=");
    let (path, back) = parse_uri(&u).unwrap();
    assert_eq!(path, "/search");
    assert_eq!(back.get_all(), &params.items);
}

#[test]
fn format_without_params_is_the_path() {
    assert_eq!(format_uri("/a/b", &QueryParams::new()), "/a/b");
}
