use saba_core::url::Url;

#[test]
fn test_url_host() {
    let url = "http://example.com".to_string();
    let parsed_url = Url::new(url).parse().unwrap();
    assert_eq!(parsed_url.url, "http://example.com");
    assert_eq!(parsed_url.host(), "example.com");
    assert_eq!(parsed_url.port(), "80");
    assert_eq!(parsed_url.path(), "");
    assert_eq!(parsed_url.search_part(), "");
}

#[test]
fn test_url_host_port() {
    let url = "http://example.com:8888".to_string();
    let parsed_url = Url::new(url).parse().unwrap();
    assert_eq!(parsed_url.url, "http://example.com:8888");
    assert_eq!(parsed_url.host(), "example.com");
    assert_eq!(parsed_url.port(), "8888");
    assert_eq!(parsed_url.path(), "");
    assert_eq!(parsed_url.search_part(), "");
}

#[test]
fn test_url_host_port_path() {
    let url = "http://example.com:8888/index.html".to_string();
    let parsed_url = Url::new(url).parse().unwrap();
    assert_eq!(parsed_url.url, "http://example.com:8888/index.html");
    assert_eq!(parsed_url.host(), "example.com");
    assert_eq!(parsed_url.port(), "8888");
    assert_eq!(parsed_url.path(), "index.html");
    assert_eq!(parsed_url.search_part(), "");
}

#[test]
fn test_url_host_path() {
    let url = "http://example.com/index.html".to_string();
    let parsed_url = Url::new(url).parse().unwrap();
    assert_eq!(parsed_url.url, "http://example.com/index.html");
    assert_eq!(parsed_url.host(), "example.com");
    assert_eq!(parsed_url.port(), "80");
    assert_eq!(parsed_url.path(), "index.html");
    assert_eq!(parsed_url.search_part(), "");
}

#[test]
fn test_url_host_port_path_search_query() {
    let url = "http://example.com:8888/index.html?a=123&b=456".to_string();
    let parsed_url = Url::new(url).parse().unwrap();
    assert_eq!(parsed_url.url, "http://example.com:8888/index.html?a=123&b=456");
    assert_eq!(parsed_url.host(), "example.com");
    assert_eq!(parsed_url.port(), "8888");
    assert_eq!(parsed_url.path(), "index.html");
    assert_eq!(parsed_url.search_part(), "a=123&b=456");
}

#[test]
fn test_url_unsupported_scheme_is_rejected() {
    let url = "https://example.com".to_string();
    let mut unparsed = Url::new(url);
    match unparsed.parse() {
        Ok(_) => panic!("a non-http scheme must be rejected"),
        Err(m) => assert_eq!(m, "Only HTTP scheme is supported."),
    }
    assert_eq!(unparsed.host(), "");
}

#[test]
fn test_url_getter_returns_original_text() {
    let parsed_url = Url::new("http://example.com".to_string()).parse().unwrap();
    assert_eq!(parsed_url.url(), "http://example.com");
}

#[test]
fn test_scheme_must_begin_the_address() {
    let mut u = Url::new("ftp://http://example.com".to_string());
    match u.parse() {
        Ok(_) => panic!("an address under another scheme must be rejected"),
        Err(m) => assert_eq!(m, "Only HTTP scheme is supported."),
    }
}
