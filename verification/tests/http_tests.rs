use saba_core::client::HttpClient;
use saba_core::error::Error;
use saba_core::http::HttpResponse;

#[test]
fn test_status_line_only() {
    let raw = "HTTP/1.1 200 OK\n\n".to_string();
    let res = HttpResponse::new(raw).unwrap();
    assert_eq!(res.version(), "HTTP/1.1");
    assert_eq!(res.status_code(), 200);
    assert_eq!(res.reason(), "OK");
    assert_eq!(res.headers().len(), 0);
    assert_eq!(res.body(), "");
}

#[test]
fn test_one_header() {
    let raw = "HTTP/1.1 200 OK\nDate:xx xx xx\n\nbody message".to_string();
    let res = HttpResponse::new(raw).unwrap();
    assert_eq!(res.version(), "HTTP/1.1");
    assert_eq!(res.status_code(), 200);
    assert_eq!(res.header_value("Date").unwrap(), "xx xx xx");
    assert_eq!(res.body(), "body message");
}

#[test]
fn test_two_headers_with_whitespace() {
    let raw = "HTTP/1.1 200 OK\nDate: xx xx xx \nContent-Length: 42\n\nbody".to_string();
    let res = HttpResponse::new(raw).unwrap();
    assert_eq!(res.headers().len(), 2);
    assert_eq!(res.header_value("Date").unwrap(), "xx xx xx");
    assert_eq!(res.header_value("Content-Length").unwrap(), "42");
}

#[test]
fn test_invalid_response_without_separator() {
    let raw = "HTTP/1.1 200 OK".to_string();
    match HttpResponse::new(raw) {
        Ok(_) => panic!("a response without a blank-line separator must fail"),
        Err(Error::Network(m)) => {
            assert_eq!(m, "invalid http response: HTTP/1.1 200 OK");
        }
    }
}

#[test]
fn test_short_status_line_is_rejected() {
    let raw = "HTTP/1.1 200\n\nbody".to_string();
    assert!(HttpResponse::new(raw).is_err());
}

#[test]
fn test_header_without_colon_is_rejected() {
    let raw = "HTTP/1.1 200 OK\nbroken header line\n\nbody".to_string();
    assert!(HttpResponse::new(raw).is_err());
}

#[test]
fn test_unparsable_status_code_falls_back() {
    let raw = "HTTP/1.1 abc OK\n\n".to_string();
    let res = HttpResponse::new(raw).unwrap();
    assert_eq!(res.status_code(), 404);
    let raw = "HTTP/1.1 123456 OK\n\n".to_string();
    let res = HttpResponse::new(raw).unwrap();
    assert_eq!(res.status_code(), 404);
}

#[test]
fn test_missing_header_reports_name() {
    let raw = "HTTP/1.1 200 OK\nDate:xx\n\n".to_string();
    let res = HttpResponse::new(raw).unwrap();
    match res.header_value("Host") {
        Ok(_) => panic!("the Host header is not there"),
        Err(m) => assert_eq!(m, "failed to find Host in headers"),
    }
}

#[test]
fn test_crlf_line_endings_are_normalised() {
    let raw = "HTTP/1.1 200 OK\r\nDate:1\r\n\r\nbody message".to_string();
    let res = HttpResponse::new(raw).unwrap();
    assert_eq!(res.header_value("Date").unwrap(), "1");
    assert_eq!(res.body(), "body message");
}

#[test]
fn test_request_message_text() {
    let client = HttpClient::new();
    let msg = client.request_message("example.com", "index.html");
    assert_eq!(
        msg,
        "GET /index.html HTTP/1.1\nHost: example.com\nAccept: text/html\nConnection: close\n\n"
    );
}
