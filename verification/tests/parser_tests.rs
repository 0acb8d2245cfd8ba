use http_framer::request_parser::{parse_message, parse_request};
use http_framer::response::StatusCode;
use http_framer::{empty_body, Header, MemStream, Method};

#[test]
fn test_parser() {
    let rv = parse_request(
        vec![String::from("GET / HTTP/1.1")],
        empty_body::<MemStream>(),
    )
    .unwrap();
    assert_eq!(rv.method, Method::GET);
    assert_eq!(rv.route, String::from("/"));
    assert_eq!(rv.version, String::from("HTTP/1.1"));
    assert_eq!(rv.headers, vec![]);
    assert!(rv.body.is_none());
}

#[test]
fn test_get_message_with_big_request() {
    let big_request = "GET / HTTP/1.1\r\nHost: localhost:8080\r\nUser-Agent: Mozilla/5.0 (X11; Linux x86_64; rv:78.0) Gecko/20100101 Firefox/78.0\r\nAccept: text/html,application/xhtml+xml,application/xml;q=0.9,image/webp,*/*;q=0.8\r\nAccept-Language: en-GB,en;q=0.5\r\nAccept-Encoding: gzip, deflate\r\nConnection: keep-alive\r\nCookie: org.cups.sid=6a308215f6018e9104005ccdb4ea73c5\r\nUpgrade-Insecure-Requests: 1\r\n\r\n";

    let rv = parse_message(MemStream::new(big_request.as_bytes().to_vec())).unwrap();
    assert_eq!(rv.method, Method::GET);
    assert_eq!(rv.route, String::from("/"));
    assert_eq!(rv.version, String::from("HTTP/1.1"));
    let expected = vec![
        Header { name: String::from("Host"), value: String::from("localhost:8080") },
        Header {
            name: String::from("User-Agent"),
            value: String::from("Mozilla/5.0 (X11; Linux x86_64; rv:78.0) Gecko/20100101 Firefox/78.0"),
        },
        Header {
            name: String::from("Accept"),
            value: String::from("text/html,application/xhtml+xml,application/xml;q=0.9,image/webp,*/*;q=0.8"),
        },
        Header { name: String::from("Accept-Language"), value: String::from("en-GB,en;q=0.5") },
        Header { name: String::from("Accept-Encoding"), value: String::from("gzip, deflate") },
        Header { name: String::from("Connection"), value: String::from("keep-alive") },
        Header {
            name: String::from("Cookie"),
            value: String::from("org.cups.sid=6a308215f6018e9104005ccdb4ea73c5"),
        },
        Header { name: String::from("Upgrade-Insecure-Requests"), value: String::from("1") },
    ];
    assert_eq!(rv.headers, expected);
    assert!(rv.body.is_none());
}

#[test]
fn requests_with_long_headers_error() {
    let long_message = vec![b'A'; 9001];
    let rv = parse_message(MemStream::new(long_message));
    assert!(rv.is_err());
    assert_eq!(rv.unwrap_err().code, StatusCode::_431)
}

#[test]
fn requests_with_long_body_is_fine() {
    let mut base = "POST / HTTP/1.1\r\n\r\n".to_string();
    let body = "A".repeat(9001);
    base.push_str(&body);
    let rv = parse_message(MemStream::new(base.into_bytes()));
    assert!(rv.is_ok());
}

#[test]
fn request_with_invalid_utf8_body_is_fine() {
    let request_bytes = b"POST / HTTP/1.1\r\n\r\n\xc3\x28";
    let rv = parse_message(MemStream::new(request_bytes.to_vec()));
    assert!(rv.is_ok());
}

#[test]
fn request_with_invalid_utf8_headers_errors() {
    let request_bytes = b"POST / HTTP/1.1\r\n\xc3\x28\r\n\r\n";
    let rv = parse_message(MemStream::new(request_bytes.to_vec()));
    assert!(rv.is_err());
    assert_eq!(rv.unwrap_err().code, StatusCode::_400)
}

#[test]
fn invalid_methods_error() {
    let request_bytes = b"FHQWHGAD / HTTP/1.1\r\n\r\n";
    let rv = parse_message(MemStream::new(request_bytes.to_vec()));
    assert!(rv.is_err());
    assert_eq!(rv.unwrap_err().code, StatusCode::_500)
}

#[test]
fn header_order_is_preserved() {
    let rv = parse_message(MemStream::new(b"GET / HTTP/1.1\r\nHost: a\r\nX: b\r\n\r\n".to_vec()))
        .unwrap();
    let expected = vec![
        Header { name: String::from("Host"), value: String::from("a") },
        Header { name: String::from("X"), value: String::from("b") },
    ];
    assert_eq!(rv.headers, expected);
}

#[test]
fn boundary_alone_yields_empty_request() {
    let rv = parse_message(MemStream::new(b"GET / HTTP/1.1\r\n\r\n".to_vec())).unwrap();
    assert_eq!(rv.method, Method::GET);
    assert_eq!(rv.headers, vec![]);
    assert!(rv.body.is_none());
}

#[test]
fn invalid_utf8_body_stays_raw_bytes() {
    let rv = parse_message(MemStream::new(b"POST / HTTP/1.1\r\n\r\n\xc3\x28".to_vec())).unwrap();
    let mut body = rv.body.unwrap();
    let bytes = body.get();
    assert_eq!(bytes, vec![0xc3u8, 0x28u8]);
}

#[test]
fn empty_stream_is_premature_close() {
    let rv = parse_message(MemStream::new(Vec::new()));
    assert_eq!(rv.unwrap_err().code, StatusCode::_400);
}

#[test]
fn missing_tokens_are_bad_request() {
    let rv = parse_message(MemStream::new(b"GET /\r\n\r\n".to_vec()));
    assert_eq!(rv.unwrap_err().code, StatusCode::_400);
}

#[test]
fn colonless_header_is_bad_request() {
    let rv = parse_message(MemStream::new(b"GET / HTTP/1.1\r\nnocolonhere\r\n\r\n".to_vec()));
    assert_eq!(rv.unwrap_err().code, StatusCode::_400);
}

#[test]
fn parse_errors_carry_html_bodies() {
    let resp = parse_message(MemStream::new(Vec::new())).unwrap_err();
    assert_eq!(
        resp.body,
        "<!DOCTYPE html><html lang=\"en\"><head><meta charset=\"UTF-8\"><title>400 - Bad Request</title></head><body><h1>400 - Bad Request</h1></body></html>\r\n"
    );
}

#[test]
fn split_once_splits_at_first_colon() {
    let (name, value) = http_framer::request_parser::split_once("Host: a:b").unwrap();
    assert_eq!(name, "Host");
    assert_eq!(value, " a:b");
    let missing = http_framer::request_parser::split_once("no colon");
    assert_eq!(missing.unwrap_err(), StatusCode::_400);
}

#[test]
fn immediate_boundary_is_bad_request() {
    let rv = parse_message(MemStream::new(b"\r\n".to_vec()));
    assert_eq!(rv.unwrap_err().code, StatusCode::_400);
}

#[test]
fn get_never_carries_a_body() {
    let rv = parse_message(MemStream::new(b"GET / HTTP/1.1\r\n\r\nleftover".to_vec())).unwrap();
    assert_eq!(rv.method, Method::GET);
    assert!(rv.body.is_none());
}
