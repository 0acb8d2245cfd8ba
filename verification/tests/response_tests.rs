use http_framer::response::{
    code_to_html, code_to_str, internal_server_error, make_error, message_to_html, to_string,
    Response, StatusCode,
};
use http_framer::{empty_body, Body, MemStream};

#[test]
fn serialize_round_trip() {
    let wire = to_string(Response {
        code: StatusCode::_200,
        headers: vec![],
        body: String::from("hi"),
    });
    assert_eq!(wire, "HTTP/1.1 200 - OK\r\n\r\nhi\r\n");
}

#[test]
fn reason_text_is_canonical() {
    assert_eq!(code_to_str(&StatusCode::_200), "200 - OK");
    assert_eq!(code_to_str(&StatusCode::_400), "400 - Bad Request");
    assert_eq!(code_to_str(&StatusCode::_404), "404 - Not Found");
    assert_eq!(code_to_str(&StatusCode::_411), "411 - Length Required");
    assert_eq!(code_to_str(&StatusCode::_431), "431 - Request Header Fields Too Large");
    assert_eq!(code_to_str(&StatusCode::_500), "500 - Internal Server Error");
}

#[test]
fn html_wraps_message_twice() {
    assert_eq!(
        message_to_html("hello"),
        "<!DOCTYPE html><html lang=\"en\"><head><meta charset=\"UTF-8\"><title>hello</title></head><body><h1>hello</h1></body></html>"
    );
}

#[test]
fn error_responses_carry_their_code() {
    let resp = make_error(StatusCode::_404);
    assert_eq!(resp.code, StatusCode::_404);
    assert_eq!(resp.body, code_to_html(&StatusCode::_404));
    assert!(resp.headers.is_empty());
    let ise = internal_server_error();
    assert_eq!(ise.code, StatusCode::_500);
}

#[test]
fn from_code_appends_line_break() {
    let resp = Response::from(StatusCode::_431);
    assert_eq!(resp.code, StatusCode::_431);
    assert_eq!(resp.body, code_to_html(&StatusCode::_431) + "\r\n");
}

#[test]
fn materialize_is_idempotent_and_capped() {
    let mut body = Body::new(MemStream::new(b"abcdef".to_vec()));
    body.set_limit(4);
    let first = body.get();
    let second = body.get();
    assert_eq!(first, b"abcd".to_vec());
    assert_eq!(first, second);
    assert!(body.ready());
}

#[test]
fn body_equality_needs_ready_bodies() {
    let mut a = Body::new(MemStream::new(b"same".to_vec()));
    let mut b = Body::new(MemStream::new(b"same".to_vec()));
    a.get();
    b.get();
    assert!(a.eq(&b));
    assert!(!a.ne(&b));
    let empty = empty_body::<MemStream>();
    assert!(!a.eq(&empty));
}

#[test]
fn empty_body_is_ready_and_empty() {
    let mut e = empty_body::<MemStream>();
    assert!(e.ready());
    assert_eq!(e.get(), Vec::<u8>::new());
}
