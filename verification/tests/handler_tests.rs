use http_framer::request_handler::{
    extract_post_content, extract_response, handle_request, route_to_path, Dispatched, RouteProbe,
};
use http_framer::request_parser::parse_message;
use http_framer::response::StatusCode;
use http_framer::text::parse_u64;
use http_framer::{MemStream, Method};

fn nothing_on_disk() -> RouteProbe {
    RouteProbe {
        root_resolved: true,
        treat_as_dir: false,
        exists: false,
        final_resolved: false,
        inside_root: false,
    }
}

#[test]
fn file_select_404s() {
    let routes = vec!["/foo/../../../../../../../../etc/passwd", "invalidpath"];

    let processed_paths: bool = routes
        .iter()
        .map(|x| route_to_path(String::from(*x), nothing_on_disk()).is_err())
        .all(|x| x);

    assert!(processed_paths)
}

#[test]
fn missing_route_is_not_found() {
    let resp = route_to_path(String::from("/nothing.html"), nothing_on_disk()).unwrap_err();
    assert_eq!(resp.code, StatusCode::_404);
}

#[test]
fn unresolvable_root_is_server_error() {
    let mut probe = nothing_on_disk();
    probe.root_resolved = false;
    let resp = route_to_path(String::from("/index.html"), probe).unwrap_err();
    assert_eq!(resp.code, StatusCode::_500);
}

#[test]
fn escaping_route_is_not_found() {
    let probe = RouteProbe {
        root_resolved: true,
        treat_as_dir: false,
        exists: true,
        final_resolved: true,
        inside_root: false,
    };
    let resp = route_to_path(String::from("/../secret"), probe).unwrap_err();
    assert_eq!(resp.code, StatusCode::_404);
}

#[test]
fn resolved_route_yields_candidate_path() {
    let probe = RouteProbe {
        root_resolved: true,
        treat_as_dir: false,
        exists: true,
        final_resolved: true,
        inside_root: true,
    };
    assert_eq!(
        route_to_path(String::from("/foo.html"), probe).unwrap(),
        "root/foo.html"
    );
    let dir_probe = RouteProbe { treat_as_dir: true, ..probe };
    assert_eq!(route_to_path(String::from("/"), dir_probe).unwrap(), "root/index.html");
    assert_eq!(route_to_path(String::from(""), dir_probe).unwrap(), "root/index.html");
}

#[test]
fn post_without_content_length_is_length_required() {
    let rq = parse_message(MemStream::new(b"POST / HTTP/1.1\r\n\r\nhello".to_vec())).unwrap();
    let resp = extract_post_content(rq).unwrap_err();
    assert_eq!(resp.code, StatusCode::_411);
}

#[test]
fn post_with_two_content_lengths_is_bad_request() {
    let bytes = b"POST / HTTP/1.1\r\nContent-Length: 2\r\nContent-Length: 3\r\n\r\nhello".to_vec();
    let rq = parse_message(MemStream::new(bytes)).unwrap();
    let resp = extract_post_content(rq).unwrap_err();
    assert_eq!(resp.code, StatusCode::_400);
}

#[test]
fn post_with_bad_content_length_is_server_error() {
    let bytes = b"POST / HTTP/1.1\r\nContent-Length: two\r\n\r\nhello".to_vec();
    let rq = parse_message(MemStream::new(bytes)).unwrap();
    let resp = extract_post_content(rq).unwrap_err();
    assert_eq!(resp.code, StatusCode::_500);
    // the blanket fallback body carries no trailing line break
    assert!(resp.body.ends_with("</html>"));
}

#[test]
fn post_content_length_caps_the_body() {
    let bytes = b"POST / HTTP/1.1\r\nContent-Length: 2\r\n\r\nhello".to_vec();
    let rq = parse_message(MemStream::new(bytes)).unwrap();
    let content = extract_post_content(rq).unwrap();
    assert_eq!(content, b"he".to_vec());
}

#[test]
fn dispatch_get_answers_directly() {
    let rq = parse_message(MemStream::new(b"GET / HTTP/1.1\r\n\r\n".to_vec())).unwrap();
    assert_eq!(rq.method, Method::GET);
    match handle_request(rq).unwrap() {
        Dispatched::Done(resp) => {
            assert_eq!(resp.code, StatusCode::_200);
            assert_eq!(resp.body, "");
        },
        Dispatched::Forward(_) => panic!("GET must not forward a body"),
    }
}

#[test]
fn dispatch_post_forwards_the_capped_body() {
    let bytes = b"POST / HTTP/1.1\r\nContent-Length: 4\r\n\r\npayload".to_vec();
    let rq = parse_message(MemStream::new(bytes)).unwrap();
    match handle_request(rq).unwrap() {
        Dispatched::Forward(body) => assert_eq!(body, b"payl".to_vec()),
        Dispatched::Done(_) => panic!("POST must forward its body"),
    }
}

#[test]
fn extract_response_collapses_both_sides() {
    assert_eq!(extract_response::<u32>(Ok(7)), 7);
    assert_eq!(extract_response::<u32>(Err(9)), 9);
}

#[test]
fn parse_u64_accepts_plain_and_signed_digits() {
    assert_eq!(parse_u64("0"), Some(0));
    assert_eq!(parse_u64("123"), Some(123));
    assert_eq!(parse_u64("+5"), Some(5));
    assert_eq!(parse_u64("18446744073709551615"), Some(u64::MAX));
    assert_eq!(parse_u64("18446744073709551616"), None);
    assert_eq!(parse_u64(""), None);
    assert_eq!(parse_u64("+"), None);
    assert_eq!(parse_u64("1a"), None);
    assert_eq!(parse_u64("-1"), None);
}
