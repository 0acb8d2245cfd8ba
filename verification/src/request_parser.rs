//! The framer: turns the raw byte stream of one connection into a structured
//! [`Request`], or into an error [`Response`].
//!
//! Header scanning reads line by line (a line ends at a line feed) under a
//! hard cap of [`HEADER_CAP`] bytes, counting every byte read while searching
//! for the boundary, the bare `\r\n` line that separates headers from the
//! body. A read that ends before the boundary is a structural failure: too
//! large when the cap was consumed, a bad request otherwise. Bytes in the
//! header region that are not valid UTF-8 are a bad request. Whatever follows
//! the boundary is never read here: a POST request carries it as an unread
//! [`Body`].

use vstd::prelude::*;
use vstd::utf8::{decode_utf8, valid_utf8};

use crate::response::{is_error_response, Response, StatusCode};
use crate::text::{
    chars_of, find_char, find_char_exec, split_chars, split_spec, string_of, subvec_chars,
    trim_chars, trim_spec,
};
use crate::{Body, ByteStream, Header, Method, Request, DEFAULT_BODY_LIMIT, HEADER_CAP};

verus! {

/// Length of the first line of `rem` under a byte budget: bytes up to and
/// including the first line feed, but never more than the budget or the
/// stream allows.
pub open spec fn line_len(rem: Seq<u8>, budget: int) -> int
    decreases budget,
{
    if budget <= 0 || rem.len() == 0 {
        0
    } else if rem[0] == 10 {
        1
    } else {
        1 + line_len(rem.drop_first(), budget - 1)
    }
}

pub proof fn lemma_line_len(rem: Seq<u8>, budget: int)
    ensures
        0 <= line_len(rem, budget),
        line_len(rem, budget) <= rem.len(),
        budget >= 0 ==> line_len(rem, budget) <= budget,
        budget < 0 ==> line_len(rem, budget) == 0,
    decreases budget,
{
    if budget > 0 && rem.len() > 0 && rem[0] != 10 {
        lemma_line_len(rem.drop_first(), budget - 1);
    }
}

proof fn lemma_line_len_from(rem: Seq<u8>, budget: int, i: int)
    requires
        0 <= i <= rem.len(),
        i <= budget,
        forall|j: int| 0 <= j < i ==> rem[j] != 10,
    ensures
        line_len(rem, budget) == i + line_len(rem.skip(i), budget - i),
    decreases i,
{
    if i > 0 {
        assert(rem.drop_first() =~= rem.skip(1));
        lemma_line_len_from(rem.skip(1), budget - 1, i - 1);
        assert(rem.skip(1).skip(i - 1) =~= rem.skip(i));
    } else {
        assert(rem.skip(0) =~= rem);
    }
}

/// Outcome of scanning the header region of a byte stream under a budget.
pub enum HeaderScan {
    /// The budget was consumed before the boundary was seen.
    TooLarge,
    /// The stream ended, within budget, before the boundary was seen.
    Closed,
    /// A line before the boundary is not valid UTF-8.
    BadLine,
    /// The boundary was reached: the decoded header-region lines, in stream
    /// order, and the total bytes consumed, boundary included.
    Boundary { lines: Seq<Seq<char>>, consumed: int },
}

/// Scans the header region of `rem` under `budget` bytes: collects decoded
/// lines until the bare `\r\n` boundary line, a structural failure, or
/// exhaustion.
pub open spec fn scan(rem: Seq<u8>, budget: int) -> HeaderScan
    decreases budget,
        via scan_dec
{
    let n = line_len(rem, budget);
    let l = rem.take(n);
    if n == 0 {
        if budget <= 0 {
            HeaderScan::TooLarge
        } else {
            HeaderScan::Closed
        }
    } else if l == seq![13u8, 10u8] {
        HeaderScan::Boundary { lines: seq![], consumed: 2 }
    } else if !valid_utf8(l) {
        HeaderScan::BadLine
    } else {
        match scan(rem.skip(n), budget - n) {
            HeaderScan::Boundary { lines, consumed } => HeaderScan::Boundary {
                lines: seq![decode_utf8(l)] + lines,
                consumed: n + consumed,
            },
            other => other,
        }
    }
}

#[via_fn]
proof fn scan_dec(rem: Seq<u8>, budget: int) {
    lemma_line_len(rem, budget);
}

/// The views of a sequence of strings.
pub open spec fn views_of(lines: Seq<String>) -> Seq<Seq<char>> {
    lines.map_values(|s: String| s@)
}

/// The (name, value) views of a sequence of headers.
pub open spec fn pairs_of(hs: Seq<Header>) -> Seq<(Seq<char>, Seq<char>)> {
    hs.map_values(|h: Header| (h.name@, h.value@))
}

/// The header a line yields: the text before the first colon, unmodified, and
/// the text after it with surrounding whitespace trimmed. A line without a
/// colon yields none.
pub open spec fn header_pair(line: Seq<char>) -> Option<(Seq<char>, Seq<char>)> {
    match find_char(line, ':') {
        Some(i) => Some((line.take(i), trim_spec(line.skip(i + 1)))),
        None => None,
    }
}

/// The headers a sequence of lines yields, stopping early at a bare `\r\n`
/// line; `None` when a line before that lacks a colon.
pub open spec fn headers_spec(lines: Seq<Seq<char>>) -> Option<Seq<(Seq<char>, Seq<char>)>>
    decreases lines.len(),
{
    if lines.len() == 0 {
        Some(seq![])
    } else if lines[0] == "\r\n"@ {
        Some(seq![])
    } else {
        match header_pair(lines[0]) {
            None => None,
            Some(p) => match headers_spec(lines.drop_first()) {
                None => None,
                Some(t) => Some(seq![p] + t),
            },
        }
    }
}

/// Outcome of parsing collected header-region lines.
pub enum LineParse {
    Reject { code: StatusCode },
    Accept {
        method: Method,
        route: Seq<char>,
        version: Seq<char>,
        headers: Seq<(Seq<char>, Seq<char>)>,
    },
}

/// Parses collected lines: the first is the request line, split on single
/// spaces into at least method, route and version (the version trimmed, extra
/// tokens ignored); the rest are headers. A missing line, too few tokens or a
/// colonless header line is a bad request. A method token other than `GET` or
/// `POST` maps to the internal-server-error code: a deliberate, conservative
/// placeholder kept until further methods exist, though an unknown method is
/// arguably a client error.
pub open spec fn parse_request_spec(lines: Seq<Seq<char>>) -> LineParse {
    if lines.len() == 0 {
        LineParse::Reject { code: StatusCode::_400 }
    } else {
        let toks = split_spec(lines[0], ' ');
        if toks.len() < 3 {
            LineParse::Reject { code: StatusCode::_400 }
        } else {
            match headers_spec(lines.drop_first()) {
                None => LineParse::Reject { code: StatusCode::_400 },
                Some(hs) => if toks[0] == "GET"@ {
                    LineParse::Accept {
                        method: Method::GET,
                        route: toks[1],
                        version: trim_spec(toks[2]),
                        headers: hs,
                    }
                } else if toks[0] == "POST"@ {
                    LineParse::Accept {
                        method: Method::POST,
                        route: toks[1],
                        version: trim_spec(toks[2]),
                        headers: hs,
                    }
                } else {
                    LineParse::Reject { code: StatusCode::_500 }
                },
            }
        }
    }
}

/// Outcome of parsing a whole message from the bytes of a connection.
pub enum MessageParse {
    Reject { code: StatusCode },
    Accept {
        method: Method,
        route: Seq<char>,
        version: Seq<char>,
        headers: Seq<(Seq<char>, Seq<char>)>,
        consumed: int,
    },
}

/// What [`parse_message`] returns on a stream whose remaining bytes are
/// `rem`: the scan under [`HEADER_CAP`] bytes followed by line parsing.
pub open spec fn parse_spec(rem: Seq<u8>) -> MessageParse {
    match scan(rem, HEADER_CAP as int) {
        HeaderScan::TooLarge => MessageParse::Reject { code: StatusCode::_431 },
        HeaderScan::Closed => MessageParse::Reject { code: StatusCode::_400 },
        HeaderScan::BadLine => MessageParse::Reject { code: StatusCode::_400 },
        HeaderScan::Boundary { lines, consumed } => match parse_request_spec(lines) {
            LineParse::Reject { code } => MessageParse::Reject { code },
            LineParse::Accept { method, route, version, headers } => MessageParse::Accept {
                method,
                route,
                version,
                headers,
                consumed,
            },
        },
    }
}

/// True when the request carries exactly the parsed fields.
pub open spec fn request_matches<T>(
    req: Request<T>,
    method: Method,
    route: Seq<char>,
    version: Seq<char>,
    headers: Seq<(Seq<char>, Seq<char>)>,
) -> bool {
    &&& req.method == method
    &&& req.route@ == route
    &&& req.version@ == version
    &&& pairs_of(req.headers@) == headers
}

/// Relies on `String::from_utf8`: it returns `Ok` exactly on valid UTF-8
/// bytes, and the returned string's characters are the decoding of those
/// bytes, as vstd's UTF-8 specification models it.
#[verifier::external_body]
fn decode_line(bytes: &Vec<u8>) -> (r: Option<String>)
    ensures
        match r {
            Some(s) => valid_utf8(bytes@) && s@ == decode_utf8(bytes@),
            None => !valid_utf8(bytes@),
        },
{
    match String::from_utf8(bytes.clone()) {
        Ok(s) => Some(s),
        Err(_) => None,
    }
}

/// Reads one line: bytes up to and including the first line feed, stopping
/// early at the byte budget or at end-of-stream.
fn read_header_line<T: ByteStream>(stream: &mut T, budget: usize) -> (r: Vec<u8>)
    ensures
        r@.len() == line_len(old(stream).remaining(), budget as int),
        r@ == old(stream).remaining().take(r@.len() as int),
        final(stream).remaining() == old(stream).remaining().skip(r@.len() as int),
        r@.len() <= budget,
        r@.len() <= old(stream).remaining().len(),
{
    let ghost rem0 = old(stream).remaining();
    let mut out: Vec<u8> = Vec::new();
    loop
        invariant_except_break
            forall|j: int| 0 <= j < out@.len() ==> rem0[j] != 10,
        invariant
            out@.len() <= budget,
            out@.len() <= rem0.len(),
            out@ == rem0.take(out@.len() as int),
            stream.remaining() == rem0.skip(out@.len() as int),
        ensures
            out@.len() == line_len(rem0, budget as int),
        decreases budget - out@.len(),
    {
        if out.len() >= budget {
            proof {
                lemma_line_len_from(rem0, budget as int, out@.len() as int);
            }
            break ;
        }
        match stream.next_byte() {
            None => {
                proof {
                    lemma_line_len_from(rem0, budget as int, out@.len() as int);
                    assert(rem0.skip(out@.len() as int).len() == 0);
                }
                break ;
            },
            Some(b) => {
                proof {
                    assert(rem0.skip(out@.len() as int)[0] == rem0[out@.len() as int]);
                    assert(rem0.take(out@.len() as int + 1) =~= rem0.take(
                        out@.len() as int,
                    ).push(rem0[out@.len() as int]));
                    assert(rem0.skip(out@.len() as int).drop_first() =~= rem0.skip(
                        out@.len() as int + 1,
                    ));
                }
                let ghost prev_len = out@.len() as int;
                out.push(b);
                if b == 10 {
                    proof {
                        lemma_line_len_from(rem0, budget as int, prev_len);
                        assert(rem0.skip(prev_len)[0] == 10);
                        assert(line_len(rem0.skip(prev_len), budget - prev_len) == 1);
                    }
                    break ;
                }
            },
        }
    }
    out
}

/// Splits a line at its first colon: the text before it and the raw text
/// after it. A line without a colon is a bad request.
pub fn split_once(in_string: &str) -> (r: Result<(String, String), StatusCode>)
    ensures
        match find_char(in_string@, ':') {
            Some(i) => r matches Ok(p) && p.0@ == in_string@.take(i) && p.1@ == in_string@.skip(
                i + 1,
            ),
            None => r == Err::<(String, String), StatusCode>(StatusCode::_400),
        },
{
    let v = chars_of(in_string);
    match find_char_exec(&v, ':') {
        Some(i) => {
            proof {
                crate::text::lemma_find_char(in_string@, ':');
            }
            let first = string_of(&subvec_chars(&v, 0, i));
            let second = string_of(&subvec_chars(&v, i + 1, v.len()));
            proof {
                assert(v@.subrange(0, i as int) =~= in_string@.take(i as int));
                assert(v@.subrange(i as int + 1, v@.len() as int) =~= in_string@.skip(i + 1));
            }
            Ok((first, second))
        },
        None => Err(StatusCode::_400),
    }
}

/// Parses collected header-region lines into a request, exactly as
/// [`parse_request_spec`] describes; `body` is attached to a POST request and
/// dropped for GET.
pub fn parse_request<T: ByteStream>(lines: Vec<String>, body: Body<T>) -> (r: Result<
    Request<T>,
    Response,
>)
    ensures
        match parse_request_spec(views_of(lines@)) {
            LineParse::Reject { code } => r matches Err(resp) && is_error_response(resp, code),
            LineParse::Accept { method, route, version, headers } => r matches Ok(req)
                && request_matches(req, method, route, version, headers) && req.body == (
            if method == Method::POST {
                Some(body)
            } else {
                None::<Body<T>>
            }),
        },
{
    let ghost lviews = views_of(lines@);
    if lines.len() == 0 {
        return Err(Response::from(StatusCode::_400));
    }
    let first = chars_of(lines[0].as_str());
    proof {
        assert(lviews[0] == lines@[0]@);
        assert(first@.skip(0) =~= first@);
    }
    let toks = split_chars(&first, 0, ' ');
    let ghost stoks = split_spec(lviews[0], ' ');
    if toks.len() < 3 {
        return Err(Response::from(StatusCode::_400));
    }
    let mut headers: Vec<Header> = Vec::new();
    let mut i: usize = 1;
    loop
        invariant
            lviews == views_of(lines@),
            lviews.len() == lines@.len(),
            lines@.len() >= 1,
            split_spec(lviews[0], ' ').len() >= 3,
            1 <= i <= lines@.len(),
            headers_spec(lviews.skip(1)) == match headers_spec(lviews.skip(i as int)) {
                Some(t) => Some(pairs_of(headers@) + t),
                None => None::<Seq<(Seq<char>, Seq<char>)>>,
            },
        ensures
            headers_spec(lviews.skip(1)) == Some(pairs_of(headers@)),
        decreases lines@.len() - i,
    {
        proof {
            assert(lviews.skip(1).len() == lviews.len() - 1);
        }
        if i == lines.len() {
            proof {
                assert(lviews.skip(i as int).len() == 0);
                assert(pairs_of(headers@) + Seq::<(Seq<char>, Seq<char>)>::empty() =~= pairs_of(
                    headers@,
                ));
            }
            break ;
        }
        let lv = chars_of(lines[i].as_str());
        proof {
            assert(lviews.skip(i as int)[0] == lviews[i as int]);
            assert(lviews[i as int] == lines@[i as int]@);
        }
        if lv.len() == 2 && lv[0] == '\r' && lv[1] == '\n' {
            proof {
                reveal_strlit("\r\n");
                assert(lv@ =~= "\r\n"@);
                assert(headers_spec(lviews.skip(i as int)) == Some(
                    Seq::<(Seq<char>, Seq<char>)>::empty(),
                ));
                assert(pairs_of(headers@) + Seq::<(Seq<char>, Seq<char>)>::empty() =~= pairs_of(
                    headers@,
                ));
            }
            break ;
        }
        proof {
            reveal_strlit("\r\n");
            if lv@ == "\r\n"@ {
                assert(lv@.len() == 2);
                assert(lv@[0] == '\r');
                assert(lv@[1] == '\n');
                assert(false);
            }
        }
        match split_once(lines[i].as_str()) {
            Err(code) => {
                proof {
                    assert(header_pair(lviews[i as int]) is None);
                    assert(headers_spec(lviews.skip(i as int)) is None);
                }
                return Err(Response::from(code));
            },
            Ok((name, raw_value)) => {
                let value = string_of(&trim_chars(&chars_of(raw_value.as_str())));
                let ghost prev = headers@;
                headers.push(Header { name, value });
                proof {
                    let p = header_pair(lviews[i as int])->Some_0;
                    assert(header_pair(lviews[i as int]) == Some((name@, value@)));
                    assert(lviews.skip(i as int).drop_first() =~= lviews.skip(i as int + 1));
                    assert(pairs_of(headers@) =~= pairs_of(prev) + seq![(name@, value@)]);
                    match headers_spec(lviews.skip(i as int + 1)) {
                        Some(t) => {
                            assert(headers_spec(lviews.skip(i as int)) == Some(
                                seq![(name@, value@)] + t,
                            ));
                            assert(pairs_of(prev) + (seq![(name@, value@)] + t) =~= pairs_of(
                                headers@,
                            ) + t);
                        },
                        None => {},
                    }
                }
                i = i + 1;
            },
        }
    }
    let get_lit = chars_of("GET");
    let post_lit = chars_of("POST");
    let is_get = crate::text::chars_eq(&toks[0], &get_lit);
    let is_post = if is_get {
        false
    } else {
        crate::text::chars_eq(&toks[0], &post_lit)
    };
    let route = string_of(&toks[1]);
    let version = string_of(&trim_chars(&toks[2]));
    proof {
        assert(toks@[0]@ == stoks[0]);
        assert(toks@[1]@ == stoks[1]);
        assert(toks@[2]@ == stoks[2]);
        assert(lviews.drop_first() =~= lviews.skip(1));
    }
    if is_get {
        Ok(
            Request {
                method: Method::GET,
                route,
                version,
                headers,
                body: None,
            },
        )
    } else if is_post {
        Ok(
            Request {
                method: Method::POST,
                route,
                version,
                headers,
                body: Some(body),
            },
        )
    } else {
        Err(Response::from(StatusCode::_500))
    }
}

/// Composition of a scan already performed with the scan of the rest of the
/// stream.
pub open spec fn scan_compose(pre: Seq<Seq<char>>, used: int, inner: HeaderScan) -> HeaderScan {
    match inner {
        HeaderScan::Boundary { lines, consumed } => HeaderScan::Boundary {
            lines: pre + lines,
            consumed: used + consumed,
        },
        other => other,
    }
}

proof fn lemma_compose_assoc(a: Seq<Seq<char>>, x: int, b: Seq<Seq<char>>, y: int, inner: HeaderScan)
    ensures
        scan_compose(a, x, scan_compose(b, y, inner)) == scan_compose(a + b, x + y, inner),
{
    match inner {
        HeaderScan::Boundary { lines, consumed } => {
            assert(a + (b + lines) =~= (a + b) + lines);
        },
        _ => {},
    }
}

/// Consumes the header region of the stream and builds the request, exactly
/// as [`parse_spec`] describes; on POST the rest of the stream is handed to
/// the request as an unread body capped at [`DEFAULT_BODY_LIMIT`].
pub fn parse_message<T: ByteStream>(stream: T) -> (r: Result<Request<T>, Response>)
    ensures
        match parse_spec(stream.remaining()) {
            MessageParse::Reject { code } => r matches Err(resp) && is_error_response(resp, code),
            MessageParse::Accept { method, route, version, headers, consumed } => {
                &&& r matches Ok(req)
                &&& request_matches(req, method, route, version, headers)
                &&& match method {
                    Method::GET => req.body is None,
                    Method::POST => {
                        &&& req.body matches Some(b)
                        &&& b.wf()
                        &&& !b.is_ready()
                        &&& b.limit() == DEFAULT_BODY_LIMIT
                        &&& b.handle() matches Some(rest)
                        &&& rest.remaining() == stream.remaining().skip(consumed)
                    },
                }
            },
        },
{
    let mut input = stream;
    let ghost rem0 = input.remaining();
    let mut lines: Vec<String> = Vec::new();
    let mut total: usize = 0;
    proof {
        assert(views_of(lines@) =~= Seq::<Seq<char>>::empty());
        assert(rem0.skip(0) =~= rem0);
        match scan(rem0, HEADER_CAP as int) {
            HeaderScan::Boundary { lines: ls, consumed } => {
                assert(Seq::<Seq<char>>::empty() + ls =~= ls);
            },
            _ => {},
        }
    }
    loop
        invariant_except_break
            input.remaining() == rem0.skip(total as int),
            scan(rem0, HEADER_CAP as int) == scan_compose(
                views_of(lines@),
                total as int,
                scan(input.remaining(), HEADER_CAP as int - total as int),
            ),
        invariant
            rem0 == stream.remaining(),
            total <= HEADER_CAP,
            total <= rem0.len(),
        ensures
            scan(rem0, HEADER_CAP as int) == (HeaderScan::Boundary {
                lines: views_of(lines@),
                consumed: total as int + 2,
            }),
            input.remaining() == rem0.skip(total as int + 2),
        decreases HEADER_CAP - total,
    {
        let ghost rem_i = rem0.skip(total as int);
        let ghost b_i = HEADER_CAP as int - total as int;
        let lb = read_header_line(&mut input, HEADER_CAP - total);
        let ghost n = lb@.len() as int;
        proof {
            assert(rem_i.skip(n) =~= rem0.skip(total as int + n));
        }
        if lb.len() == 0 {
            let code = if total == HEADER_CAP {
                StatusCode::_431
            } else {
                StatusCode::_400
            };
            proof {
                if total == HEADER_CAP {
                    assert(scan(rem_i, b_i) == HeaderScan::TooLarge);
                } else {
                    assert(scan(rem_i, b_i) == HeaderScan::Closed);
                }
            }
            return Err(Response::from(code));
        }
        if lb.len() == 2 && lb[0] == 13 && lb[1] == 10 {
            proof {
                assert(lb@ =~= seq![13u8, 10u8]);
                assert(rem_i.take(n) == lb@);
                assert(scan(rem_i, b_i) == HeaderScan::Boundary {
                    lines: Seq::<Seq<char>>::empty(),
                    consumed: 2,
                });
                assert(views_of(lines@) + Seq::<Seq<char>>::empty() =~= views_of(lines@));
            }
            break ;
        }
        proof {
            if lb@ == seq![13u8, 10u8] {
                assert(lb@.len() == 2);
                assert(lb@[0] == 13);
                assert(lb@[1] == 10);
                assert(false);
            }
        }
        match decode_line(&lb) {
            None => {
                proof {
                    assert(rem_i.take(n) == lb@);
                    assert(scan(rem_i, b_i) == HeaderScan::BadLine);
                }
                return Err(Response::from(StatusCode::_400));
            },
            Some(line) => {
                proof {
                    assert(rem_i.take(n) == lb@);
                    assert(scan(rem_i, b_i) == scan_compose(
                        seq![line@],
                        n,
                        scan(rem_i.skip(n), b_i - n),
                    ));
                    lemma_compose_assoc(
                        views_of(lines@),
                        total as int,
                        seq![line@],
                        n,
                        scan(rem_i.skip(n), b_i - n),
                    );
                    assert(views_of(lines@) + seq![line@] =~= views_of(lines@.push(line)));
                }
                lines.push(line);
                total = total + lb.len();
            },
        }
    }
    let body = Body::new(input);
    parse_request(lines, body)
}

/// For every accepted set of header-region lines, the method, route and
/// version are exactly the literal tokens of the first line split on single
/// spaces, the version additionally trimmed, and the method token reads `GET`
/// or `POST`.
pub proof fn lemma_request_line_tokens(
    lines: Seq<Seq<char>>,
    method: Method,
    route: Seq<char>,
    version: Seq<char>,
    headers: Seq<(Seq<char>, Seq<char>)>,
)
    requires
        parse_request_spec(lines) == (LineParse::Accept { method, route, version, headers }),
    ensures
        lines.len() >= 1,
        split_spec(lines[0], ' ').len() >= 3,
        route == split_spec(lines[0], ' ')[1],
        version == trim_spec(split_spec(lines[0], ' ')[2]),
        split_spec(lines[0], ' ')[0] == "GET"@ || split_spec(lines[0], ' ')[0] == "POST"@,
        method == (if split_spec(lines[0], ' ')[0] == "GET"@ {
            Method::GET
        } else {
            Method::POST
        }),
{
}

/// Header order and content are preserved: the `k`-th header of an accepted
/// parse is exactly what the `k`-th header-region line after the request line
/// yields, the text before its first colon paired with the trimmed text after
/// it.
pub proof fn lemma_header_order(lines: Seq<Seq<char>>, headers: Seq<(Seq<char>, Seq<char>)>, k: int)
    requires
        headers_spec(lines) == Some(headers),
        0 <= k < headers.len(),
    ensures
        k < lines.len(),
        header_pair(lines[k]) == Some(headers[k]),
    decreases k,
{
    assert(lines.len() > 0);
    assert(lines[0] != "\r\n"@);
    let p = header_pair(lines[0])->Some_0;
    let t = headers_spec(lines.drop_first())->Some_0;
    assert(headers == seq![p] + t);
    if k == 0 {
        assert(headers[0] == p);
    } else {
        assert(t =~= headers.drop_first());
        lemma_header_order(lines.drop_first(), headers.drop_first(), k - 1);
        assert(lines.drop_first()[k - 1] == lines[k]);
        assert(headers.drop_first()[k - 1] == headers[k]);
    }
}

/// A stream whose first [`HEADER_CAP`] bytes hold no line feed cannot reach
/// the boundary within the cap: parsing reports the header fields too large,
/// provided those bytes decode (a non-decodable line is a bad request
/// instead).
pub proof fn lemma_header_cap(rem: Seq<u8>)
    requires
        rem.len() >= HEADER_CAP,
        forall|i: int| 0 <= i < HEADER_CAP ==> rem[i] != 10,
        valid_utf8(rem.take(HEADER_CAP as int)),
    ensures
        parse_spec(rem) == (MessageParse::Reject { code: StatusCode::_431 }),
{
    lemma_line_len_from(rem, HEADER_CAP as int, HEADER_CAP as int);
    assert(line_len(rem.skip(HEADER_CAP as int), 0) == 0);
    assert(line_len(rem, HEADER_CAP as int) == HEADER_CAP);
    let l = rem.take(HEADER_CAP as int);
    assert(l.len() == HEADER_CAP);
    assert(l != seq![13u8, 10u8]) by {
        if l == seq![13u8, 10u8] {
            assert(l.len() == 2);
        }
    };
    assert(scan(rem.skip(HEADER_CAP as int), 0) == HeaderScan::TooLarge);
    assert(scan(rem, HEADER_CAP as int) == HeaderScan::TooLarge);
}

} // verus!
