//! The request-handling seam: method dispatch, the `Content-Length`
//! discipline for POST bodies, and the route-to-path decision for the
//! (currently inactive) file-serving collaborator.
//!
//! The business behavior behind the seam, serving files and forwarding POST
//! payloads, belongs to external handlers around the library: this module
//! holds only the decisions the framer's data model pins down.

use vstd::prelude::*;

use crate::response::{
    internal_server_error, is_error_response, is_plain_error, Response, StatusCode,
};
use crate::text::{chars_eq, chars_of, parse_u64, parse_u64_spec, string_of};
use crate::{capped, Body, ByteStream, Header, Method, Request};

verus! {

/// Collapses a `Result` whose success and failure sides carry the same type
/// into that single value.
pub fn extract_response<T>(thing: Result<T, T>) -> (r: T)
    ensures
        r == match thing {
            Ok(x) => x,
            Err(x) => x,
        },
{
    match thing {
        Ok(x) => x,
        Err(x) => x,
    }
}

/// The values of the `Content-Length` headers, in order. Names are compared
/// case-sensitively, exactly as the parser stores them.
pub open spec fn cl_matches(headers: Seq<Header>) -> Seq<Seq<char>>
    decreases headers.len(),
{
    if headers.len() == 0 {
        seq![]
    } else {
        let rest = cl_matches(headers.drop_first());
        if headers[0].name@ == "Content-Length"@ {
            seq![headers[0].value@] + rest
        } else {
            rest
        }
    }
}

proof fn lemma_cl_push(headers: Seq<Header>, h: Header)
    ensures
        cl_matches(headers.push(h)) == cl_matches(headers) + (if h.name@ == "Content-Length"@ {
            seq![h.value@]
        } else {
            Seq::<Seq<char>>::empty()
        }),
    decreases headers.len(),
{
    let tail = if h.name@ == "Content-Length"@ {
        seq![h.value@]
    } else {
        Seq::<Seq<char>>::empty()
    };
    if headers.len() == 0 {
        assert(headers.push(h)[0] == h);
        assert(headers.push(h).drop_first() =~= Seq::<Header>::empty());
        assert(cl_matches(Seq::<Header>::empty()) =~= Seq::<Seq<char>>::empty());
        if h.name@ == "Content-Length"@ {
            assert(cl_matches(headers.push(h)) == seq![h.value@] + cl_matches(
                headers.push(h).drop_first(),
            ));
            assert(cl_matches(headers.push(h)) =~= tail);
        } else {
            assert(cl_matches(headers.push(h)) =~= tail);
        }
        assert(cl_matches(headers) + tail =~= tail);
    } else {
        assert(headers.push(h)[0] == headers[0]);
        assert(headers.push(h).drop_first() =~= headers.drop_first().push(h));
        lemma_cl_push(headers.drop_first(), h);
        if headers[0].name@ == "Content-Length"@ {
            assert(seq![headers[0].value@] + (cl_matches(headers.drop_first()) + tail) =~= (
            seq![headers[0].value@] + cl_matches(headers.drop_first())) + tail);
        }
    }
}

/// Enforces the `Content-Length` discipline on a POST request and
/// materializes its body: no `Content-Length` header is a length-required
/// failure; more than one is a bad request; an unparseable value is the
/// catch-all server failure. Exactly one valid value replaces the body's cap
/// before materialization, and the capped body bytes come back.
pub fn extract_post_content<T: ByteStream>(request: Request<T>) -> (r: Result<Vec<u8>, Response>)
    requires
        request.body matches Some(b) && b.wf() && !b.is_ready(),
    ensures
        ({
            let cls = cl_matches(request.headers@);
            let b = request.body->Some_0;
            if cls.len() == 0 {
                r matches Err(resp) && is_error_response(resp, StatusCode::_411)
            } else if cls.len() >= 2 {
                r matches Err(resp) && is_error_response(resp, StatusCode::_400)
            } else {
                match parse_u64_spec(cls[0]) {
                    None => r matches Err(resp) && is_plain_error(resp, StatusCode::_500),
                    Some(n) => r matches Ok(bytes) && bytes@ == capped(
                        b.handle()->Some_0.remaining(),
                        n as int,
                    ),
                }
            }
        }),
{
    let Request { headers, body, method: _, route: _, version: _ } = request;
    let mut body = match body {
        Some(b) => b,
        None => {
            proof {
                assert(false);
            }
            vstd::pervasive::unreached()
        },
    };
    let cl_name = chars_of("Content-Length");
    let mut count: usize = 0;
    let mut first_val: Option<String> = None;
    let mut i: usize = 0;
    while i < headers.len()
        invariant
            0 <= i <= headers@.len(),
            count <= i,
            cl_name@ == "Content-Length"@,
            count == cl_matches(headers@.take(i as int)).len(),
            count > 0 ==> (first_val matches Some(v) && v@ == cl_matches(
                headers@.take(i as int),
            )[0]),
            count == 0 ==> first_val is None,
        decreases headers@.len() - i,
    {
        let hv = chars_of(headers[i].name.as_str());
        let ghost prefix = headers@.take(i as int);
        proof {
            assert(headers@.take(i as int + 1) =~= prefix.push(headers@[i as int]));
            lemma_cl_push(prefix, headers@[i as int]);
        }
        if chars_eq(&hv, &cl_name) {
            count = count + 1;
            if count == 1 {
                first_val = Some(headers[i].value.clone());
            }
            proof {
                assert(cl_matches(headers@.take(i as int + 1)) =~= cl_matches(prefix) + seq![
                    headers@[i as int].value@,
                ]);
                if cl_matches(prefix).len() == 0 {
                    assert(cl_matches(headers@.take(i as int + 1))[0] == headers@[i as int].value@);
                } else {
                    assert(cl_matches(headers@.take(i as int + 1))[0] == cl_matches(prefix)[0]);
                }
            }
        } else {
            proof {
                assert(cl_matches(headers@.take(i as int + 1)) =~= cl_matches(prefix));
            }
        }
        i = i + 1;
    }
    proof {
        assert(headers@.take(headers@.len() as int) =~= headers@);
    }
    if count == 0 {
        return Err(Response::from(StatusCode::_411));
    }
    if count > 1 {
        return Err(Response::from(StatusCode::_400));
    }
    let value = match first_val {
        Some(v) => v,
        None => {
            proof {
                assert(false);
            }
            vstd::pervasive::unreached()
        },
    };
    match parse_u64(value.as_str()) {
        None => Err(internal_server_error()),
        Some(n) => {
            body.set_limit(n);
            Ok(body.get())
        },
    }
}

/// Answers a GET request: the empty page with status 200. File serving
/// belongs to the (currently inactive) external collaborator.
pub fn handle_get_request<T: ByteStream>(request: Request<T>) -> (r: Result<Response, Response>)
    ensures
        r matches Ok(resp) && resp.code == StatusCode::_200 && resp.headers@ == Seq::<
            String,
        >::empty() && resp.body@ == Seq::<char>::empty(),
{
    let _ = request;
    let resp = Response { code: StatusCode::_200, headers: Vec::new(), body: String::new() };
    proof {
        assert(resp.headers@ =~= Seq::<String>::empty());
    }
    Ok(resp)
}

/// What the dispatch seam hands back to the surrounding server: a finished
/// response, or the materialized POST body for the external POST handler to
/// forward.
pub enum Dispatched {
    Done(Response),
    Forward(Vec<u8>),
}

/// Routes a request by method: GET is answered directly; a POST has its
/// `Content-Length` discipline enforced and its body materialized, the bytes
/// handed out for the external handler to consume.
pub fn handle_request<T: ByteStream>(request: Request<T>) -> (r: Result<Dispatched, Response>)
    requires
        request.method == Method::POST ==> (request.body matches Some(b) && b.wf()
            && !b.is_ready()),
    ensures
        match request.method {
            Method::GET => r matches Ok(d) && d matches Dispatched::Done(resp) && resp.code
                == StatusCode::_200 && resp.headers@ == Seq::<String>::empty() && resp.body@
                == Seq::<char>::empty(),
            Method::POST => ({
                let cls = cl_matches(request.headers@);
                let b = request.body->Some_0;
                if cls.len() == 0 {
                    r matches Err(resp) && is_error_response(resp, StatusCode::_411)
                } else if cls.len() >= 2 {
                    r matches Err(resp) && is_error_response(resp, StatusCode::_400)
                } else {
                    match parse_u64_spec(cls[0]) {
                        None => r matches Err(resp) && is_plain_error(resp, StatusCode::_500),
                        Some(n) => r matches Ok(d) && d matches Dispatched::Forward(bytes)
                            && bytes@ == capped(b.handle()->Some_0.remaining(), n as int),
                    }
                }
            }),
        },
{
    match request.method {
        Method::GET => match handle_get_request(request) {
            Ok(resp) => Ok(Dispatched::Done(resp)),
            Err(e) => Err(e),
        },
        Method::POST => match extract_post_content(request) {
            Ok(bytes) => Ok(Dispatched::Forward(bytes)),
            Err(e) => Err(e),
        },
    }
}

/// What the filesystem reports about a route's resolution, gathered by the
/// surrounding server and decided on in [`route_to_path`].
#[derive(Debug, Clone, Copy)]
pub struct RouteProbe {
    /// The serving root directory itself resolved.
    pub root_resolved: bool,
    /// The joined path has no file stem or names a directory, so its
    /// `index.html` is meant.
    pub treat_as_dir: bool,
    /// The final path exists.
    pub exists: bool,
    /// The final path itself resolved (symbolic links and parent steps
    /// removed).
    pub final_resolved: bool,
    /// The resolved final path still lies under the serving root.
    pub inside_root: bool,
}

/// The path a route names under the `root` directory: the route with one
/// leading slash removed, joined under `root`, with `index.html` appended
/// when a directory is meant.
pub open spec fn candidate_path(route: Seq<char>, treat_as_dir: bool) -> Seq<char> {
    let stripped = if route.len() > 0 && route[0] == '/' {
        route.drop_first()
    } else {
        route
    };
    let joined = if stripped.len() == 0 {
        "root"@
    } else {
        "root/"@ + stripped
    };
    if treat_as_dir {
        if joined.last() == '/' {
            joined + "index.html"@
        } else {
            joined + "/index.html"@
        }
    } else {
        joined
    }
}

/// Decides where a route leads, given the filesystem's answers: an
/// unresolvable root or final path is the catch-all server failure; a missing
/// path, or one that escapes the serving root, is not found; otherwise the
/// candidate path is returned.
pub fn route_to_path(route: String, probe: RouteProbe) -> (r: Result<String, Response>)
    ensures
        !probe.root_resolved ==> (r matches Err(resp) && is_plain_error(resp, StatusCode::_500)),
        probe.root_resolved && !probe.exists ==> (r matches Err(resp) && is_error_response(
            resp,
            StatusCode::_404,
        )),
        probe.root_resolved && probe.exists && !probe.final_resolved ==> (r matches Err(resp)
            && is_plain_error(resp, StatusCode::_500)),
        probe.root_resolved && probe.exists && probe.final_resolved && !probe.inside_root ==> (r
            matches Err(resp) && is_error_response(resp, StatusCode::_404)),
        probe.root_resolved && probe.exists && probe.final_resolved && probe.inside_root ==> (r
            matches Ok(p) && p@ == candidate_path(route@, probe.treat_as_dir)),
{
    if !probe.root_resolved {
        return Err(internal_server_error());
    }
    let rv = chars_of(route.as_str());
    let ghost stripped = if route@.len() > 0 && route@[0] == '/' {
        route@.drop_first()
    } else {
        route@
    };
    let mut path: Vec<char> = chars_of("root");
    let start: usize = if rv.len() > 0 && rv[0] == '/' {
        1
    } else {
        0
    };
    proof {
        assert(stripped =~= rv@.skip(start as int));
    }
    if rv.len() > start {
        path.push('/');
        let mut k: usize = start;
        while k < rv.len()
            invariant
                start <= k <= rv@.len(),
                path@ =~= "root"@ + seq!['/'] + rv@.subrange(start as int, k as int),
            decreases rv@.len() - k,
        {
            path.push(rv[k]);
            k = k + 1;
        }
        proof {
            reveal_strlit("root");
            reveal_strlit("root/");
            assert("root/"@ =~= "root"@ + seq!['/']);
            assert(path@ =~= "root/"@ + stripped);
        }
    } else {
        proof {
            assert(stripped.len() == 0);
        }
    }
    let ghost joined = if stripped.len() == 0 {
        "root"@
    } else {
        "root/"@ + stripped
    };
    proof {
        assert(path@ == joined);
        reveal_strlit("root");
        reveal_strlit("root/");
        assert(joined.len() > 0);
    }
    if probe.treat_as_dir {
        let last = path[path.len() - 1];
        if last != '/' {
            path.push('/');
        }
        let mut tail = chars_of("index.html");
        path.append(&mut tail);
        proof {
            reveal_strlit("index.html");
            reveal_strlit("/index.html");
            assert("/index.html"@ =~= seq!['/'] + "index.html"@);
            if joined.last() == '/' {
                assert(path@ =~= joined + "index.html"@);
            } else {
                assert(path@ =~= joined + "/index.html"@);
            }
        }
    }
    proof {
        assert(path@ == candidate_path(route@, probe.treat_as_dir));
    }
    if !probe.exists {
        return Err(Response::from(StatusCode::_404));
    }
    if !probe.final_resolved {
        return Err(internal_server_error());
    }
    if !probe.inside_root {
        return Err(Response::from(StatusCode::_404));
    }
    Ok(string_of(&path))
}

} // verus!
