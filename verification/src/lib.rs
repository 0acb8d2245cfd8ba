//! A minimal server-side HTTP/1.1 message framer.
//!
//! The library turns a raw, untrusted byte stream from a single connection
//! into a structured request (method, route, version, headers, and for POST a
//! size-capped lazy body), and turns a structured response back into wire
//! text. Header scanning is capped at [`HEADER_CAP`] bytes; bodies are capped
//! at [`DEFAULT_BODY_LIMIT`] bytes unless a validated `Content-Length`
//! replaces the cap.

use vstd::prelude::*;

pub mod request_handler;
pub mod request_parser;
pub mod response;
pub mod text;

verus! {

/// Default cap, in bytes, on a request body: 1 MiB.
pub const DEFAULT_BODY_LIMIT: u64 = 1048576;

/// Cap, in bytes, on the header section of a request, counting every byte
/// read while searching for the header/body boundary.
pub const HEADER_CAP: usize = 8192;

/// An append-only source of bytes: a connection's input as the library sees
/// it.
///
/// `remaining()` models the stream mathematically: the bytes it will still
/// yield before end-of-stream. `next_byte` pops the first of them, or returns
/// `None` at end-of-stream. The in-memory implementation [`MemStream`] is
/// verified against this contract; a network implementation outside the
/// library must meet it (a blocking read of one byte returns that byte, or
/// nothing only at end-of-stream).
pub trait ByteStream {
    /// The bytes the stream will still yield. Verified implementations
    /// override this model; an implementation outside the library leaves the
    /// default, which verified code never relies on.
    open spec fn remaining(&self) -> Seq<u8> {
        Seq::empty()
    }

    fn next_byte(&mut self) -> (r: Option<u8>)
        ensures
            match r {
                Some(b) => old(self).remaining().len() > 0 && b == old(self).remaining()[0]
                    && final(self).remaining() == old(self).remaining().drop_first(),
                None => old(self).remaining().len() == 0 && final(self).remaining() == old(
                    self,
                ).remaining(),
            },
    ;
}

/// A stream over an in-memory byte buffer.
#[derive(Debug)]
pub struct MemStream {
    data: Vec<u8>,
    pos: usize,
}

impl MemStream {
    pub fn new(data: Vec<u8>) -> (r: MemStream)
        ensures
            r.remaining() == data@,
    {
        let r = MemStream { data, pos: 0 };
        proof {
            assert(r.remaining() =~= r.data@);
        }
        r
    }
}

impl ByteStream for MemStream {
    closed spec fn remaining(&self) -> Seq<u8> {
        if self.pos <= self.data@.len() {
            self.data@.skip(self.pos as int)
        } else {
            Seq::empty()
        }
    }

    fn next_byte(&mut self) -> (r: Option<u8>) {
        if self.pos < self.data.len() {
            let b = self.data[self.pos];
            self.pos = self.pos + 1;
            proof {
                assert(final(self).remaining() =~= old(self).remaining().drop_first());
            }
            Some(b)
        } else {
            None
        }
    }
}

/// A request method. Only these two are supported; any other token on the
/// request line is a structural failure.
#[derive(Debug, Clone, Copy, PartialEq, Eq, Structural)]
pub enum Method {
    GET,
    POST,
}

/// One header line: a name and a value. Names are stored unmodified and
/// compared case-sensitively, a deliberate choice that diverges from the wire
/// convention's case-insensitive names; repeated names are kept as distinct
/// entries, never merged.
#[derive(Debug, Clone, PartialEq, Eq)]
pub struct Header {
    pub name: String,
    pub value: String,
}

/// The bytes materialization stores: the stream's remaining bytes, truncated
/// at the cap.
pub open spec fn capped(rem: Seq<u8>, limit: int) -> Seq<u8> {
    if rem.len() <= limit {
        rem
    } else {
        rem.take(limit)
    }
}

/// A lazily read, size-capped request body.
///
/// The body is *unread* while it still owns a live stream handle and *ready*
/// once [`Body::get`] has materialized the bytes and released the handle. The
/// transition is one-way and idempotent. Comparing two bodies is defined only
/// when both are ready.
#[derive(Debug)]
pub struct Body<T> {
    ready: bool,
    content: Vec<u8>,
    buffer: Option<T>,
    limit: u64,
}

impl<T> Body<T> {
    /// True once the body has been materialized.
    pub closed spec fn is_ready(&self) -> bool {
        self.ready
    }

    /// The materialized bytes (empty while unread).
    pub closed spec fn bytes(&self) -> Seq<u8> {
        self.content@
    }

    /// The byte cap a materialization will enforce.
    pub closed spec fn limit(&self) -> u64 {
        self.limit
    }

    /// The live stream handle, present exactly while unread.
    pub closed spec fn handle(&self) -> Option<T> {
        self.buffer
    }

    /// Well-formed: the handle is released exactly when ready, and no bytes
    /// are stored before materialization.
    pub closed spec fn wf(&self) -> bool {
        &&& (self.ready <==> self.buffer is None)
        &&& (!self.ready ==> self.content@ == Seq::<u8>::empty())
    }

    /// Whether the body has been materialized.
    pub fn ready(&self) -> (r: bool)
        ensures
            r == self.is_ready(),
    {
        self.ready
    }

    /// Equality of two materialized bodies: their bytes agree. Comparing a
    /// body that is not yet ready is an illegal operation, excluded here by
    /// precondition rather than by a crash.
    pub fn eq(&self, other: &Body<T>) -> (r: bool)
        requires
            self.is_ready(),
            other.is_ready(),
        ensures
            r == (self.bytes() == other.bytes()),
    {
        crate::text::bytes_eq(&self.content, &other.content)
    }

    /// Inequality of two materialized bodies; the same precondition as
    /// [`Body::eq`].
    pub fn ne(&self, other: &Body<T>) -> (r: bool)
        requires
            self.is_ready(),
            other.is_ready(),
        ensures
            r == (self.bytes() != other.bytes()),
    {
        !self.eq(other)
    }
}

impl<T: ByteStream> Body<T> {
    /// Wraps a stream handle into an unread body with the default 1 MiB cap.
    pub fn new(buffer: T) -> (r: Body<T>)
        ensures
            r.wf(),
            !r.is_ready(),
            r.limit() == DEFAULT_BODY_LIMIT,
            r.handle() == Some(buffer),
            r.bytes() == Seq::<u8>::empty(),
    {
        Body { ready: false, content: Vec::new(), buffer: Some(buffer), limit: DEFAULT_BODY_LIMIT }
    }

    /// Replaces the byte cap. Permitted only while the body is unread;
    /// calling it after materialization is a caller error, excluded by
    /// precondition.
    pub fn set_limit(&mut self, limit: u64)
        requires
            !old(self).is_ready(),
        ensures
            final(self).limit() == limit,
            final(self).is_ready() == old(self).is_ready(),
            final(self).bytes() == old(self).bytes(),
            final(self).handle() == old(self).handle(),
            final(self).wf() == old(self).wf(),
    {
        self.limit = limit;
    }

    /// Materializes the body: reads the stream to its end or to the cap,
    /// stores the bytes, releases the handle, and returns the bytes. Once
    /// ready, returns the stored bytes again without touching anything: the
    /// underlying read happens at most once.
    pub fn get(&mut self) -> (r: Vec<u8>)
        requires
            old(self).wf(),
        ensures
            final(self).wf(),
            final(self).is_ready(),
            final(self).limit() == old(self).limit(),
            r@ == final(self).bytes(),
            old(self).is_ready() ==> *final(self) == *old(self) && r@ == old(self).bytes(),
            !old(self).is_ready() ==> final(self).bytes() == capped(
                old(self).handle()->Some_0.remaining(),
                old(self).limit() as int,
            ),
    {
        if self.ready {
            return crate::text::copy_bytes(&self.content);
        }
        let taken = self.buffer.take();
        let mut stream = match taken {
            Some(s) => s,
            None => {
                proof {
                    assert(false);
                }
                vstd::pervasive::unreached()
            },
        };
        let ghost rem0 = stream.remaining();
        loop
            invariant
                self.ready == false,
                self.buffer is None,
                self.limit == old(self).limit(),
                self.content@.len() <= self.limit,
                self.content@.len() <= rem0.len(),
                self.content@ == rem0.take(self.content@.len() as int),
                stream.remaining() == rem0.skip(self.content@.len() as int),
            ensures
                self.content@.len() == self.limit || self.content@.len() == rem0.len(),
            decreases rem0.len() - self.content@.len(),
        {
            if self.content.len() as u64 >= self.limit {
                break ;
            }
            match stream.next_byte() {
                Some(b) => {
                    proof {
                        assert(rem0.skip(self.content@.len() as int)[0] == rem0[self.content@.len() as int]);
                        assert(rem0.skip(self.content@.len() as int).drop_first() =~= rem0.skip(
                            self.content@.len() as int + 1,
                        ));
                        assert(rem0.take(self.content@.len() as int + 1) =~= rem0.take(
                            self.content@.len() as int,
                        ).push(rem0[self.content@.len() as int]));
                    }
                    self.content.push(b);
                },
                None => {
                    break ;
                },
            }
        }
        self.ready = true;
        proof {
            if self.content@.len() < self.limit {
                assert(stream.remaining().len() == 0);
                assert(self.content@ =~= rem0);
            } else {
                assert(self.content@ =~= rem0.take(self.limit as int));
            }
            assert(final(self).bytes() == capped(rem0, self.limit as int));
        }
        crate::text::copy_bytes(&self.content)
    }
}

/// A body already materialized to the empty byte string, with no stream
/// handle behind it.
pub fn empty_body<T>() -> (r: Body<T>)
    ensures
        r.wf(),
        r.is_ready(),
        r.bytes() == Seq::<u8>::empty(),
        r.limit() == DEFAULT_BODY_LIMIT,
{
    Body { ready: true, content: Vec::new(), buffer: None, limit: DEFAULT_BODY_LIMIT }
}

/// A parsed request. `headers` holds exactly the lines between the request
/// line and the boundary, in stream order. `body` is present only for POST;
/// GET requests never carry one.
#[derive(Debug)]
pub struct Request<T> {
    pub method: Method,
    pub route: String,
    pub version: String,
    pub headers: Vec<Header>,
    pub body: Option<Body<T>>,
}

} // verus!
