use vstd::prelude::*;
use crate::headers::{HeaderList, Headers, with_header, lower, lookup};
use crate::url::{Url, UrlView};

verus! {

/// An HTTP request method.
#[derive(Clone, Copy, Debug, PartialEq, Eq, Structural)]
pub enum Method {
    Get,
    Head,
    Post,
    Put,
    Delete,
    Connect,
    Options,
    Trace,
    Patch,
}

/// Safe methods are those defined to have no side effects.
pub open spec fn spec_is_safe(m: Method) -> bool {
    m == Method::Get || m == Method::Head || m == Method::Options || m == Method::Trace
}

impl Method {
    pub fn is_safe(&self) -> (r: bool)
        ensures
            r == spec_is_safe(*self),
    {
        match self {
            Method::Get | Method::Head | Method::Options | Method::Trace => true,
            _ => false,
        }
    }
}

/// A request as the contracts see it.
pub struct RequestView {
    pub method: Method,
    pub url: UrlView,
    pub headers: HeaderList,
    pub body: Seq<u8>,
}

/// An HTTP request: method, target URL, headers and body.
pub struct Request {
    method: Method,
    url: Url,
    headers: Headers,
    body: Vec<u8>,
}

impl View for Request {
    type V = RequestView;

    closed spec fn view(&self) -> RequestView {
        RequestView { method: self.method, url: self.url@, headers: self.headers@, body: self.body@ }
    }
}

impl Request {
    pub closed spec fn wf(&self) -> bool {
        self.url.wf() && self.headers.wf()
    }

    /// A request with no headers and an empty body.
    pub fn new(method: Method, url: Url) -> (r: Request)
        requires
            url.wf(),
        ensures
            r.wf(),
            r@ == (RequestView {
                method,
                url: url@,
                headers: Seq::empty(),
                body: Seq::empty(),
            }),
    {
        let r = Request { method, url, headers: Headers::new(), body: Vec::new() };
        assert(r.body@ =~= Seq::<u8>::empty());
        r
    }

    /// A request with the given headers and an empty body.
    pub fn with_headers(method: Method, url: Url, headers: Headers) -> (r: Request)
        requires
            url.wf(),
            headers.wf(),
        ensures
            r.wf(),
            r@ == (RequestView { method, url: url@, headers: headers@, body: Seq::empty() }),
    {
        let r = Request { method, url, headers, body: Vec::new() };
        assert(r.body@ =~= Seq::<u8>::empty());
        r
    }

    pub fn method(&self) -> (r: Method)
        ensures
            r == self@.method,
    {
        self.method
    }

    pub fn url(&self) -> (r: &Url)
        requires
            self.wf(),
        ensures
            r@ == self@.url,
            r.wf(),
    {
        &self.url
    }

    pub fn headers(&self) -> (r: &Headers)
        requires
            self.wf(),
        ensures
            r@ == self@.headers,
            r.wf(),
    {
        &self.headers
    }

    pub fn body(&self) -> (r: &Vec<u8>)
        ensures
            r@ == self@.body,
    {
        &self.body
    }

    /// The value of the header `name` (in any case).
    pub fn header(&self, name: &[u8]) -> (r: Option<Vec<u8>>)
        requires
            self.wf(),
        ensures
            match r {
                Some(v) => lookup(self@.headers, lower(name@)) == Some(v@),
                None => lookup(self@.headers, lower(name@)) is None,
            },
    {
        self.headers.get(name)
    }

    /// Sets the header `name` to `value`, replacing an earlier value.
    pub fn set_header(&mut self, name: &[u8], value: Vec<u8>)
        requires
            old(self).wf(),
        ensures
            final(self).wf(),
            final(self)@ == (RequestView {
                headers: with_header(old(self)@.headers, lower(name@), value@),
                ..old(self)@
            }),
    {
        self.headers.set(name, value);
    }

    pub fn set_body(&mut self, body: Vec<u8>)
        requires
            old(self).wf(),
        ensures
            final(self).wf(),
            final(self)@ == (RequestView { body: body@, ..old(self)@ }),
    {
        self.body = body;
    }
}

/// A response as the contracts see it.
pub struct ResponseView {
    pub status: u16,
    pub headers: HeaderList,
    pub body: Seq<u8>,
}

/// An HTTP response: status code, headers and body.
pub struct Response {
    status: u16,
    headers: Headers,
    body: Vec<u8>,
}

impl View for Response {
    type V = ResponseView;

    closed spec fn view(&self) -> ResponseView {
        ResponseView { status: self.status, headers: self.headers@, body: self.body@ }
    }
}

impl Response {
    pub closed spec fn wf(&self) -> bool {
        self.headers.wf()
    }

    /// A response with the given status, no headers and an empty body.
    pub fn new(status: u16) -> (r: Response)
        ensures
            r.wf(),
            r@ == (ResponseView { status, headers: Seq::empty(), body: Seq::empty() }),
    {
        let r = Response { status, headers: Headers::new(), body: Vec::new() };
        assert(r.body@ =~= Seq::<u8>::empty());
        r
    }

    pub fn status(&self) -> (r: u16)
        ensures
            r == self@.status,
    {
        self.status
    }

    pub fn headers(&self) -> (r: &Headers)
        requires
            self.wf(),
        ensures
            r@ == self@.headers,
            r.wf(),
    {
        &self.headers
    }

    pub fn body(&self) -> (r: &Vec<u8>)
        ensures
            r@ == self@.body,
    {
        &self.body
    }

    /// The value of the header `name` (in any case).
    pub fn header(&self, name: &[u8]) -> (r: Option<Vec<u8>>)
        requires
            self.wf(),
        ensures
            match r {
                Some(v) => lookup(self@.headers, lower(name@)) == Some(v@),
                None => lookup(self@.headers, lower(name@)) is None,
            },
    {
        self.headers.get(name)
    }

    /// Sets the header `name` to `value`, replacing an earlier value.
    pub fn set_header(&mut self, name: &[u8], value: Vec<u8>)
        requires
            old(self).wf(),
        ensures
            final(self).wf(),
            final(self)@ == (ResponseView {
                headers: with_header(old(self)@.headers, lower(name@), value@),
                ..old(self)@
            }),
    {
        self.headers.set(name, value);
    }

    pub fn set_body(&mut self, body: Vec<u8>)
        requires
            old(self).wf(),
        ensures
            final(self).wf(),
            final(self)@ == (ResponseView { body: body@, ..old(self)@ }),
    {
        self.body = body;
    }
}

} // verus!
