use vstd::prelude::*;
use std::time::Duration;
use vstd::string::StringSliceAdditionalSpecFns;
use crate::headers::{
    HeaderList, has_name, with_header, lookup, lower, valid_header_value, header_list_wf,
    index_of_name, is_valid_header_value,
};
use crate::model::{Method, Request, RequestView, Response, ResponseView, spec_is_safe};
use crate::url::{Url, UrlView, join_url, copy_range};

verus! {

/// `user-agent`
pub open spec fn user_agent_name() -> Seq<u8> {
    seq![117u8, 115, 101, 114, 45, 97, 103, 101, 110, 116]
}

/// `connection`
pub open spec fn connection_name() -> Seq<u8> {
    seq![99u8, 111, 110, 110, 101, 99, 116, 105, 111, 110]
}

/// `close`
pub open spec fn close_value() -> Seq<u8> {
    seq![99u8, 108, 111, 115, 101]
}

/// `location`
pub open spec fn location_name() -> Seq<u8> {
    seq![108u8, 111, 99, 97, 116, 105, 111, 110]
}

/// `http`
pub open spec fn http_scheme() -> Seq<u8> {
    seq![104u8, 116, 116, 112]
}

/// `https`
pub open spec fn https_scheme() -> Seq<u8> {
    seq![104u8, 116, 116, 112, 115]
}

/// How a connection is opened: plain TCP, or TLS over TCP.
#[derive(Clone, Copy, Debug, PartialEq, Eq, Structural)]
pub enum Transport {
    Plain,
    Secure,
}

/// Where and how to connect for one attempt.
pub struct Target {
    pub transport: Transport,
    pub host: Vec<u8>,
    pub port: u16,
}

/// The kinds of failure a call can end in.
#[derive(Clone, Copy, Debug, PartialEq, Eq, Structural)]
pub enum ErrorKind {
    InvalidInput,
    AddressResolution,
    Connect,
    Codec,
    TooManyRedirects,
    InvalidRedirectTarget,
}

/// Why a call failed.
pub enum ClientError {
    /// The URL scheme is neither `http` nor `https`.
    UnsupportedScheme(Vec<u8>),
    /// The URL has no host.
    MissingHost,
    /// The host could not be resolved to any address.
    AddressResolution,
    /// No candidate address could be connected to.
    Connect,
    /// Encoding the request or decoding the response failed.
    Codec,
    /// The redirection limit was reached; holds the next target.
    TooManyRedirects(Url),
    /// The `Location` value is not text or does not resolve to a URL.
    InvalidRedirectTarget(Vec<u8>),
}

impl ClientError {
    pub open spec fn spec_kind(&self) -> ErrorKind {
        match self {
            ClientError::UnsupportedScheme(_) => ErrorKind::InvalidInput,
            ClientError::MissingHost => ErrorKind::InvalidInput,
            ClientError::AddressResolution => ErrorKind::AddressResolution,
            ClientError::Connect => ErrorKind::Connect,
            ClientError::Codec => ErrorKind::Codec,
            ClientError::TooManyRedirects(_) => ErrorKind::TooManyRedirects,
            ClientError::InvalidRedirectTarget(_) => ErrorKind::InvalidRedirectTarget,
        }
    }

    pub fn kind(&self) -> (r: ErrorKind)
        ensures
            r == self.spec_kind(),
    {
        match self {
            ClientError::UnsupportedScheme(_) => ErrorKind::InvalidInput,
            ClientError::MissingHost => ErrorKind::InvalidInput,
            ClientError::AddressResolution => ErrorKind::AddressResolution,
            ClientError::Connect => ErrorKind::Connect,
            ClientError::Codec => ErrorKind::Codec,
            ClientError::TooManyRedirects(_) => ErrorKind::TooManyRedirects,
            ClientError::InvalidRedirectTarget(_) => ErrorKind::InvalidRedirectTarget,
        }
    }
}

/// The header value was rejected.
#[derive(Clone, Copy, Debug, PartialEq, Eq, Structural)]
pub struct InvalidHeader;

/// The transport for a scheme, if the scheme is supported.
pub open spec fn transport_of(scheme: Seq<u8>) -> Option<Transport> {
    if scheme == http_scheme() {
        Some(Transport::Plain)
    } else if scheme == https_scheme() {
        Some(Transport::Secure)
    } else {
        None
    }
}

pub open spec fn default_port(t: Transport) -> u16 {
    match t {
        Transport::Plain => 80,
        Transport::Secure => 443,
    }
}

/// The connection target of a URL: transport from the scheme, the host, and the
/// explicit port or else the scheme's default one.
pub open spec fn target_of(u: UrlView) -> Option<(Transport, Seq<u8>, u16)> {
    match (transport_of(u.scheme), u.host) {
        (Some(t), Some(h)) => Some(
            (
                t,
                h,
                match u.port {
                    Some(p) => p,
                    None => default_port(t),
                },
            ),
        ),
        _ => None,
    }
}

pub open spec fn target_view(t: Target) -> (Transport, Seq<u8>, u16) {
    (t.transport, t.host@, t.port)
}

fn bytes_user_agent() -> (r: Vec<u8>)
    ensures
        r@ == user_agent_name(),
{
    let r = vec![117u8, 115, 101, 114, 45, 97, 103, 101, 110, 116];
    assert(r@ =~= user_agent_name());
    r
}

fn bytes_connection() -> (r: Vec<u8>)
    ensures
        r@ == connection_name(),
{
    let r = vec![99u8, 111, 110, 110, 101, 99, 116, 105, 111, 110];
    assert(r@ =~= connection_name());
    r
}

fn bytes_close() -> (r: Vec<u8>)
    ensures
        r@ == close_value(),
{
    let r = vec![99u8, 108, 111, 115, 101];
    assert(r@ =~= close_value());
    r
}

fn bytes_location() -> (r: Vec<u8>)
    ensures
        r@ == location_name(),
{
    let r = vec![108u8, 111, 99, 97, 116, 105, 111, 110];
    assert(r@ =~= location_name());
    r
}

/// Chooses how to connect for `url`: the scheme must be `http` or `https` and the
/// URL must have a host; the port is the explicit one, else 80 or 443.
pub fn connection_target(url: &Url) -> (r: Result<Target, ClientError>)
    ensures
        match r {
            Ok(t) => target_of(url@) == Some(target_view(t)),
            Err(e) => target_of(url@) is None && match e {
                ClientError::UnsupportedScheme(s) => s@ == url@.scheme && transport_of(
                    url@.scheme,
                ) is None,
                ClientError::MissingHost => transport_of(url@.scheme) is Some && url@.host is None,
                _ => false,
            },
        },
{
    let scheme = url.scheme();
    let transport = if scheme.len() == 4 && scheme[0] == 104 && scheme[1] == 116 && scheme[2]
        == 116 && scheme[3] == 112 {
        assert(scheme@ =~= http_scheme());
        Transport::Plain
    } else if scheme.len() == 5 && scheme[0] == 104 && scheme[1] == 116 && scheme[2] == 116
        && scheme[3] == 112 && scheme[4] == 115 {
        assert(scheme@ =~= https_scheme());
        Transport::Secure
    } else {
        proof {
            if scheme@ == http_scheme() {
                assert(scheme@[0] == 104 && scheme@[1] == 116 && scheme@[2] == 116 && scheme@[3]
                    == 112);
            }
            if scheme@ == https_scheme() {
                assert(scheme@[0] == 104 && scheme@[1] == 116 && scheme@[2] == 116 && scheme@[3]
                    == 112 && scheme@[4] == 115);
            }
        }
        let s = copy_range(scheme.as_slice(), 0, scheme.len());
        assert(scheme@.subrange(0, scheme@.len() as int) =~= scheme@);
        return Err(ClientError::UnsupportedScheme(s));
    };
    let host = match url.host() {
        Some(h) => h,
        None => return Err(ClientError::MissingHost),
    };
    let port = match url.port() {
        Some(p) => p,
        None => match transport {
            Transport::Plain => 80u16,
            Transport::Secure => 443u16,
        },
    };
    Ok(Target { transport, host, port })
}

/// The list with `n` set to `v` unless `n` is already there; unchanged when there
/// is no `v`.
pub open spec fn header_fallback(hs: HeaderList, n: Seq<u8>, v: Option<Seq<u8>>) -> HeaderList {
    match v {
        Some(v) => if has_name(hs, n) {
            hs
        } else {
            with_header(hs, n, v)
        },
        None => hs,
    }
}

/// The headers of an outgoing request: the default `User-Agent` when the request
/// sets none, and always `Connection: close`.
pub open spec fn outgoing_headers(hs: HeaderList, user_agent: Option<Seq<u8>>) -> HeaderList {
    with_header(
        header_fallback(hs, user_agent_name(), user_agent),
        connection_name(),
        close_value(),
    )
}

pub open spec fn outgoing(req: RequestView, user_agent: Option<Seq<u8>>) -> RequestView {
    RequestView { headers: outgoing_headers(req.headers, user_agent), ..req }
}

/// The method of the next request when a response with `status` asks for a
/// redirection, or `None` when the redirection is not followed. 301, 302 and 303
/// turn the request into a GET (a HEAD when the call started as HEAD); 307 and 308
/// keep a safe method.
pub open spec fn redirect_method(original: Method, current: Method, status: u16) -> Option<Method> {
    if status == 301 || status == 302 || status == 303 {
        Some(
            if original == Method::Head {
                Method::Head
            } else {
                Method::Get
            },
        )
    } else if (status == 307 || status == 308) && spec_is_safe(current) {
        Some(current)
    } else {
        None
    }
}

pub open spec fn is_text(v: Seq<u8>) -> bool {
    forall|i: int| 0 <= i < v.len() ==> 32 <= #[trigger] v[i] && v[i] <= 126
}

/// Where a `Location` value leads from `base`: the value must be visible ASCII
/// and resolve against `base`.
pub open spec fn redirect_target(base: UrlView, loc: Seq<u8>) -> Option<UrlView> {
    if is_text(loc) {
        join_url(base, loc)
    } else {
        None
    }
}

fn is_text_bytes(v: &[u8]) -> (r: bool)
    ensures
        r == is_text(v@),
{
    let mut i: usize = 0;
    while i < v.len()
        invariant
            i <= v@.len(),
            forall|k: int| 0 <= k < i ==> 32 <= #[trigger] v@[k] && v@[k] <= 126,
        decreases v@.len() - i,
    {
        if !(32 <= v[i] && v[i] <= 126) {
            return false;
        }
        i = i + 1;
    }
    true
}

fn next_method(original: Method, current: Method, status: u16) -> (r: Option<Method>)
    ensures
        r == redirect_method(original, current, status),
{
    if status == 301 || status == 302 || status == 303 {
        Some(
            if original == Method::Head {
                Method::Head
            } else {
                Method::Get
            },
        )
    } else if (status == 307 || status == 308) && current.is_safe() {
        Some(current)
    } else {
        None
    }
}

/// Per-client settings: connection timeout, default `User-Agent`, and how many
/// redirections a call follows.
pub struct Client {
    timeout: Option<Duration>,
    user_agent: Option<Vec<u8>>,
    redirection_limit: usize,
}

impl Client {
    pub closed spec fn spec_timeout(&self) -> Option<Duration> {
        self.timeout
    }

    pub closed spec fn spec_user_agent(&self) -> Option<Seq<u8>> {
        match self.user_agent {
            Some(v) => Some(v@),
            None => None,
        }
    }

    pub closed spec fn spec_redirection_limit(&self) -> nat {
        self.redirection_limit as nat
    }

    /// A client with no timeout, no default `User-Agent`, and redirections not
    /// followed.
    pub fn new() -> (r: Client)
        ensures
            r.spec_timeout() is None,
            r.spec_user_agent() is None,
            r.spec_redirection_limit() == 0,
    {
        Client { timeout: None, user_agent: None, redirection_limit: 0 }
    }

    /// Sets the timeout for connecting, reading and writing.
    pub fn set_global_timeout(&mut self, timeout: Duration)
        ensures
            final(self).spec_timeout() == Some(timeout),
            final(self).spec_user_agent() == old(self).spec_user_agent(),
            final(self).spec_redirection_limit() == old(self).spec_redirection_limit(),
    {
        self.timeout = Some(timeout);
    }

    /// Sets the default `User-Agent`, when it is a valid header value.
    pub fn set_user_agent(&mut self, user_agent: &str) -> (r: Result<(), InvalidHeader>)
        ensures
            r is Ok <==> valid_header_value(user_agent.spec_bytes()),
            r is Ok ==> final(self).spec_user_agent() == Some(user_agent.spec_bytes()),
            r is Err ==> final(self).spec_user_agent() == old(self).spec_user_agent(),
            final(self).spec_timeout() == old(self).spec_timeout(),
            final(self).spec_redirection_limit() == old(self).spec_redirection_limit(),
    {
        let bytes = user_agent.as_bytes();
        if !is_valid_header_value(bytes) {
            return Err(InvalidHeader);
        }
        self.user_agent = Some(copy_range(bytes, 0, bytes.len()));
        assert(bytes@.subrange(0, bytes@.len() as int) =~= bytes@);
        Ok(())
    }

    /// Sets how many redirections a call follows (0: none).
    pub fn set_redirection_limit(&mut self, limit: usize)
        ensures
            final(self).spec_redirection_limit() == limit,
            final(self).spec_timeout() == old(self).spec_timeout(),
            final(self).spec_user_agent() == old(self).spec_user_agent(),
    {
        self.redirection_limit = limit;
    }

    pub fn timeout(&self) -> (r: Option<Duration>)
        ensures
            r == self.spec_timeout(),
    {
        self.timeout
    }

    pub fn redirection_limit(&self) -> (r: usize)
        ensures
            r == self.spec_redirection_limit(),
    {
        self.redirection_limit
    }
}

/// What the caller does next in a call.
pub enum Step {
    /// Connect to the target, send `pending_request`, and hand the response to
    /// `on_response`.
    Send(Target),
    /// The call is over with this response.
    Done(Response),
    /// The call is over with this error.
    Failed(ClientError),
}

/// The `Location` value of a response, if it has one.
pub open spec fn location_of(resp: ResponseView) -> Option<Seq<u8>> {
    lookup(resp.headers, location_name())
}

/// The method of the next request, when `resp` to `cur` is a redirection that is
/// followed.
pub open spec fn follow_method(original: Method, cur: RequestView, resp: ResponseView) -> Option<
    Method,
> {
    if location_of(resp) is Some {
        redirect_method(original, cur.method, resp.status)
    } else {
        None
    }
}

/// The target of the redirection `resp` to `cur`.
pub open spec fn next_url(cur: RequestView, resp: ResponseView) -> Option<UrlView> {
    redirect_target(cur.url, location_of(resp).unwrap())
}

/// The request that follows a redirection: new method and URL, the headers that
/// were just sent, and no body.
pub open spec fn redirected(cur: RequestView, method: Method, url: UrlView) -> RequestView {
    RequestView { method, url, headers: cur.headers, body: Seq::empty() }
}

/// One call of a client, from the first request to the final response: the
/// caller performs each `Step::Send` and reports the response.
pub struct RedirectFlow {
    user_agent: Option<Vec<u8>>,
    limit: usize,
    original_method: Method,
    current: Request,
    remaining: usize,
    attempts: Ghost<nat>,
}

impl RedirectFlow {
    pub closed spec fn wf(&self) -> bool {
        &&& self.current.wf()
        &&& self.remaining <= self.limit
        &&& self.attempts@ == 0 ==> self.remaining == self.limit
        &&& self.attempts@ > 0 ==> self.attempts@ + self.remaining == self.limit + 1
    }

    /// The redirection limit of the client that started the call.
    pub closed spec fn spec_limit(&self) -> nat {
        self.limit as nat
    }

    pub closed spec fn spec_user_agent(&self) -> Option<Seq<u8>> {
        match self.user_agent {
            Some(v) => Some(v@),
            None => None,
        }
    }

    /// The method that the call started with.
    pub closed spec fn spec_original_method(&self) -> Method {
        self.original_method
    }

    /// The request of the latest attempt, as it goes out.
    pub closed spec fn spec_current(&self) -> RequestView {
        self.current@
    }

    /// How many requests have been handed out to be sent.
    pub closed spec fn spec_attempts(&self) -> nat {
        self.attempts@
    }

    /// The request to send for the latest `Step::Send`.
    pub fn pending_request(&self) -> (r: &Request)
        requires
            self.wf(),
        ensures
            r@ == self.spec_current(),
            r.wf(),
    {
        &self.current
    }

    /// How many more redirections this call may follow.
    pub fn redirections_left(&self) -> (r: usize)
        requires
            self.wf(),
        ensures
            self.spec_attempts() > 0 ==> r == self.spec_limit() + 1 - self.spec_attempts(),
            self.spec_attempts() == 0 ==> r == self.spec_limit(),
    {
        self.remaining
    }

    /// Decides what follows `response`, the answer to the pending request.
    pub fn on_response(&mut self, response: Response) -> (r: Step)
        requires
            old(self).wf(),
            old(self).spec_attempts() >= 1,
            response.wf(),
        ensures
            final(self).wf(),
            final(self).spec_limit() == old(self).spec_limit(),
            final(self).spec_user_agent() == old(self).spec_user_agent(),
            final(self).spec_original_method() == old(self).spec_original_method(),
            final(self).spec_attempts() >= 1,
            ({
                let cur = old(self).spec_current();
                let m = follow_method(old(self).spec_original_method(), cur, response@);
                match r {
                    Step::Done(x) => {
                        &&& m is None
                        &&& x@ == response@
                        &&& final(self).spec_current() == cur
                        &&& final(self).spec_attempts() == old(self).spec_attempts()
                    },
                    Step::Failed(e) => {
                        &&& m is Some
                        &&& final(self).spec_attempts() == old(self).spec_attempts()
                        &&& match next_url(cur, response@) {
                            None => e matches ClientError::InvalidRedirectTarget(v) && v@
                                == location_of(response@).unwrap(),
                            Some(u) => if old(self).spec_attempts() >= old(self).spec_limit()
                                + 1 {
                                e matches ClientError::TooManyRedirects(x) && x@ == u
                            } else {
                                target_of(u) is None && e.spec_kind() == ErrorKind::InvalidInput
                            },
                        }
                    },
                    Step::Send(t) => {
                        &&& m is Some
                        &&& next_url(cur, response@) is Some
                        &&& old(self).spec_attempts() < old(self).spec_limit() + 1
                        &&& target_of(next_url(cur, response@).unwrap()) == Some(target_view(t))
                        &&& final(self).spec_attempts() == old(self).spec_attempts() + 1
                        &&& final(self).spec_current() == outgoing(
                            redirected(cur, m.unwrap(), next_url(cur, response@).unwrap()),
                            old(self).spec_user_agent(),
                        )
                    },
                }
            }),
    {
        let location = bytes_location();
        proof {
            assert(lower(location_name()) =~= location_name());
        }
        let loc = match response.header(location.as_slice()) {
            None => return Step::Done(response),
            Some(l) => l,
        };
        let m = match next_method(self.original_method, self.current.method(), response.status()) {
            None => return Step::Done(response),
            Some(m) => m,
        };
        if !is_text_bytes(loc.as_slice()) {
            return Step::Failed(ClientError::InvalidRedirectTarget(loc));
        }
        let url = match self.current.url().join(loc.as_slice()) {
            None => return Step::Failed(ClientError::InvalidRedirectTarget(loc)),
            Some(u) => u,
        };
        if self.remaining == 0 {
            return Step::Failed(ClientError::TooManyRedirects(url));
        }
        let mut next = Request::with_headers(m, url, self.current.headers().copy());
        prepare(&mut next, &self.user_agent);
        match connection_target(next.url()) {
            Err(e) => Step::Failed(e),
            Ok(t) => {
                self.current = next;
                self.remaining = self.remaining - 1;
                self.attempts = Ghost((self.attempts@ + 1) as nat);
                Step::Send(t)
            },
        }
    }
}

/// Sets the header `name` to `value` unless the request already has it.
pub fn set_header_fallback(request: &mut Request, name: &[u8], value: &Option<Vec<u8>>)
    requires
        old(request).wf(),
    ensures
        final(request).wf(),
        final(request)@ == (RequestView {
            headers: header_fallback(
                old(request)@.headers,
                lower(name@),
                match value {
                    Some(v) => Some(v@),
                    None => None,
                },
            ),
            ..old(request)@
        }),
{
    if let Some(v) = value {
        if !request.headers().contains(name) {
            request.set_header(name, copy_range(v.as_slice(), 0, v.len()));
            assert(v@.subrange(0, v@.len() as int) =~= v@);
        }
    }
}

/// Applies the default `User-Agent` (unless one is set) and `Connection: close`.
fn prepare(request: &mut Request, user_agent: &Option<Vec<u8>>)
    requires
        old(request).wf(),
    ensures
        final(request).wf(),
        final(request)@ == outgoing(
            old(request)@,
            match user_agent {
                Some(v) => Some(v@),
                None => None,
            },
        ),
{
    let agent = bytes_user_agent();
    proof {
        assert(lower(user_agent_name()) =~= user_agent_name());
        assert(lower(connection_name()) =~= connection_name());
    }
    set_header_fallback(request, agent.as_slice(), user_agent);
    let connection = bytes_connection();
    request.set_header(connection.as_slice(), bytes_close());
}

impl Client {
    /// Starts a call: applies the defaults to `request` and says where to send it.
    /// A URL whose scheme is not `http` or `https`, or that has no host, fails here
    /// before any request is handed out.
    pub fn request(&self, request: Request) -> (r: (RedirectFlow, Step))
        requires
            request.wf(),
        ensures
            r.0.wf(),
            r.0.spec_limit() == self.spec_redirection_limit(),
            r.0.spec_user_agent() == self.spec_user_agent(),
            r.0.spec_original_method() == request@.method,
            r.0.spec_current() == outgoing(request@, self.spec_user_agent()),
            match r.1 {
                Step::Send(t) => target_of(request@.url) == Some(target_view(t))
                    && r.0.spec_attempts() == 1,
                Step::Failed(e) => target_of(request@.url) is None && r.0.spec_attempts() == 0
                    && e.spec_kind() == ErrorKind::InvalidInput,
                Step::Done(_) => false,
            },
    {
        let mut request = request;
        let original_method = request.method();
        prepare(&mut request, &self.user_agent);
        let user_agent = match &self.user_agent {
            Some(v) => {
                assert(v@.subrange(0, v@.len() as int) =~= v@);
                Some(copy_range(v.as_slice(), 0, v.len()))
            },
            None => None,
        };
        let step = match connection_target(request.url()) {
            Ok(t) => Step::Send(t),
            Err(e) => Step::Failed(e),
        };
        let attempts: Ghost<nat> = Ghost(
            match step {
                Step::Send(_) => 1,
                _ => 0,
            },
        );
        let flow = RedirectFlow {
            user_agent,
            limit: self.redirection_limit,
            original_method,
            current: request,
            remaining: self.redirection_limit,
            attempts,
        };
        (flow, step)
    }
}

/// A call never hands out more requests than the redirection limit plus one.
pub proof fn lemma_attempt_budget(flow: &RedirectFlow)
    requires
        flow.wf(),
    ensures
        flow.spec_attempts() <= flow.spec_limit() + 1,
{
}

/// After 301, 302 or 303 a call that started as HEAD goes on as HEAD, and any
/// other call goes on as GET, whatever method the last attempt used.
pub proof fn lemma_redirect_method_rewrite(original: Method, current: Method, status: u16)
    requires
        status == 301 || status == 302 || status == 303,
    ensures
        original == Method::Head ==> redirect_method(original, current, status) == Some(
            Method::Head,
        ),
        original != Method::Head ==> redirect_method(original, current, status) == Some(
            Method::Get,
        ),
{
}

/// A 307 or 308 is followed with the same method when the method is safe, and not
/// followed when it is not (a POST, for one).
pub proof fn lemma_temporary_redirect_needs_safe_method(
    original: Method,
    current: Method,
    status: u16,
)
    requires
        status == 307 || status == 308,
    ensures
        spec_is_safe(current) ==> redirect_method(original, current, status) == Some(current),
        !spec_is_safe(current) ==> redirect_method(original, current, status) is None,
{
}

proof fn lemma_lookup_set_same(hs: HeaderList, n: Seq<u8>, v: Seq<u8>)
    requires
        header_list_wf(hs),
    ensures
        lookup(with_header(hs, n, v), n) == Some(v),
{
    let hs2 = with_header(hs, n, v);
    let k = if has_name(hs, n) { index_of_name(hs, n) } else { hs.len() as int };
    assert(hs2[k].0 == n);
    assert(has_name(hs2, n));
    let j = index_of_name(hs2, n);
    if j != k {
        assert(hs2[j] == hs[j]);
        if has_name(hs, n) {
            if j < k {
                assert(hs[j].0 != hs[k].0);
            } else {
                assert(hs[k].0 != hs[j].0);
            }
        } else {
            assert(hs[j].0 == n);
        }
    }
}

proof fn lemma_lookup_set_other(hs: HeaderList, n: Seq<u8>, v: Seq<u8>, other: Seq<u8>)
    requires
        header_list_wf(hs),
        other != n,
    ensures
        lookup(with_header(hs, n, v), other) == lookup(hs, other),
{
    let hs2 = with_header(hs, n, v);
    let k = if has_name(hs, n) { index_of_name(hs, n) } else { hs.len() as int };
    if has_name(hs, other) {
        let i = index_of_name(hs, other);
        assert(i != k);
        assert(hs2[i] == hs[i]);
        assert(has_name(hs2, other));
        let j = index_of_name(hs2, other);
        assert(j != k);
        assert(hs2[j] == hs[j]);
        if j < i {
            assert(hs[j].0 != hs[i].0);
        } else if i < j {
            assert(hs[i].0 != hs[j].0);
        }
    } else {
        if has_name(hs2, other) {
            let j = index_of_name(hs2, other);
            assert(j != k);
            assert(hs2[j] == hs[j]);
            assert(hs[j].0 == other);
        }
    }
}

/// The default `User-Agent` goes out only when the request sets none: a value the
/// request already has is sent as it is.
pub proof fn lemma_user_agent_fallback(hs: HeaderList, user_agent: Seq<u8>)
    requires
        header_list_wf(hs),
    ensures
        has_name(hs, user_agent_name()) ==> lookup(
            outgoing_headers(hs, Some(user_agent)),
            user_agent_name(),
        ) == lookup(hs, user_agent_name()),
        !has_name(hs, user_agent_name()) ==> lookup(
            outgoing_headers(hs, Some(user_agent)),
            user_agent_name(),
        ) == Some(user_agent),
        lookup(outgoing_headers(hs, Some(user_agent)), connection_name()) == Some(close_value()),
{
    assert(user_agent_name() != connection_name()) by {
        assert(user_agent_name()[0] != connection_name()[0]);
    }
    let with_agent = if has_name(hs, user_agent_name()) {
        hs
    } else {
        with_header(hs, user_agent_name(), user_agent)
    };
    if !has_name(hs, user_agent_name()) {
        lemma_lookup_set_same(hs, user_agent_name(), user_agent);
        assert(lower(user_agent_name()) =~= user_agent_name());
        lemma_with_header_wf(hs, user_agent_name(), user_agent);
    }
    lemma_lookup_set_other(with_agent, connection_name(), close_value(), user_agent_name());
    lemma_lookup_set_same(with_agent, connection_name(), close_value());
}

proof fn lemma_with_header_wf(hs: HeaderList, n: Seq<u8>, v: Seq<u8>)
    requires
        header_list_wf(hs),
        lower(n) == n,
    ensures
        header_list_wf(with_header(hs, n, v)),
{
    let hs2 = with_header(hs, n, v);
    if has_name(hs, n) {
        let k = index_of_name(hs, n);
        assert forall|i: int, j: int| 0 <= i < j < hs2.len() implies #[trigger] hs2[i].0
            != #[trigger] hs2[j].0 by {
            if i == k {
                assert(hs[j].0 != hs[k].0);
            } else if j == k {
                assert(hs[i].0 != hs[k].0);
            } else {
                assert(hs[i].0 != hs[j].0);
            }
        }
    } else {
        assert forall|i: int, j: int| 0 <= i < j < hs2.len() implies #[trigger] hs2[i].0
            != #[trigger] hs2[j].0 by {
            if j == hs.len() {
                assert(hs[i].0 != n);
            } else {
                assert(hs[i].0 != hs[j].0);
            }
        }
    }
}

/// A scheme other than `http` and `https` has no connection target, so a call on
/// such a URL fails before any request is handed out.
pub proof fn lemma_unsupported_scheme_rejected(u: UrlView)
    requires
        u.scheme != http_scheme(),
        u.scheme != https_scheme(),
    ensures
        target_of(u) is None,
{
}

/// An explicit port wins over the scheme's default port; without one the default
/// (80 for `http`, 443 for `https`) is used.
pub proof fn lemma_explicit_port(u: UrlView)
    requires
        target_of(u) is Some,
    ensures
        u.port matches Some(p) ==> target_of(u).unwrap().2 == p,
        u.port is None && u.scheme == http_scheme() ==> target_of(u).unwrap().2 == 80,
        u.port is None && u.scheme == https_scheme() ==> target_of(u).unwrap().2 == 443,
{
    assert(https_scheme().len() != http_scheme().len());
}

} // verus!
