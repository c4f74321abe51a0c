use oxhttp::client::{connection_target, Client, ClientError, ErrorKind, InvalidHeader, Step, Transport};
use oxhttp::model::{Method, Request, Response};
use oxhttp::url::Url;

fn url(s: &str) -> Url {
    Url::parse(s.as_bytes()).unwrap()
}

fn text(u: &Url) -> String {
    let mut out = String::from_utf8(u.scheme().clone()).unwrap();
    out.push_str("://");
    if let Some(h) = u.host() {
        out.push_str(&String::from_utf8(h).unwrap());
    }
    if let Some(p) = u.port() {
        out.push_str(&format!(":{}", p));
    }
    out.push_str(&String::from_utf8(u.path().clone()).unwrap());
    out
}

fn redirect(status: u16, location: &str) -> Response {
    let mut r = Response::new(status);
    r.set_header(b"Location", location.as_bytes().to_vec());
    r
}

struct Sent {
    method: Method,
    url: String,
    user_agent: Option<Vec<u8>>,
    connection: Option<Vec<u8>>,
}

/// Runs a call against `server`, recording every request handed out.
fn run(
    client: &Client,
    request: Request,
    server: impl Fn(&Sent) -> Response,
) -> (Result<Response, ClientError>, Vec<Sent>) {
    let (mut flow, mut step) = client.request(request);
    let mut sent = Vec::new();
    loop {
        match step {
            Step::Done(r) => return (Ok(r), sent),
            Step::Failed(e) => return (Err(e), sent),
            Step::Send(_) => {
                let req = flow.pending_request();
                let s = Sent {
                    method: req.method(),
                    url: text(req.url()),
                    user_agent: req.header(b"user-agent"),
                    connection: req.header(b"connection"),
                };
                let response = server(&s);
                sent.push(s);
                step = flow.on_response(response);
            }
        }
    }
}

#[test]
fn moved_permanently_then_ok_takes_two_attempts() {
    let mut client = Client::new();
    client.set_redirection_limit(1);
    let request = Request::new(Method::Get, url("http://example.com/a"));
    let (result, sent) = run(&client, request, |s| {
        if s.url == "http://example.com/a" {
            redirect(301, "/b")
        } else {
            Response::new(200)
        }
    });
    let response = result.ok().unwrap();
    assert_eq!(response.status(), 200);
    assert_eq!(sent.len(), 2);
    assert_eq!(sent[1].url, "http://example.com/b");
}

#[test]
fn redirect_limit_bounds_attempts() {
    let mut client = Client::new();
    client.set_redirection_limit(2);
    let request = Request::new(Method::Get, url("http://example.com/0"));
    let (result, sent) = run(&client, request, |s| {
        let n: u32 = s.url.rsplit('/').next().unwrap().parse().unwrap();
        redirect(302, &format!("/{}", n + 1))
    });
    assert_eq!(sent.len(), 3);
    match result {
        Err(ClientError::TooManyRedirects(u)) => assert_eq!(text(&u), "http://example.com/3"),
        _ => panic!("expected too many redirects"),
    }
}

#[test]
fn default_limit_follows_nothing() {
    let client = Client::new();
    let request = Request::new(Method::Get, url("http://example.com/"));
    let (result, sent) = run(&client, request, |_| redirect(301, "/elsewhere"));
    assert_eq!(sent.len(), 1);
    assert_eq!(result.err().unwrap().kind(), ErrorKind::TooManyRedirects);
}

#[test]
fn head_stays_head_after_found() {
    let mut client = Client::new();
    client.set_redirection_limit(3);
    let request = Request::new(Method::Head, url("http://example.com/x"));
    let (result, sent) = run(&client, request, |s| {
        if s.url == "http://example.com/x" {
            redirect(302, "/y")
        } else {
            Response::new(200)
        }
    });
    assert_eq!(result.ok().unwrap().status(), 200);
    assert_eq!(sent[1].method, Method::Head);
}

#[test]
fn get_stays_get_after_found() {
    let mut client = Client::new();
    client.set_redirection_limit(3);
    let request = Request::new(Method::Get, url("http://example.com/x"));
    let (_, sent) = run(&client, request, |s| {
        if s.url == "http://example.com/x" {
            redirect(302, "/y")
        } else {
            Response::new(200)
        }
    });
    assert_eq!(sent.len(), 2);
    assert_eq!(sent[1].method, Method::Get);
}

#[test]
fn post_becomes_get_after_see_other() {
    let mut client = Client::new();
    client.set_redirection_limit(3);
    let request = Request::new(Method::Post, url("http://example.com/form"));
    let (_, sent) = run(&client, request, |s| {
        if s.url == "http://example.com/form" {
            redirect(303, "done")
        } else {
            Response::new(200)
        }
    });
    assert_eq!(sent[1].method, Method::Get);
    assert_eq!(sent[1].url, "http://example.com/done");
}

#[test]
fn post_temporary_redirect_not_followed() {
    let mut client = Client::new();
    client.set_redirection_limit(3);
    let request = Request::new(Method::Post, url("http://example.com/form"));
    let (result, sent) = run(&client, request, |_| redirect(307, "/other"));
    let response = result.ok().unwrap();
    assert_eq!(response.status(), 307);
    assert_eq!(response.header(b"location"), Some(b"/other".to_vec()));
    assert_eq!(sent.len(), 1);
}

#[test]
fn get_permanent_redirect_keeps_method() {
    let mut client = Client::new();
    client.set_redirection_limit(3);
    let request = Request::new(Method::Options, url("https://example.com/"));
    let (_, sent) = run(&client, request, |s| {
        if s.url == "https://example.com/" {
            redirect(308, "https://other.example.org:8443/p")
        } else {
            Response::new(204)
        }
    });
    assert_eq!(sent[1].method, Method::Options);
    assert_eq!(sent[1].url, "https://other.example.org:8443/p");
}

#[test]
fn response_without_location_is_returned() {
    let mut client = Client::new();
    client.set_redirection_limit(3);
    let request = Request::new(Method::Get, url("http://example.com/not_existing"));
    let (result, sent) = run(&client, request, |_| Response::new(404));
    assert_eq!(result.ok().unwrap().status(), 404);
    assert_eq!(sent.len(), 1);
}

#[test]
fn other_status_with_location_is_returned() {
    let mut client = Client::new();
    client.set_redirection_limit(3);
    let request = Request::new(Method::Get, url("http://example.com/"));
    let (result, sent) = run(&client, request, |_| redirect(201, "/created"));
    assert_eq!(result.ok().unwrap().status(), 201);
    assert_eq!(sent.len(), 1);
}

#[test]
fn configured_user_agent_applied_when_absent() {
    let mut client = Client::new();
    client.set_user_agent("OxHTTP/1.0").unwrap();
    let request = Request::new(Method::Get, url("http://example.com"));
    let (_, sent) = run(&client, request, |_| Response::new(200));
    assert_eq!(sent[0].user_agent, Some(b"OxHTTP/1.0".to_vec()));
    assert_eq!(sent[0].connection, Some(b"close".to_vec()));
}

#[test]
fn request_user_agent_wins() {
    let mut client = Client::new();
    client.set_user_agent("OxHTTP/1.0").unwrap();
    let mut request = Request::new(Method::Get, url("http://example.com"));
    request.set_header(b"User-Agent", b"mine/2".to_vec());
    let (_, sent) = run(&client, request, |_| Response::new(200));
    assert_eq!(sent[0].user_agent, Some(b"mine/2".to_vec()));
}

#[test]
fn headers_carry_over_redirects() {
    let mut client = Client::new();
    client.set_user_agent("OxHTTP/1.0").unwrap();
    client.set_redirection_limit(1);
    let mut request = Request::new(Method::Get, url("http://example.com/a"));
    request.set_header(b"Accept", b"text/html".to_vec());
    let (mut flow, _) = client.request(request);
    let step = flow.on_response(redirect(301, "/b"));
    assert!(matches!(step, Step::Send(_)));
    let next = flow.pending_request();
    assert_eq!(next.header(b"accept"), Some(b"text/html".to_vec()));
    assert_eq!(next.header(b"user-agent"), Some(b"OxHTTP/1.0".to_vec()));
    assert!(next.body().is_empty());
}

#[test]
fn invalid_user_agent_rejected() {
    let mut client = Client::new();
    assert_eq!(client.set_user_agent("bad\r\nvalue"), Err(InvalidHeader));
    assert_eq!(client.set_user_agent(" padded"), Err(InvalidHeader));
    assert_eq!(client.set_user_agent(""), Ok(()));
}

#[test]
fn ftp_fails_without_network() {
    let client = Client::new();
    let request = Request::new(Method::Get, url("ftp://example.com/file"));
    let (result, sent) = run(&client, request, |_| panic!("no request may be sent"));
    assert!(sent.is_empty());
    match result {
        Err(ClientError::UnsupportedScheme(s)) => assert_eq!(s, b"ftp".to_vec()),
        _ => panic!("expected an unsupported scheme"),
    }
}

#[test]
fn file_scheme_fails() {
    let client = Client::new();
    let request = Request::new(Method::Get, url("file://example.com/not_existing"));
    let (result, _) = run(&client, request, |_| Response::new(200));
    assert_eq!(result.err().unwrap().kind(), ErrorKind::InvalidInput);
}

#[test]
fn missing_host_fails() {
    let target = connection_target(&url("http:///path"));
    assert!(matches!(target, Err(ClientError::MissingHost)));
}

#[test]
fn explicit_port_overrides_default() {
    let t = connection_target(&url("http://example.com:8080/")).ok().unwrap();
    assert_eq!(t.port, 8080);
    assert_eq!(t.transport, Transport::Plain);
    assert_eq!(t.host, b"example.com".to_vec());
    let t = connection_target(&url("http://example.com:80")).ok().unwrap();
    assert_eq!(t.port, 80);
}

#[test]
fn default_ports() {
    let t = connection_target(&url("http://example.com")).ok().unwrap();
    assert_eq!(t.port, 80);
    let t = connection_target(&url("https://example.com")).ok().unwrap();
    assert_eq!(t.port, 443);
    assert_eq!(t.transport, Transport::Secure);
}

#[test]
fn invalid_location_fails() {
    let mut client = Client::new();
    client.set_redirection_limit(3);
    let request = Request::new(Method::Get, url("http://example.com/"));
    let (result, _) = run(&client, request, |_| redirect(301, "http://host:99999/"));
    match result {
        Err(ClientError::InvalidRedirectTarget(v)) => assert_eq!(v, b"http://host:99999/".to_vec()),
        _ => panic!("expected an invalid target"),
    }
    let request = Request::new(Method::Get, url("http://example.com/"));
    let (result, _) = run(&client, request, |_| redirect(301, "/caf\u{e9}"));
    assert_eq!(result.err().unwrap().kind(), ErrorKind::InvalidRedirectTarget);
}

#[test]
fn redirect_to_ftp_fails_with_invalid_input() {
    let mut client = Client::new();
    client.set_redirection_limit(3);
    let request = Request::new(Method::Get, url("http://example.com/"));
    let (result, sent) = run(&client, request, |_| redirect(302, "ftp://example.com/f"));
    assert_eq!(sent.len(), 1);
    assert_eq!(result.err().unwrap().kind(), ErrorKind::InvalidInput);
}

#[test]
fn timeout_is_kept() {
    let mut client = Client::new();
    assert_eq!(client.timeout(), None);
    client.set_global_timeout(std::time::Duration::from_secs(5));
    assert_eq!(client.timeout(), Some(std::time::Duration::from_secs(5)));
    assert_eq!(client.redirection_limit(), 0);
}

#[test]
fn url_parse_parts() {
    let u = url("HTTP://Example.COM:8080/a/b?q=1");
    assert_eq!(u.scheme(), &b"http".to_vec());
    assert_eq!(u.host(), Some(b"example.com".to_vec()));
    assert_eq!(u.port(), Some(8080));
    assert_eq!(u.path(), &b"/a/b?q=1".to_vec());
    assert_eq!(url("http://example.com").path(), &b"/".to_vec());
    assert_eq!(url("http://example.com?x").path(), &b"/?x".to_vec());
    assert!(Url::parse(b"example.com").is_none());
    assert!(Url::parse(b"http:example.com").is_none());
    assert!(Url::parse(b"http://user@example.com/").is_none());
    assert!(Url::parse(b"http://example.com:65536/").is_none());
    assert!(Url::parse(b"http://example.com:8a/").is_none());
    assert_eq!(url("http://example.com:/").port(), None);
}

#[test]
fn url_join_forms() {
    let base = url("http://example.com/a/b?x=1");
    let j = |s: &str| text(&base.join(s.as_bytes()).unwrap());
    assert_eq!(j("/c"), "http://example.com/c");
    assert_eq!(j("c"), "http://example.com/a/c");
    assert_eq!(j("?y=2"), "http://example.com/a/b?y=2");
    assert_eq!(j(""), "http://example.com/a/b?x=1");
    assert_eq!(j("//other.org:81/z"), "http://other.org:81/z");
    assert_eq!(j("https://secure.org"), "https://secure.org/");
    assert!(base.join(b"mailto:someone").is_none());
}

#[test]
fn header_names_ignore_case() {
    let mut r = Response::new(200);
    r.set_header(b"Content-Type", b"text/html".to_vec());
    r.set_header(b"CONTENT-TYPE", b"text/plain".to_vec());
    assert_eq!(r.headers().len(), 1);
    assert_eq!(r.header(b"content-type"), Some(b"text/plain".to_vec()));
    assert!(r.headers().contains(b"Content-type"));
    assert_eq!(r.header(b"location"), None);
}

#[test]
fn safe_methods() {
    assert!(Method::Get.is_safe());
    assert!(Method::Head.is_safe());
    assert!(!Method::Post.is_safe());
    assert!(!Method::Delete.is_safe());
}

#[test]
fn url_join_dot_segments() {
    let base = url("http://example.com/a/b");
    let j = |s: &str| text(&base.join(s.as_bytes()).unwrap());
    assert_eq!(j("../c"), "http://example.com/c");
    assert_eq!(j("./c"), "http://example.com/a/c");
    assert_eq!(j("/x/./y/../z"), "http://example.com/x/z");
    assert_eq!(j(".."), "http://example.com/");
    assert_eq!(j("/../../q?k=../v"), "http://example.com/q?k=../v");
    assert_eq!(text(&url("http://example.com/a/b/..")), "http://example.com/a/");
}
