//! The HTTP request and response as plain values, and the request method by name.

use std::collections::HashMap;
use vstd::prelude::*;
use vstd::string::StringExecFns;

verus! {

/// A request to send: target, method, headers, body, and how to send it.
pub struct Request {
    pub url: String,
    pub method: String,
    pub headers: HashMap<String, String>,
    pub body: String,
    /// Whether the system proxy is used.
    pub use_proxy: bool,
    /// Whether redirects are followed.
    pub use_redirect: bool,
    /// An address to connect to instead of resolving the host; empty for none.
    pub use_resolve: String,
    /// Whether the server's certificate is checked.
    pub use_certs_check: bool,
}

/// What came back: status line, headers, body, and the address connected to.
pub struct Response {
    pub status: String,
    pub headers: HashMap<String, String>,
    pub body: String,
    pub addr: String,
}

/// The methods a request can have.
#[derive(Debug, Clone, Copy, PartialEq, Eq, Structural)]
pub enum Method {
    Head,
    Get,
    Post,
    Put,
    Patch,
    Delete,
    Options,
}

/// A character with ASCII upper-case letters made lower-case.
pub open spec fn ascii_lower(c: char) -> char {
    if 'A' <= c <= 'Z' { ((c as u8) + 32) as char } else { c }
}

/// Text with ASCII upper-case letters made lower-case.
pub open spec fn lower(s: Seq<char>) -> Seq<char> {
    Seq::new(s.len(), |i: int| ascii_lower(s[i]))
}

/// The method a name stands for, ASCII case ignored.
pub open spec fn method_of(s: Seq<char>) -> Option<Method> {
    let l = lower(s);
    if l == "head"@ { Some(Method::Head) }
    else if l == "get"@ { Some(Method::Get) }
    else if l == "post"@ { Some(Method::Post) }
    else if l == "put"@ { Some(Method::Put) }
    else if l == "patch"@ { Some(Method::Patch) }
    else if l == "delete"@ { Some(Method::Delete) }
    else if l == "options"@ { Some(Method::Options) }
    else { None }
}

fn lower_exec(s: &str) -> (r: Vec<char>)
    ensures
        r@ == lower(s@),
{
    let n = s.unicode_len();
    let mut r: Vec<char> = Vec::new();
    let mut i: usize = 0;
    while i < n
        invariant
            n == s@.len(),
            i <= n,
            r@ == lower(s@.take(i as int)),
        decreases n - i,
    {
        let c = s.get_char(i);
        let l = if 'A' <= c && c <= 'Z' { ((c as u8) + 32) as char } else { c };
        r.push(l);
        i = i + 1;
        assert(r@ =~= lower(s@.take(i as int)));
    }
    assert(s@.take(n as int) =~= s@);
    r
}

fn same_chars(a: &Vec<char>, b: &str) -> (r: bool)
    ensures
        r == (a@ == b@),
{
    let n = b.unicode_len();
    if a.len() != n {
        return false;
    }
    let mut i: usize = 0;
    while i < n
        invariant
            n == b@.len(),
            a@.len() == n,
            i <= n,
            a@.take(i as int) == b@.take(i as int),
        decreases n - i,
    {
        if a[i] != b.get_char(i) {
            return false;
        }
        i = i + 1;
        assert(a@.take(i as int) =~= b@.take(i as int));
    }
    assert(a@ =~= a@.take(n as int));
    assert(b@ =~= b@.take(n as int));
    true
}

/// The method a name stands for, ASCII case ignored; `None` for an unknown name.
pub fn parse_method(name: &str) -> (r: Option<Method>)
    ensures
        r == method_of(name@),
{
    let l = lower_exec(name);
    if same_chars(&l, "head") { Some(Method::Head) }
    else if same_chars(&l, "get") { Some(Method::Get) }
    else if same_chars(&l, "post") { Some(Method::Post) }
    else if same_chars(&l, "put") { Some(Method::Put) }
    else if same_chars(&l, "patch") { Some(Method::Patch) }
    else if same_chars(&l, "delete") { Some(Method::Delete) }
    else if same_chars(&l, "options") { Some(Method::Options) }
    else { None }
}

/// Whether the url crate parses some text as an absolute URL.
pub uninterp spec fn url_parses(s: Seq<char>) -> bool;

/// The host of the URL the text parses to, if it has one.
pub uninterp spec fn url_host(s: Seq<char>) -> Option<Seq<char>>;

/// Relies on `url::Url::parse` and then `url::Url::host_str`: both depend on the
/// text alone; on a parse failure, the error's description.
#[verifier::external_body]
fn host_of(s: &str) -> (r: Result<Option<String>, String>)
    ensures
        r is Ok <==> url_parses(s@),
        r matches Ok(h) ==> match h {
            Some(x) => url_host(s@) == Some(x@),
            None => url_host(s@) is None,
        },
{
    let u = url::Url::parse(s).map_err(|e| format!("{e:?}"))?;
    Ok(u.host_str().map(|h| h.to_string()))
}

/// How to send a request, decided from the request alone.
pub struct RequestPlan {
    /// Bypass the system proxy.
    pub no_proxy: bool,
    /// Do not follow redirects.
    pub no_redirect: bool,
    /// Accept any server certificate.
    pub accept_invalid_certs: bool,
    /// Connect to this address (still text) for this host instead of resolving it.
    pub resolve: Option<(String, String)>,
    pub method: Method,
    /// Whether the body is sent.
    pub send_body: bool,
}

/// Decides how to send `req`: client options from its flags, the pinned address
/// for the URL's host when one is given, and the method. Fails when an address
/// is given but the URL has no host, or when the method is unknown.
pub fn plan_request(req: &Request) -> (r: Result<RequestPlan, String>)
    ensures
        r matches Ok(p) ==> {
            &&& p.no_proxy == !req.use_proxy
            &&& p.no_redirect == !req.use_redirect
            &&& p.accept_invalid_certs == !req.use_certs_check
            &&& method_of(req.method@) == Some(p.method)
            &&& p.send_body == (req.body@.len() > 0)
            &&& (p.resolve is Some <==> req.use_resolve@.len() > 0)
            &&& (p.resolve matches Some((h, a)) ==> a@ == req.use_resolve@ && url_host(req.url@) == Some(h@))
        },
        req.use_resolve@.len() == 0 ==> (r is Ok <==> method_of(req.method@) is Some),
        req.use_resolve@.len() > 0 && !url_parses(req.url@) ==> r is Err,
        method_of(req.method@) is None ==> r is Err,
        req.use_resolve@.len() == 0 && method_of(req.method@) is None
            ==> r is Err && r->Err_0@ == "unknown http method"@,
        r is Err && url_parses(req.url@) && method_of(req.method@) is Some ==> r->Err_0@ == "no host"@,
        req.use_resolve@.len() > 0 && url_parses(req.url@) && url_host(req.url@) is None ==> r is Err,
        req.use_resolve@.len() > 0 && url_parses(req.url@) && url_host(req.url@) is Some
            ==> (r is Ok <==> method_of(req.method@) is Some),
{
    let mut resolve: Option<(String, String)> = None;
    if !req.use_resolve.as_str().is_empty() {
        let host = match host_of(req.url.as_str())? {
            Some(h) => h,
            None => { return Err(String::from_str("no host")); }
        };
        resolve = Some((host, req.use_resolve.clone()));
    }
    let method = match parse_method(req.method.as_str()) {
        Some(m) => m,
        None => { return Err(String::from_str("unknown http method")); }
    };
    Ok(RequestPlan {
        no_proxy: !req.use_proxy,
        no_redirect: !req.use_redirect,
        accept_invalid_certs: !req.use_certs_check,
        resolve,
        method,
        send_body: !req.body.as_str().is_empty(),
    })
}

} // verus!
