//! The static site that answers requests which are not for the proxy.

use crate::codec::{self, encode_standard};
use crate::protocol::http_head::{
    self, find_header, head_step, http_date, read_head, without_query, HeadStep, HeadView,
    HeaderField, RequestHead, HTTP_DATE_END,
};
use crate::text::{
    self, decimal, eq_ignore_ascii_case, joined, split_once, str_eq, trim, utf8_text,
};
use crate::wire::append;
use vstd::prelude::*;
use vstd::string::*;
use vstd::utf8::*;

pub use crate::protocol::http_head::{find_header_end, looks_like_http};

verus! {

pub const DEFAULT_REQUEST_TIMEOUT_SECS: u64 = 10;

pub const DEFAULT_MAX_REQUEST_SIZE: usize = 8192;

pub const MIN_REQUEST_SIZE: usize = 256;

pub const MAX_PAGE_SIZE: usize = 2097152;

/// Request timeout of a configuration that names none.
pub fn default_request_timeout_secs() -> (r: u64)
    ensures
        r == DEFAULT_REQUEST_TIMEOUT_SECS,
{
    DEFAULT_REQUEST_TIMEOUT_SECS
}

/// Request size limit of a configuration that names none.
pub fn default_max_request_size() -> (r: usize)
    ensures
        r == DEFAULT_MAX_REQUEST_SIZE,
{
    DEFAULT_MAX_REQUEST_SIZE
}

/// The `[fallback]` table.
pub struct FallbackConfig {
    pub page: String,
    pub dashboard_password: Option<String>,
    pub request_timeout_secs: u64,
    pub max_request_size: usize,
}

/// Why a fallback configuration is refused.
#[derive(Clone, Copy, Debug)]
pub enum FallbackError {
    InvalidLimits,
    EmptyPassword,
    PageTooLarge,
}

impl FallbackError {
    /// The words of the error.
    pub open spec fn text(self) -> Seq<char> {
        match self {
            FallbackError::InvalidLimits => "protocol: invalid fallback request limits"@,
            FallbackError::EmptyPassword => "protocol: dashboard password must not be empty"@,
            FallbackError::PageTooLarge => "protocol: fallback page exceeds 2097152 bytes"@,
        }
    }

    /// The words of the error.
    pub fn message(&self) -> (r: String)
        ensures
            r@ == self.text(),
    {
        match self {
            FallbackError::InvalidLimits => "protocol: invalid fallback request limits".to_string(),
            FallbackError::EmptyPassword => {
                "protocol: dashboard password must not be empty".to_string()
            },
            FallbackError::PageTooLarge => {
                "protocol: fallback page exceeds 2097152 bytes".to_string()
            },
        }
    }
}

/// Whether a configuration can be used, before its page is read.
pub open spec fn config_error(c: FallbackConfig) -> Option<FallbackError> {
    if c.request_timeout_secs == 0 || c.max_request_size < MIN_REQUEST_SIZE {
        Some(FallbackError::InvalidLimits)
    } else if c.dashboard_password matches Some(p) && p@.len() == 0 {
        Some(FallbackError::EmptyPassword)
    } else {
        None
    }
}

impl FallbackConfig {
    /// A configuration with defaults for all but the page.
    pub fn new(page: String) -> (r: Self)
        ensures
            r.page == page,
            r.dashboard_password is None,
            r.request_timeout_secs == DEFAULT_REQUEST_TIMEOUT_SECS,
            r.max_request_size == DEFAULT_MAX_REQUEST_SIZE,
    {
        FallbackConfig {
            page,
            dashboard_password: None,
            request_timeout_secs: default_request_timeout_secs(),
            max_request_size: default_max_request_size(),
        }
    }

    /// Whether the configuration can be used, before its page is read.
    pub fn validate(&self) -> (r: Result<(), FallbackError>)
        ensures
            match r {
                Ok(()) => config_error(*self) is None,
                Err(error) => config_error(*self) == Some(error),
            },
    {
        if self.request_timeout_secs == 0 || self.max_request_size < MIN_REQUEST_SIZE {
            return Err(FallbackError::InvalidLimits);
        }
        if let Some(password) = &self.dashboard_password {
            if text::chars_of(password).len() == 0 {
                return Err(FallbackError::EmptyPassword);
            }
        }
        Ok(())
    }
}

/// Where a request is routed to.
#[derive(Clone, Copy, Debug, PartialEq, Eq, Structural)]
pub enum FallbackRoute {
    Page { head_only: bool },
    Dashboard { head_only: bool },
    ApiStatus { head_only: bool },
    Robots { head_only: bool },
    NotFound { head_only: bool },
    MethodNotAllowed,
    BadRequest,
    Unauthorized { head_only: bool },
}

/// Where a page behind the dashboard password leads.
pub open spec fn protected(
    route: FallbackRoute,
    head_only: bool,
    authorized: bool,
    has_password: bool,
) -> FallbackRoute {
    if authorized {
        route
    } else if has_password {
        FallbackRoute::Unauthorized { head_only }
    } else {
        FallbackRoute::NotFound { head_only }
    }
}

/// Where a method and a path without query lead.
pub open spec fn route_of(
    method: Seq<char>,
    path: Seq<char>,
    authorized: bool,
    has_password: bool,
) -> FallbackRoute {
    let head_only = method == "HEAD"@;
    if method != "GET"@ && !head_only {
        FallbackRoute::MethodNotAllowed
    } else if path == "/"@ || path == "/index.html"@ {
        FallbackRoute::Page { head_only }
    } else if path == "/dashboard"@ {
        protected(FallbackRoute::Dashboard { head_only }, head_only, authorized, has_password)
    } else if path == "/api/status"@ {
        protected(FallbackRoute::ApiStatus { head_only }, head_only, authorized, has_password)
    } else if path == "/robots.txt"@ {
        FallbackRoute::Robots { head_only }
    } else {
        FallbackRoute::NotFound { head_only }
    }
}

/// The token that a dashboard user has to send.
pub open spec fn expected_token(password: Seq<char>) -> Seq<char> {
    codec::base64_form(encode_utf8("admin:"@ + password), false, true)
}

/// Whether the value of an Authorization header opens the dashboard.
pub open spec fn value_authorizes(value: Seq<char>, password: Option<Seq<char>>) -> bool {
    match (password, text::cut(value, ' ')) {
        (Some(p), Some((scheme, token))) => {
            &&& text::same_ignoring_case(scheme, "basic"@)
            &&& text::trimmed(token) == expected_token(p)
        },
        _ => false,
    }
}

/// Whether the headers of a request open the dashboard: the first Authorization header decides.
pub open spec fn headers_authorize(
    hs: Seq<http_head::FieldView>,
    password: Option<Seq<char>>,
) -> bool {
    match http_head::first_named(hs, "authorization"@, 0) {
        Some(i) => http_head::value_text(hs[i]) matches Some(v) && value_authorizes(v, password),
        None => false,
    }
}

/// `s`, or the empty text.
pub open spec fn or_empty(s: Option<Seq<char>>) -> Seq<char> {
    match s {
        Some(t) => t,
        None => Seq::empty(),
    }
}

/// Where a request head leads.
pub open spec fn route_of_head(h: HeadView, password: Option<Seq<char>>) -> FallbackRoute {
    if h.version != Some(0u8) && h.version != Some(1u8) {
        FallbackRoute::BadRequest
    } else if h.version == Some(1u8) && !http_head::present(h.headers, "host"@) {
        FallbackRoute::BadRequest
    } else {
        route_of(
            or_empty(h.method),
            http_head::path_without_query(or_empty(h.path)),
            headers_authorize(h.headers, password),
            password is Some,
        )
    }
}

/// Where the bytes of a request lead.
pub open spec fn route_of_request(request: Seq<u8>, password: Option<Seq<char>>) -> FallbackRoute {
    match http_head::request_head(request) {
        Some(h) => route_of_head(h, password),
        None => FallbackRoute::BadRequest,
    }
}

/// Where an HTTP/2 request leads.
pub open spec fn route_of_h2(
    method: Seq<char>,
    path: Seq<char>,
    authorization: Option<Seq<char>>,
    password: Option<Seq<char>>,
) -> FallbackRoute {
    route_of(
        method,
        path,
        authorization matches Some(v) && value_authorizes(v, password),
        password is Some,
    )
}

/// A well-formed HTTP/1 request and an HTTP/2 request with the same method, path and
/// authorization lead to the same place.
pub proof fn lemma_http1_and_http2_agree(h: HeadView, password: Option<Seq<char>>)
    requires
        h.version == Some(0u8) || (h.version == Some(1u8) && http_head::present(
            h.headers,
            "host"@,
        )),
        h.method is Some,
        h.path is Some,
    ensures
        route_of_head(h, password) == route_of_h2(
            h.method->0,
            http_head::path_without_query(h.path->0),
            match http_head::first_named(h.headers, "authorization"@, 0) {
                Some(i) => http_head::value_text(h.headers[i]),
                None => None,
            },
            password,
        ),
{
}

/// The dashboard and its status are out of reach without the password: where none is set nobody
/// gets there, and where one is set only who sends it.
pub proof fn lemma_dashboard_is_protected(request: Seq<u8>, password: Option<Seq<char>>)
    requires
        route_of_request(request, password) is Dashboard || route_of_request(
            request,
            password,
        ) is ApiStatus,
    ensures
        password is Some,
        http_head::request_head(request) matches Some(h) && headers_authorize(h.headers, password),
{
}

/// Whether two byte strings are equal, looking at every byte of the longer one.
pub fn constant_time_eq(a: &[u8], b: &[u8]) -> (r: bool)
    ensures
        r == (a@ == b@),
{
    let x: usize = a.len();
    let y: usize = b.len();
    let mut diff: usize = x ^ y;
    assert((x ^ y) == 0 <==> x == y) by (bit_vector);
    let longer: usize = if x < y {
        y
    } else {
        x
    };
    for i in 0..longer
        invariant
            x == a@.len(),
            y == b@.len(),
            longer >= x,
            longer >= y,
            longer == x || longer == y,
            (diff == 0) == (x == y && forall|k: int| 0 <= k < i ==> a@[k] == b@[k]),
    {
        let left: u8 = if i < x {
            a[i]
        } else {
            0
        };
        let right: u8 = if i < y {
            b[i]
        } else {
            0
        };
        let before: usize = diff;
        let bits: usize = (left ^ right) as usize;
        assert((left ^ right) == 0 <==> left == right) by (bit_vector);
        assert((before | bits) == 0 <==> before == 0 && bits == 0) by (bit_vector);
        diff = diff | bits;
    }
    if diff == 0 {
        assert(a@ =~= b@);
    }
    diff == 0
}

proof fn lemma_same_encoding(s: Seq<char>, t: Seq<char>)
    requires
        encode_utf8(s) == encode_utf8(t),
    ensures
        s == t,
{
    encode_utf8_decode_utf8(s);
    encode_utf8_decode_utf8(t);
}

/// Whether the value of an Authorization header opens the dashboard.
pub fn is_dashboard_authorized_value(value: &str, dashboard_password: Option<&str>) -> (r: bool)
    ensures
        r == value_authorizes(value@, http_head::str_view(dashboard_password)),
{
    let password = match dashboard_password {
        Some(password) => password,
        None => return false,
    };
    let (scheme, token) = match split_once(value, ' ') {
        Some(parts) => parts,
        None => return false,
    };
    if !eq_ignore_ascii_case(scheme, "basic") {
        return false;
    }
    let credentials = joined("admin:".to_string(), password);
    let expected = encode_standard(credentials.as_str().as_bytes());
    let sent = trim(token);
    let r: bool = constant_time_eq(sent.as_bytes(), expected.as_str().as_bytes());
    proof {
        if r {
            lemma_same_encoding(sent@, expected@);
        }
    }
    r
}

/// Whether the headers of a request open the dashboard.
pub fn is_dashboard_authorized(
    headers: &Vec<HeaderField>,
    dashboard_password: Option<&str>,
) -> (r: bool)
    ensures
        r == headers_authorize(
            http_head::fields(headers@),
            http_head::str_view(dashboard_password),
        ),
{
    let i: usize = match find_header(headers, "authorization") {
        Some(i) => i,
        None => return false,
    };
    assert(http_head::fields(headers@)[i as int] == headers@[i as int]@);
    match utf8_text(headers[i].value.as_slice()) {
        Some(value) => is_dashboard_authorized_value(value, dashboard_password),
        None => false,
    }
}

fn protect(route: FallbackRoute, head_only: bool, authorized: bool, has_password: bool) -> (r:
    FallbackRoute)
    ensures
        r == protected(route, head_only, authorized, has_password),
{
    if authorized {
        route
    } else if has_password {
        FallbackRoute::Unauthorized { head_only }
    } else {
        FallbackRoute::NotFound { head_only }
    }
}

/// Where a method and a path without query lead.
fn route(method: &str, path: &str, authorized: bool, has_password: bool) -> (r: FallbackRoute)
    ensures
        r == route_of(method@, path@, authorized, has_password),
{
    let head_only: bool = str_eq(method, "HEAD");
    if !str_eq(method, "GET") && !head_only {
        return FallbackRoute::MethodNotAllowed;
    }
    if str_eq(path, "/") || str_eq(path, "/index.html") {
        FallbackRoute::Page { head_only }
    } else if str_eq(path, "/dashboard") {
        protect(FallbackRoute::Dashboard { head_only }, head_only, authorized, has_password)
    } else if str_eq(path, "/api/status") {
        protect(FallbackRoute::ApiStatus { head_only }, head_only, authorized, has_password)
    } else if str_eq(path, "/robots.txt") {
        FallbackRoute::Robots { head_only }
    } else {
        FallbackRoute::NotFound { head_only }
    }
}

/// The text of an optional string, or the empty text.
fn text_or_empty(s: &Option<String>) -> (r: &str)
    ensures
        r@ == or_empty(http_head::text_view(*s)),
{
    match s {
        Some(t) => t.as_str(),
        None => {
            proof {
                reveal_strlit("");
            }
            assert(""@ =~= Seq::<char>::empty());
            ""
        },
    }
}

/// Where a request head leads.
pub fn route_head(head: &RequestHead, dashboard_password: Option<&str>) -> (r: FallbackRoute)
    ensures
        r == route_of_head(head@, http_head::str_view(dashboard_password)),
{
    match head.version {
        Some(0) => {},
        Some(1) => {
            if !http_head::header_present(&head.headers, "host") {
                return FallbackRoute::BadRequest;
            }
        },
        _ => {
            return FallbackRoute::BadRequest;
        },
    }
    route(
        text_or_empty(&head.method),
        without_query(text_or_empty(&head.path)),
        is_dashboard_authorized(&head.headers, dashboard_password),
        dashboard_password.is_some(),
    )
}

/// Where the bytes of a request lead.
pub fn route_request(request: &[u8], dashboard_password: Option<&str>) -> (r: FallbackRoute)
    ensures
        r == route_of_request(request@, http_head::str_view(dashboard_password)),
{
    match read_head(request) {
        Some(head) => route_head(&head, dashboard_password),
        None => FallbackRoute::BadRequest,
    }
}

/// Where an HTTP/2 request leads.
pub fn route_h2_parts(
    method: &str,
    path: &str,
    authorization: Option<&str>,
    dashboard_password: Option<&str>,
) -> (r: FallbackRoute)
    ensures
        r == route_of_h2(
            method@,
            path@,
            http_head::str_view(authorization),
            http_head::str_view(dashboard_password),
        ),
{
    let authorized: bool = match authorization {
        Some(value) => is_dashboard_authorized_value(value, dashboard_password),
        None => false,
    };
    route(method, path, authorized, dashboard_password.is_some())
}

/// A response: status line, headers and body.
pub struct ResponseSpec<'a> {
    pub status: &'static str,
    pub content_type: &'static str,
    pub extra_headers: &'static str,
    pub head_only: bool,
    pub body: &'a [u8],
}

/// The mathematical content of a response.
pub struct ResponseView {
    pub status: Seq<char>,
    pub content_type: Seq<char>,
    pub extra_headers: Seq<char>,
    pub head_only: bool,
    pub body: Seq<u8>,
}

impl<'a> View for ResponseSpec<'a> {
    type V = ResponseView;

    open spec fn view(&self) -> ResponseView {
        ResponseView {
            status: self.status@,
            content_type: self.content_type@,
            extra_headers: self.extra_headers@,
            head_only: self.head_only,
            body: self.body@,
        }
    }
}

/// What can be served: the fallback page, the dashboard page and the status document.
pub struct Documents {
    pub page: Seq<u8>,
    pub dashboard: Seq<u8>,
    pub status: Seq<u8>,
}

/// Whether a route asks for the head of a response alone.
pub open spec fn route_head_only(route: FallbackRoute) -> bool {
    match route {
        FallbackRoute::Page { head_only } => head_only,
        FallbackRoute::Dashboard { head_only } => head_only,
        FallbackRoute::ApiStatus { head_only } => head_only,
        FallbackRoute::Robots { head_only } => head_only,
        FallbackRoute::NotFound { head_only } => head_only,
        FallbackRoute::MethodNotAllowed => false,
        FallbackRoute::BadRequest => false,
        FallbackRoute::Unauthorized { head_only } => head_only,
    }
}

/// The body of the response on a route.
pub open spec fn route_body(route: FallbackRoute, docs: Documents) -> Seq<u8> {
    match route {
        FallbackRoute::Page { .. } => docs.page,
        FallbackRoute::Dashboard { .. } => docs.dashboard,
        FallbackRoute::ApiStatus { .. } => docs.status,
        FallbackRoute::Robots { .. } => encode_utf8("User-agent: *\r\nDisallow:\r\n"@),
        FallbackRoute::NotFound { .. } => encode_utf8(
            "<!doctype html><title>404 Not Found</title><h1>Not Found</h1>"@,
        ),
        FallbackRoute::MethodNotAllowed => encode_utf8(
            "<!doctype html><title>405 Method Not Allowed</title><h1>Method Not Allowed</h1>"@,
        ),
        FallbackRoute::BadRequest => encode_utf8(
            "<!doctype html><title>400 Bad Request</title><h1>Bad Request</h1>"@,
        ),
        FallbackRoute::Unauthorized { .. } => encode_utf8(
            "<!doctype html><title>401 Unauthorized</title><h1>Unauthorized</h1>"@,
        ),
    }
}

/// The content type of the response on a route.
pub open spec fn route_content_type(route: FallbackRoute) -> Seq<char> {
    match route {
        FallbackRoute::ApiStatus { .. } => "application/json; charset=utf-8"@,
        FallbackRoute::Robots { .. } => "text/plain; charset=utf-8"@,
        _ => "text/html; charset=utf-8"@,
    }
}

/// The status line of the response on a route, without the version.
pub open spec fn route_status(route: FallbackRoute) -> Seq<char> {
    match route {
        FallbackRoute::NotFound { .. } => "404 Not Found"@,
        FallbackRoute::MethodNotAllowed => "405 Method Not Allowed"@,
        FallbackRoute::BadRequest => "400 Bad Request"@,
        FallbackRoute::Unauthorized { .. } => "401 Unauthorized"@,
        _ => "200 OK"@,
    }
}

/// The status code of the response on a route.
pub open spec fn route_status_code(route: FallbackRoute) -> u16 {
    match route {
        FallbackRoute::NotFound { .. } => 404,
        FallbackRoute::MethodNotAllowed => 405,
        FallbackRoute::BadRequest => 400,
        FallbackRoute::Unauthorized { .. } => 401,
        _ => 200,
    }
}

/// The headers of an HTTP/1 response that depend on the route.
pub open spec fn route_extra_headers(route: FallbackRoute) -> Seq<char> {
    match route {
        FallbackRoute::ApiStatus { .. } => "Cache-Control: no-store\r\n"@,
        FallbackRoute::Robots { .. } => "Cache-Control: public, max-age=3600\r\n"@,
        FallbackRoute::MethodNotAllowed => "Allow: GET, HEAD\r\nCache-Control: no-cache\r\n"@,
        FallbackRoute::Unauthorized { .. } => {
            "WWW-Authenticate: Basic realm=\"trojan-rs dashboard\"\r\nCache-Control: no-store\r\n"@
        },
        _ => "Cache-Control: no-cache\r\n"@,
    }
}

/// The response on a route.
pub open spec fn response_of(route: FallbackRoute, docs: Documents) -> ResponseView {
    ResponseView {
        status: route_status(route),
        content_type: route_content_type(route),
        extra_headers: route_extra_headers(route),
        head_only: route_head_only(route),
        body: route_body(route, docs),
    }
}

fn body_of<'a>(
    route: FallbackRoute,
    page: &'a [u8],
    dashboard: &'a [u8],
    status: &'a [u8],
) -> (r: &'a [u8])
    ensures
        r@ == route_body(
            route,
            Documents { page: page@, dashboard: dashboard@, status: status@ },
        ),
{
    match route {
        FallbackRoute::Page { .. } => page,
        FallbackRoute::Dashboard { .. } => dashboard,
        FallbackRoute::ApiStatus { .. } => status,
        FallbackRoute::Robots { .. } => "User-agent: *\r\nDisallow:\r\n".as_bytes(),
        FallbackRoute::NotFound { .. } => {
            "<!doctype html><title>404 Not Found</title><h1>Not Found</h1>".as_bytes()
        },
        FallbackRoute::MethodNotAllowed => {
            "<!doctype html><title>405 Method Not Allowed</title><h1>Method Not Allowed</h1>".as_bytes()
        },
        FallbackRoute::BadRequest => {
            "<!doctype html><title>400 Bad Request</title><h1>Bad Request</h1>".as_bytes()
        },
        FallbackRoute::Unauthorized { .. } => {
            "<!doctype html><title>401 Unauthorized</title><h1>Unauthorized</h1>".as_bytes()
        },
    }
}

fn content_type_of(route: FallbackRoute) -> (r: &'static str)
    ensures
        r@ == route_content_type(route),
{
    match route {
        FallbackRoute::ApiStatus { .. } => "application/json; charset=utf-8",
        FallbackRoute::Robots { .. } => "text/plain; charset=utf-8",
        _ => "text/html; charset=utf-8",
    }
}

fn head_only_of(route: FallbackRoute) -> (r: bool)
    ensures
        r == route_head_only(route),
{
    match route {
        FallbackRoute::Page { head_only } => head_only,
        FallbackRoute::Dashboard { head_only } => head_only,
        FallbackRoute::ApiStatus { head_only } => head_only,
        FallbackRoute::Robots { head_only } => head_only,
        FallbackRoute::NotFound { head_only } => head_only,
        FallbackRoute::MethodNotAllowed => false,
        FallbackRoute::BadRequest => false,
        FallbackRoute::Unauthorized { head_only } => head_only,
    }
}

/// The response on a route, with the documents that it may hold.
pub fn response_spec<'a>(
    route: FallbackRoute,
    page: &'a [u8],
    dashboard: &'a [u8],
    status: &'a [u8],
) -> (r: ResponseSpec<'a>)
    ensures
        r@ == response_of(
            route,
            Documents { page: page@, dashboard: dashboard@, status: status@ },
        ),
{
    ResponseSpec {
        status: match route {
            FallbackRoute::NotFound { .. } => "404 Not Found",
            FallbackRoute::MethodNotAllowed => "405 Method Not Allowed",
            FallbackRoute::BadRequest => "400 Bad Request",
            FallbackRoute::Unauthorized { .. } => "401 Unauthorized",
            _ => "200 OK",
        },
        content_type: content_type_of(route),
        extra_headers: match route {
            FallbackRoute::ApiStatus { .. } => "Cache-Control: no-store\r\n",
            FallbackRoute::Robots { .. } => "Cache-Control: public, max-age=3600\r\n",
            FallbackRoute::MethodNotAllowed => "Allow: GET, HEAD\r\nCache-Control: no-cache\r\n",
            FallbackRoute::Unauthorized { .. } => {
                "WWW-Authenticate: Basic realm=\"trojan-rs dashboard\"\r\nCache-Control: no-store\r\n"
            },
            _ => "Cache-Control: no-cache\r\n",
        },
        head_only: head_only_of(route),
        body: body_of(route, page, dashboard, status),
    }
}

/// The head of a response that is sent at unix time `now`.
pub open spec fn response_head(r: ResponseView, now: int) -> Seq<char> {
    "HTTP/1.1 "@ + r.status + "\r\nServer: nginx\r\nDate: "@ + http_head::http_date_text(now)
        + "\r\nContent-Type: "@ + r.content_type + "\r\nContent-Length: "@ + text::decimal_text(
        r.body.len(),
    ) + "\r\n"@ + r.extra_headers
        + "Connection: close\r\nX-Content-Type-Options: nosniff\r\n\r\n"@
}

/// A response as it goes on the wire; a request for the head gets no body, but its length.
pub open spec fn response_bytes(r: ResponseView, now: int) -> Seq<u8> {
    if r.head_only {
        encode_utf8(response_head(r, now))
    } else {
        encode_utf8(response_head(r, now)) + r.body
    }
}

/// A response as it goes on the wire at unix time `now`.
pub fn write_response(response: &ResponseSpec<'_>, now: u64) -> (r: Vec<u8>)
    requires
        now < HTTP_DATE_END,
    ensures
        r@ == response_bytes(response@, now as int),
{
    let date = http_date(now);
    let length = decimal(response.body.len() as u64);
    let mut head = "HTTP/1.1 ".to_string();
    head.append(response.status);
    head.append("\r\nServer: nginx\r\nDate: ");
    head.append(date.as_str());
    head.append("\r\nContent-Type: ");
    head.append(response.content_type);
    head.append("\r\nContent-Length: ");
    head.append(length.as_str());
    head.append("\r\n");
    head.append(response.extra_headers);
    head.append("Connection: close\r\nX-Content-Type-Options: nosniff\r\n\r\n");
    let mut out: Vec<u8> = crate::wire::copy(head.as_str().as_bytes());
    if !response.head_only {
        append(&mut out, response.body);
    }
    out
}

/// An HTTP/2 response.
pub struct H2Response {
    pub status: u16,
    pub headers: Vec<(String, String)>,
    pub head_only: bool,
    pub body: Vec<u8>,
}

/// Names and values of a list of headers.
pub open spec fn header_texts(list: Seq<(String, String)>) -> Seq<(Seq<char>, Seq<char>)> {
    list.map_values(|h: (String, String)| (h.0@, h.1@))
}

/// The caching policy on a route.
pub open spec fn route_cache_control(route: FallbackRoute) -> Seq<char> {
    match route {
        FallbackRoute::ApiStatus { .. } => "no-store"@,
        FallbackRoute::Robots { .. } => "public, max-age=3600"@,
        FallbackRoute::Unauthorized { .. } => "no-store"@,
        _ => "no-cache"@,
    }
}

/// The headers of an HTTP/2 response.
pub open spec fn h2_headers(route: FallbackRoute, docs: Documents) -> Seq<(Seq<char>, Seq<char>)> {
    let base = seq![
        ("content-type"@, route_content_type(route)),
        ("content-length"@, text::decimal_text(route_body(route, docs).len())),
        ("cache-control"@, route_cache_control(route)),
        ("server"@, "nginx"@),
        ("x-content-type-options"@, "nosniff"@),
    ];
    match route {
        FallbackRoute::MethodNotAllowed => base.push(("allow"@, "GET, HEAD"@)),
        FallbackRoute::Unauthorized { .. } => base.push(
            ("www-authenticate"@, "Basic realm=\"trojan-rs dashboard\""@),
        ),
        _ => base,
    }
}

fn push_header(headers: &mut Vec<(String, String)>, name: &str, value: &str)
    ensures
        header_texts(final(headers)@) == header_texts(old(headers)@).push((name@, value@)),
{
    let ghost before = header_texts(headers@);
    headers.push((name.to_owned(), value.to_owned()));
    assert(header_texts(headers@) =~= before.push((name@, value@)));
}

/// The HTTP/2 response on a route.
pub fn write_h2_response(
    route: FallbackRoute,
    page: &[u8],
    dashboard: &[u8],
    status: &[u8],
) -> (r: H2Response)
    ensures
        ({
            let docs = Documents { page: page@, dashboard: dashboard@, status: status@ };
            &&& r.status == route_status_code(route)
            &&& header_texts(r.headers@) == h2_headers(route, docs)
            &&& r.head_only == route_head_only(route)
            &&& r.body@ == route_body(route, docs)
        }),
{
    let body = body_of(route, page, dashboard, status);
    let code: u16 = match route {
        FallbackRoute::NotFound { .. } => 404,
        FallbackRoute::MethodNotAllowed => 405,
        FallbackRoute::BadRequest => 400,
        FallbackRoute::Unauthorized { .. } => 401,
        _ => 200,
    };
    let cache_control = match route {
        FallbackRoute::ApiStatus { .. } => "no-store",
        FallbackRoute::Robots { .. } => "public, max-age=3600",
        FallbackRoute::Unauthorized { .. } => "no-store",
        _ => "no-cache",
    };
    let length = decimal(body.len() as u64);
    let mut headers: Vec<(String, String)> = Vec::new();
    assert(header_texts(headers@) =~= Seq::empty());
    push_header(&mut headers, "content-type", content_type_of(route));
    push_header(&mut headers, "content-length", length.as_str());
    push_header(&mut headers, "cache-control", cache_control);
    push_header(&mut headers, "server", "nginx");
    push_header(&mut headers, "x-content-type-options", "nosniff");
    match route {
        FallbackRoute::MethodNotAllowed => {
            push_header(&mut headers, "allow", "GET, HEAD");
        },
        FallbackRoute::Unauthorized { .. } => {
            push_header(&mut headers, "www-authenticate", "Basic realm=\"trojan-rs dashboard\"");
        },
        _ => {},
    }
    assert(header_texts(headers@) =~= h2_headers(
        route,
        Documents { page: page@, dashboard: dashboard@, status: status@ },
    ));
    H2Response {
        status: code,
        headers,
        head_only: head_only_of(route),
        body: crate::wire::copy(body),
    }
}

/// A shared, lightweight static-page server.
#[derive(Clone)]
pub struct FallbackPage {
    pub body: Vec<u8>,
    pub dashboard_password: Option<String>,
    pub request_timeout_secs: u64,
    pub max_request_size: usize,
}

/// What serving a connection does next.
pub enum ServeStep {
    /// Close the connection without an answer.
    Shutdown,
    /// Read up to this many bytes more.
    Read(usize),
    /// Answer on this route.
    Respond(FallbackRoute),
}

/// What is done about a connection on which `received` came in, `ended` when no more will come.
pub open spec fn serve_step_of(
    received: Seq<u8>,
    ended: bool,
    password: Option<Seq<char>>,
    max: int,
) -> ServeStep {
    if !http_head::starts_like_http(received) {
        ServeStep::Shutdown
    } else {
        match http_head::step_to_end(received, max) {
            HeadStep::Read(n) => if ended {
                ServeStep::Respond(route_of_request(received, password))
            } else {
                ServeStep::Read(n)
            },
            _ => ServeStep::Respond(route_of_request(received, password)),
        }
    }
}

/// Every visitor is dealt with: what starts like HTTP is answered as soon as its head is complete,
/// too long or cut short, everything else is closed without an answer, and no more than the limit
/// is ever read.
pub proof fn lemma_visitors_are_answered(
    received: Seq<u8>,
    ended: bool,
    password: Option<Seq<char>>,
    max: int,
)
    requires
        0 <= max <= usize::MAX,
    ensures
        ({
            let step = serve_step_of(received, ended, password, max);
            let complete = ended || received.len() >= max || http_head::header_end(received) is Some;
            &&& !http_head::starts_like_http(received) <==> step is Shutdown
            &&& http_head::starts_like_http(received) && complete <==> step is Respond
            &&& step matches ServeStep::Respond(route) ==> route == route_of_request(
                received,
                password,
            )
            &&& step matches ServeStep::Read(n) ==> 0 < n && received.len() + n <= max
        }),
{
}

/// Why a page of `len` bytes is not served under a configuration, if it is not.
pub open spec fn page_error(c: FallbackConfig, len: nat) -> Option<FallbackError> {
    if config_error(c) is Some {
        config_error(c)
    } else if len > MAX_PAGE_SIZE {
        Some(FallbackError::PageTooLarge)
    } else {
        None
    }
}

impl FallbackPage {
    /// The server of a page. The configuration is checked before the size of the page.
    pub fn new(config: &FallbackConfig, body: Vec<u8>) -> (r: Result<FallbackPage, FallbackError>)
        ensures
            match r {
                Ok(page) => {
                    &&& page_error(*config, body@.len()) is None
                    &&& page.body == body
                    &&& page.dashboard_password == config.dashboard_password
                    &&& page.request_timeout_secs == config.request_timeout_secs
                    &&& page.max_request_size == config.max_request_size
                },
                Err(error) => page_error(*config, body@.len()) == Some(error),
            },
    {
        match config.validate() {
            Ok(()) => {},
            Err(error) => return Err(error),
        }
        if body.len() > MAX_PAGE_SIZE {
            return Err(FallbackError::PageTooLarge);
        }
        let dashboard_password = match &config.dashboard_password {
            Some(password) => Some(password.clone()),
            None => None,
        };
        Ok(
            FallbackPage {
                body,
                dashboard_password,
                request_timeout_secs: config.request_timeout_secs,
                max_request_size: config.max_request_size,
            },
        )
    }

    /// The dashboard password.
    pub fn password(&self) -> (r: Option<&str>)
        ensures
            http_head::str_view(r) == http_head::text_view(self.dashboard_password),
    {
        match &self.dashboard_password {
            Some(password) => Some(password.as_str()),
            None => None,
        }
    }

    /// Decides what to do about a connection on which `received` came in, `ended` when no more
    /// will come.
    pub fn serve(&self, received: &[u8], ended: bool) -> (r: ServeStep)
        ensures
            r == serve_step_of(
                received@,
                ended,
                http_head::text_view(self.dashboard_password),
                self.max_request_size as int,
            ),
            r matches ServeStep::Read(n) ==> 0 < n && received@.len() + n <= self.max_request_size,
    {
        if !looks_like_http(received) {
            return ServeStep::Shutdown;
        }
        match head_step(received, self.max_request_size) {
            HeadStep::Read(n) => {
                if !ended {
                    return ServeStep::Read(n);
                }
            },
            _ => {},
        }
        ServeStep::Respond(route_request(received, self.password()))
    }

    /// The bytes that answer a request on a route at unix time `now`.
    pub fn respond(&self, route: FallbackRoute, dashboard: &[u8], status: &[u8], now: u64) -> (r:
        Vec<u8>)
        requires
            now < HTTP_DATE_END,
        ensures
            r@ == response_bytes(
                response_of(
                    route,
                    Documents { page: self.body@, dashboard: dashboard@, status: status@ },
                ),
                now as int,
            ),
    {
        write_response(
            &response_spec(route, self.body.as_slice(), dashboard, status),
            now,
        )
    }
}

proof fn lemma_paths_differ()
    ensures
        "/"@ != "/dashboard"@,
        "/"@ != "/api/status"@,
        "/"@ != "/robots.txt"@,
        "/index.html"@ != "/dashboard"@,
        "/index.html"@ != "/api/status"@,
        "/index.html"@ != "/robots.txt"@,
        "/dashboard"@ != "/api/status"@,
        "/dashboard"@ != "/robots.txt"@,
        "/api/status"@ != "/robots.txt"@,
        "GET"@ != "HEAD"@,
{
    reveal_strlit("/");
    reveal_strlit("/index.html");
    reveal_strlit("/dashboard");
    reveal_strlit("/api/status");
    reveal_strlit("/robots.txt");
    reveal_strlit("GET");
    reveal_strlit("HEAD");
    assert("/"@.len() == 1 && "/dashboard"@.len() == 10);
    assert("/index.html"@.len() == 11 && "/api/status"@.len() == 11 && "/robots.txt"@.len() == 11);
    assert("/index.html"@[1] == 'i');
    assert("/api/status"@[1] == 'a');
    assert("/robots.txt"@[1] == 'r');
    assert("GET"@.len() == 3 && "HEAD"@.len() == 4);
}

/// Where a well-formed HTTP/1 request leads: GET and HEAD of the two names of the page to the page,
/// of `/robots.txt` to that file, of the two protected paths there or to a refusal, and of any
/// other path nowhere; every other method is not allowed. HEAD leads where GET does, without a
/// body.
pub proof fn lemma_routes_of_requests(h: HeadView, password: Option<Seq<char>>)
    requires
        h.version == Some(0u8) || (h.version == Some(1u8) && http_head::present(
            h.headers,
            "host"@,
        )),
        h.method is Some,
        h.path is Some,
    ensures
        ({
            let m = h.method->0;
            let path = http_head::path_without_query(h.path->0);
            let authorized = headers_authorize(h.headers, password);
            let route = route_of_head(h, password);
            &&& (m != "GET"@ && m != "HEAD"@) <==> route is MethodNotAllowed
            &&& m == "GET"@ || m == "HEAD"@ ==> {
                &&& (path == "/"@ || path == "/index.html"@) <==> route is Page
                &&& path == "/robots.txt"@ <==> route is Robots
                &&& (path == "/dashboard"@ && authorized) <==> route is Dashboard
                &&& (path == "/api/status"@ && authorized) <==> route is ApiStatus
                &&& ((path == "/dashboard"@ || path == "/api/status"@) && !authorized && password
                    is Some) <==> route is Unauthorized
                &&& ((path == "/dashboard"@ || path == "/api/status"@) && !authorized && password
                    is None) || (path != "/"@ && path != "/index.html"@ && path != "/robots.txt"@
                    && path != "/dashboard"@ && path != "/api/status"@) <==> route is NotFound
                &&& route_head_only(route) <==> m == "HEAD"@
            }
            &&& !(route is BadRequest)
        }),
{
    lemma_paths_differ();
    lemma_password_decides(h.headers, password);
}

proof fn lemma_password_decides(hs: Seq<http_head::FieldView>, password: Option<Seq<char>>)
    ensures
        password is None ==> !headers_authorize(hs, password),
{
}

/// The same of an HTTP/2 request.
pub proof fn lemma_routes_of_h2_requests(
    m: Seq<char>,
    path: Seq<char>,
    authorization: Option<Seq<char>>,
    password: Option<Seq<char>>,
)
    ensures
        ({
            let authorized = authorization matches Some(v) && value_authorizes(v, password);
            let route = route_of_h2(m, path, authorization, password);
            &&& (m != "GET"@ && m != "HEAD"@) <==> route is MethodNotAllowed
            &&& m == "GET"@ || m == "HEAD"@ ==> {
                &&& (path == "/"@ || path == "/index.html"@) <==> route is Page
                &&& path == "/robots.txt"@ <==> route is Robots
                &&& (path == "/dashboard"@ && authorized) <==> route is Dashboard
                &&& (path == "/api/status"@ && authorized) <==> route is ApiStatus
                &&& ((path == "/dashboard"@ || path == "/api/status"@) && !authorized && password
                    is Some) <==> route is Unauthorized
                &&& ((path == "/dashboard"@ || path == "/api/status"@) && !authorized && password
                    is None) || (path != "/"@ && path != "/index.html"@ && path != "/robots.txt"@
                    && path != "/dashboard"@ && path != "/api/status"@) <==> route is NotFound
                &&& route_head_only(route) <==> m == "HEAD"@
            }
            &&& !(route is BadRequest)
        }),
{
    lemma_paths_differ();
}

/// What is no well-formed request is a bad one: no complete head, another version than 1.0 and 1.1,
/// or version 1.1 without a host.
pub proof fn lemma_bad_requests(request: Seq<u8>, password: Option<Seq<char>>)
    ensures
        route_of_request(request, password) is BadRequest <==> match http_head::request_head(
            request,
        ) {
            None => true,
            Some(h) => (h.version != Some(0u8) && h.version != Some(1u8)) || (h.version == Some(1u8)
                && !http_head::present(h.headers, "host"@)),
        },
        http_head::request_head(request) matches Some(h) ==> route_of_request(request, password)
            == route_of_head(h, password),
{
}

/// The password opens the dashboard when it is sent as that of `admin`, in whatever case the scheme
/// is written and with whatever whitespace around the token.
pub proof fn lemma_password_opens_the_dashboard(
    password: Seq<char>,
    scheme: Seq<char>,
    before: Seq<char>,
    after: Seq<char>,
)
    requires
        text::lowercase(scheme) == "basic"@,
        forall|k: int| 0 <= k < before.len() ==> text::is_whitespace(#[trigger] before[k]),
        forall|k: int| 0 <= k < after.len() ==> text::is_whitespace(#[trigger] after[k]),
    ensures
        value_authorizes(
            scheme + seq![' '] + (before + codec::base64_form(
                encode_utf8("admin:"@ + password),
                false,
                true,
            ) + after),
            Some(password),
        ),
{
    let d = encode_utf8("admin:"@ + password);
    let token = codec::base64_form(d, false, true);
    reveal_strlit("basic");
    reveal_strlit("admin:");
    text::lemma_lowercase(scheme, scheme);
    text::lemma_lowercase("basic"@, scheme);
    assert(text::lowercase("basic"@) =~= "basic"@);
    assert(!scheme.contains(' ')) by {
        if scheme.contains(' ') {
            let k = choose|k: int| 0 <= k < scheme.len() && scheme[k] == ' ';
            assert(text::lowercase(scheme)[k] == "basic"@[k]);
        }
    }
    text::lemma_cut_of_joined(scheme, ' ', before + token + after);
    assert(d.len() > 0) by {
        let s = "admin:"@ + password;
        assert(s.len() > 0);
        encode_utf8_decode_utf8(s);
    }
    assert(codec::base64_form(d, false, true).len() > 0) by {
        assert(codec::unpadded(d, false).len() > 0);
    }
    codec::lemma_form_characters(d, false, true, 0);
    codec::lemma_form_characters(d, false, true, token.len() - 1);
    text::lemma_ascii_whitespace(token[0]);
    text::lemma_ascii_whitespace(token[token.len() - 1]);
    text::lemma_trimmed(before, token, after);
}

/// What opens the dashboard opens it under one password only, names the basic scheme, and opens
/// nothing where no password is set.
pub proof fn lemma_only_the_password_opens_the_dashboard(
    value: Seq<char>,
    p: Seq<char>,
    q: Seq<char>,
)
    ensures
        !value_authorizes(value, None),
        value_authorizes(value, Some(p)) && value_authorizes(value, Some(q)) ==> p == q,
        value_authorizes(value, Some(p)) ==> (text::cut(value, ' ') matches Some((scheme, _))
            && text::lowercase(scheme) == text::lowercase("basic"@)),
        !value.contains(' ') ==> !value_authorizes(value, Some(p)),
{
    if value_authorizes(value, Some(p)) && value_authorizes(value, Some(q)) {
        codec::lemma_form_is_injective(
            encode_utf8("admin:"@ + p),
            encode_utf8("admin:"@ + q),
            false,
            true,
        );
        lemma_same_encoding("admin:"@ + p, "admin:"@ + q);
        assert(("admin:"@ + p).subrange("admin:"@.len() as int, ("admin:"@ + p).len() as int) =~= p);
        assert(("admin:"@ + q).subrange("admin:"@.len() as int, ("admin:"@ + q).len() as int) =~= q);
    }
    if !value.contains(' ') {
        text::lemma_cut_of_joined(value, ' ', Seq::empty());
    }
}

/// The first Authorization header of a request decides, whatever others say; without one nothing is
/// opened.
pub proof fn lemma_first_authorization_decides(
    hs: Seq<http_head::FieldView>,
    more: Seq<http_head::FieldView>,
    h: http_head::FieldView,
    value: Seq<char>,
    password: Option<Seq<char>>,
)
    requires
        forall|k: int|
            0 <= k < hs.len() ==> text::lowercase((#[trigger] hs[k]).name) != text::lowercase(
                "authorization"@,
            ),
        text::lowercase(h.name) == text::lowercase("authorization"@),
        h.value == encode_utf8(value),
    ensures
        headers_authorize(hs.push(h) + more, password) == value_authorizes(value, password),
        !headers_authorize(hs, password),
{
    let all = hs.push(h) + more;
    let n = hs.len() as int;
    assert(all[n] == h);
    assert forall|k: int| 0 <= k < n implies text::lowercase((#[trigger] all[k]).name)
        != text::lowercase("authorization"@) by {
        assert(all[k] == hs[k]);
    }
    http_head::lemma_first_named(all, "authorization"@, n);
    http_head::lemma_first_named(hs, "authorization"@, 0);
    http_head::lemma_value_text(h, value);
}

/// Each kind of answer has its code, the same over HTTP/1 and HTTP/2, and the status line starts
/// with it.
pub proof fn lemma_statuses(route: FallbackRoute)
    ensures
        route_status_code(route) == 404 <==> route is NotFound,
        route_status_code(route) == 405 <==> route is MethodNotAllowed,
        route_status_code(route) == 400 <==> route is BadRequest,
        route_status_code(route) == 401 <==> route is Unauthorized,
        route_status_code(route) == 200 <==> (route is Page || route is Dashboard || route
            is ApiStatus || route is Robots),
        route_status(route).len() > 4,
        route_status(route).subrange(0, 3) == text::decimal_text(route_status_code(route) as nat),
        route_status(route)[3] == ' ',
{
    reveal_strlit("404 Not Found");
    reveal_strlit("405 Method Not Allowed");
    reveal_strlit("400 Bad Request");
    reveal_strlit("401 Unauthorized");
    reveal_strlit("200 OK");
    reveal_with_fuel(text::decimal_text, 3);
    let code = route_status_code(route) as nat;
    assert(text::decimal_text(code) =~= seq![
        text::digit_char(code as int / 100),
        text::digit_char(code as int / 10 % 10),
        text::digit_char(code as int % 10),
    ]);
    assert(route_status(route).subrange(0, 3) =~= text::decimal_text(code));
}

/// The page is served as it is, and the dashboard and its status are on their own routes only: on
/// any other route they make no difference.
pub proof fn lemma_documents_stay_on_their_routes(
    route: FallbackRoute,
    docs: Documents,
    other: Documents,
)
    ensures
        route is Page ==> route_body(route, docs) == docs.page,
        route is Dashboard ==> route_body(route, docs) == docs.dashboard,
        route is ApiStatus ==> route_body(route, docs) == docs.status,
        route_status_code(route) != 200 || route is Robots ==> route_body(route, docs)
            == route_body(route, other),
        route is Page ==> route_body(route, docs) == route_body(
            route,
            Documents { page: docs.page, ..other },
        ),
{
}

/// An answer to HEAD is the answer to GET without its body, and says the length of that body, over
/// HTTP/1 as over HTTP/2.
pub proof fn lemma_head_answers(r: ResponseView, route: FallbackRoute, docs: Documents, now: int)
    ensures
        response_bytes(ResponseView { head_only: false, ..r }, now) == response_bytes(
            ResponseView { head_only: true, ..r },
            now,
        ) + r.body,
        exists|a: Seq<char>, b: Seq<char>|
            response_head(r, now) == #[trigger] (a + "\r\nContent-Length: "@ + text::decimal_text(
                r.body.len(),
            ) + "\r\n"@ + b),
        h2_headers(route, docs).contains(
            ("content-length"@, text::decimal_text(route_body(route, docs).len())),
        ),
        h2_headers(route, docs).contains(("content-type"@, response_of(route, docs).content_type)),
{
    let a = "HTTP/1.1 "@ + r.status + "\r\nServer: nginx\r\nDate: "@ + http_head::http_date_text(now)
        + "\r\nContent-Type: "@ + r.content_type;
    let b = r.extra_headers + "Connection: close\r\nX-Content-Type-Options: nosniff\r\n\r\n"@;
    assert(response_head(r, now) =~= a + "\r\nContent-Length: "@ + text::decimal_text(r.body.len())
        + "\r\n"@ + b);
    let hs = h2_headers(route, docs);
    assert(hs[0] == ("content-type"@, route_content_type(route)));
    assert(hs[1] == ("content-length"@, text::decimal_text(route_body(route, docs).len())));
}

/// Both versions of HTTP say the same about caching and, where it is due, which methods are allowed
/// and how to get in: a refusal and the status are not stored, `robots.txt` is.
pub proof fn lemma_extra_headers_agree(route: FallbackRoute, docs: Documents)
    ensures
        exists|a: Seq<char>|
            route_extra_headers(route) == #[trigger] (a + "Cache-Control: "@ + route_cache_control(
                route,
            ) + "\r\n"@),
        h2_headers(route, docs).contains(("cache-control"@, route_cache_control(route))),
        route is ApiStatus || route is Unauthorized <==> route_cache_control(route) == "no-store"@,
        route is MethodNotAllowed <==> h2_headers(route, docs).contains(("allow"@, "GET, HEAD"@)),
        route is MethodNotAllowed ==> route_extra_headers(route) == "Allow: GET, HEAD\r\n"@
            + "Cache-Control: no-cache\r\n"@,
        route is Unauthorized <==> h2_headers(route, docs).contains(
            ("www-authenticate"@, "Basic realm=\"trojan-rs dashboard\""@),
        ),
        route is Unauthorized ==> route_extra_headers(route)
            == "WWW-Authenticate: Basic realm=\"trojan-rs dashboard\"\r\n"@
            + "Cache-Control: no-store\r\n"@,
{
    reveal_strlit("Cache-Control: no-store\r\n");
    reveal_strlit("Cache-Control: public, max-age=3600\r\n");
    reveal_strlit("Allow: GET, HEAD\r\nCache-Control: no-cache\r\n");
    reveal_strlit(
        "WWW-Authenticate: Basic realm=\"trojan-rs dashboard\"\r\nCache-Control: no-store\r\n",
    );
    reveal_strlit("Cache-Control: no-cache\r\n");
    reveal_strlit("Cache-Control: ");
    reveal_strlit("\r\n");
    reveal_strlit("no-store");
    reveal_strlit("no-cache");
    reveal_strlit("public, max-age=3600");
    reveal_strlit("Allow: GET, HEAD\r\n");
    reveal_strlit("WWW-Authenticate: Basic realm=\"trojan-rs dashboard\"\r\n");
    reveal_strlit("allow");
    reveal_strlit("www-authenticate");
    reveal_strlit("content-type");
    reveal_strlit("content-length");
    reveal_strlit("cache-control");
    reveal_strlit("server");
    reveal_strlit("x-content-type-options");
    let a = match route {
        FallbackRoute::MethodNotAllowed => "Allow: GET, HEAD\r\n"@,
        FallbackRoute::Unauthorized { .. } => {
            "WWW-Authenticate: Basic realm=\"trojan-rs dashboard\"\r\n"@
        },
        _ => Seq::empty(),
    };
    assert(route_extra_headers(route) =~= a + "Cache-Control: "@ + route_cache_control(route)
        + "\r\n"@);
    assert("Allow: GET, HEAD\r\nCache-Control: no-cache\r\n"@ =~= "Allow: GET, HEAD\r\n"@
        + "Cache-Control: no-cache\r\n"@);
    assert("WWW-Authenticate: Basic realm=\"trojan-rs dashboard\"\r\nCache-Control: no-store\r\n"@
        =~= "WWW-Authenticate: Basic realm=\"trojan-rs dashboard\"\r\n"@
        + "Cache-Control: no-store\r\n"@);
    assert("no-store"@.len() == 8 && "no-cache"@.len() == 8 && "public, max-age=3600"@.len() == 20);
    assert("no-store"@[3] == 's' && "no-cache"@[3] == 'c');
    let hs = h2_headers(route, docs);
    assert(hs[2] == ("cache-control"@, route_cache_control(route)));
    assert("allow"@.len() == 5 && "www-authenticate"@.len() == 16 && "content-type"@.len() == 12);
    assert("content-length"@.len() == 14 && "cache-control"@.len() == 13 && "server"@.len() == 6);
    assert("x-content-type-options"@.len() == 22);
    if route is MethodNotAllowed {
        assert(hs[5] == ("allow"@, "GET, HEAD"@));
    }
    if route is Unauthorized {
        assert(hs[5] == ("www-authenticate"@, "Basic realm=\"trojan-rs dashboard\""@));
    }
}

/// A configuration can be used when requests have time and room, and a password is none or not
/// empty.
pub proof fn lemma_usable_configurations(c: FallbackConfig)
    ensures
        config_error(c) is None <==> c.request_timeout_secs > 0 && c.max_request_size >= 256
            && !(c.dashboard_password matches Some(p) && p@.len() == 0),
        config_error(c) == Some(FallbackError::EmptyPassword) ==> (c.dashboard_password matches Some(
            p,
        ) && p@.len() == 0) && c.request_timeout_secs > 0 && c.max_request_size >= 256,
        config_error(c) != Some(FallbackError::PageTooLarge),
{
}

/// The status document is JSON, `robots.txt` is plain text, and everything else is a page. The
/// answer carries what its route says, and nothing of another.
pub proof fn lemma_answers_of_routes(route: FallbackRoute, docs: Documents)
    ensures
        ({
            let r = response_of(route, docs);
            &&& route is ApiStatus <==> r.content_type == "application/json; charset=utf-8"@
            &&& route is Robots <==> r.content_type == "text/plain; charset=utf-8"@
            &&& !(route is ApiStatus) && !(route is Robots) <==> r.content_type
                == "text/html; charset=utf-8"@
            &&& r.body == route_body(route, docs)
            &&& r.status == route_status(route)
            &&& r.head_only == route_head_only(route)
            &&& r.extra_headers == route_extra_headers(route)
        }),
        route is Robots ==> route_body(route, docs) == encode_utf8(
            "User-agent: *\r\nDisallow:\r\n"@,
        ),
        route is MethodNotAllowed || route is BadRequest ==> !route_head_only(route),
{
    reveal_strlit("application/json; charset=utf-8");
    reveal_strlit("text/plain; charset=utf-8");
    reveal_strlit("text/html; charset=utf-8");
    assert("application/json; charset=utf-8"@.len() == 31);
    assert("text/plain; charset=utf-8"@.len() == 25);
    assert("text/html; charset=utf-8"@.len() == 24);
}

/// The head of an answer starts with the version and the status, names the type of the body, and
/// ends with an empty line.
pub proof fn lemma_head_of_an_answer(r: ResponseView, now: int)
    ensures
        exists|a: Seq<char>|
            response_head(r, now) == #[trigger] ("HTTP/1.1 "@ + r.status + "\r\n"@ + a),
        exists|a: Seq<char>, b: Seq<char>|
            response_head(r, now) == #[trigger] (a + "\r\nContent-Type: "@ + r.content_type
                + "\r\n"@ + b),
        exists|a: Seq<char>| response_head(r, now) == #[trigger] (a + "\r\n\r\n"@),
{
    reveal_strlit("\r\nServer: nginx\r\nDate: ");
    reveal_strlit("Server: nginx\r\nDate: ");
    reveal_strlit("\r\n");
    reveal_strlit("\r\nContent-Length: ");
    reveal_strlit("Content-Length: ");
    reveal_strlit("\r\n\r\n");
    reveal_strlit("Connection: close\r\nX-Content-Type-Options: nosniff\r\n\r\n");
    reveal_strlit("Connection: close\r\nX-Content-Type-Options: nosniff");
    assert("\r\nServer: nginx\r\nDate: "@ =~= "\r\n"@ + "Server: nginx\r\nDate: "@);
    assert("\r\nContent-Length: "@ =~= "\r\n"@ + "Content-Length: "@);
    assert("Connection: close\r\nX-Content-Type-Options: nosniff\r\n\r\n"@
        =~= "Connection: close\r\nX-Content-Type-Options: nosniff"@ + "\r\n\r\n"@);
    let head = response_head(r, now);
    let date = http_head::http_date_text(now);
    let length = text::decimal_text(r.body.len());
    let behind = "\r\n"@ + r.extra_headers
        + "Connection: close\r\nX-Content-Type-Options: nosniff\r\n\r\n"@;
    let a = "Server: nginx\r\nDate: "@ + date + "\r\nContent-Type: "@ + r.content_type
        + "\r\nContent-Length: "@ + length + behind;
    assert(head =~= "HTTP/1.1 "@ + r.status + "\r\n"@ + a);
    let front = "HTTP/1.1 "@ + r.status + "\r\nServer: nginx\r\nDate: "@ + date;
    let b = "Content-Length: "@ + length + behind;
    assert(head =~= front + "\r\nContent-Type: "@ + r.content_type + "\r\n"@ + b);
    let all = front + "\r\nContent-Type: "@ + r.content_type + "\r\nContent-Length: "@ + length
        + "\r\n"@ + r.extra_headers + "Connection: close\r\nX-Content-Type-Options: nosniff"@;
    assert(head =~= all + "\r\n\r\n"@);
}

/// A page is served when its configuration can be used and it has at most 2 MiB.
pub proof fn lemma_pages_that_are_served(c: FallbackConfig, len: nat)
    ensures
        page_error(c, len) is None <==> config_error(c) is None && len <= 2 * 1024 * 1024,
        config_error(c) is Some ==> page_error(c, len) == config_error(c),
        config_error(c) is None && len > 2 * 1024 * 1024 ==> page_error(c, len) == Some(
            FallbackError::PageTooLarge,
        ),
{
}

} // verus!
