//! Covering a proxy behind a static page: HTTP visitors get the page, everything else passes.

use crate::protocol::http_head::{
    self, header_equals, header_equals_exactly, header_has_token, header_present, head_step,
    looks_like_http, read_head, without_query, HeadStep, HeadView, RequestHead,
};
use crate::text::{self, decimal, str_eq};
use crate::wire::append;
use vstd::prelude::*;
use vstd::string::*;
use vstd::utf8::*;

verus! {

pub const DEFAULT_REQUEST_TIMEOUT_SECS: u64 = 10;

pub const DEFAULT_MAX_REQUEST_SIZE: usize = 8192;

pub const MIN_REQUEST_SIZE: usize = 256;

pub const MAX_PAGE_SIZE: usize = 2097152;

/// The `[camouflage]` table.
pub struct CamouflageConfig {
    pub page: String,
    pub request_timeout_secs: u64,
    pub max_request_size: usize,
}

impl CamouflageConfig {
    /// A configuration with the default limits.
    pub fn new(page: String) -> (r: Self)
        ensures
            r.page == page,
            r.request_timeout_secs == DEFAULT_REQUEST_TIMEOUT_SECS,
            r.max_request_size == DEFAULT_MAX_REQUEST_SIZE,
    {
        CamouflageConfig {
            page,
            request_timeout_secs: DEFAULT_REQUEST_TIMEOUT_SECS,
            max_request_size: DEFAULT_MAX_REQUEST_SIZE,
        }
    }

    /// Whether the limits can be used.
    pub open spec fn valid(&self) -> bool {
        self.request_timeout_secs != 0 && self.max_request_size >= MIN_REQUEST_SIZE
    }

    /// Whether the limits can be used, before the page is read.
    pub fn validate(&self) -> (r: Result<(), CamouflageError>)
        ensures
            match r {
                Ok(()) => self.valid(),
                Err(error) => !self.valid() && error == CamouflageError::InvalidLimits,
            },
    {
        if self.request_timeout_secs == 0 || self.max_request_size < MIN_REQUEST_SIZE {
            return Err(CamouflageError::InvalidLimits);
        }
        Ok(())
    }
}

/// Why a configuration or a request is refused.
#[derive(Clone, Copy, Debug)]
pub enum CamouflageError {
    InvalidLimits,
    PageTooLarge,
    HeadersTooLarge,
}

impl CamouflageError {
    /// The words of the error.
    pub open spec fn text(self) -> Seq<char> {
        match self {
            CamouflageError::InvalidLimits => "protocol: invalid camouflage request limits"@,
            CamouflageError::PageTooLarge => "protocol: camouflage page exceeds 2097152 bytes"@,
            CamouflageError::HeadersTooLarge => {
                "protocol: camouflage request headers are too large"@
            },
        }
    }

    /// The words of the error.
    pub fn message(&self) -> (r: String)
        ensures
            r@ == self.text(),
    {
        match self {
            CamouflageError::InvalidLimits => {
                "protocol: invalid camouflage request limits".to_string()
            },
            CamouflageError::PageTooLarge => {
                "protocol: camouflage page exceeds 2097152 bytes".to_string()
            },
            CamouflageError::HeadersTooLarge => {
                "protocol: camouflage request headers are too large".to_string()
            },
        }
    }
}

/// What a request is.
#[derive(Clone, Copy, Debug)]
pub struct ParsedRequest {
    pub valid: bool,
    pub is_head: bool,
    pub is_tunnel: bool,
}

/// Whether a request head asks for a WebSocket.
pub open spec fn asks_for_websocket(hs: Seq<http_head::FieldView>) -> bool {
    &&& http_head::equals(hs, "upgrade"@, "websocket"@)
    &&& http_head::has_token(hs, "connection"@, "upgrade"@)
    &&& http_head::present(hs, "sec-websocket-key"@)
    &&& http_head::equals_exactly(hs, "sec-websocket-version"@, "13"@)
}

/// What a request head is, where `websocket_path` is that of the tunnel.
pub open spec fn classified(h: HeadView, websocket_path: Option<Seq<char>>) -> ParsedRequest {
    ParsedRequest {
        valid: true,
        is_head: h.method == Some("HEAD"@),
        is_tunnel: {
            &&& h.method == Some("GET"@)
            &&& h.path matches Some(path) && websocket_path == Some(
                http_head::path_without_query(path),
            )
            &&& asks_for_websocket(h.headers)
        },
    }
}

/// What the bytes of a request are.
pub open spec fn classified_request(
    request: Seq<u8>,
    websocket_path: Option<Seq<char>>,
) -> ParsedRequest {
    match http_head::request_head(request) {
        Some(h) => classified(h, websocket_path),
        None => ParsedRequest { valid: false, is_head: false, is_tunnel: false },
    }
}

fn is_text(s: &Option<String>, expected: &str) -> (r: bool)
    ensures
        r == (http_head::text_view(*s) == Some(expected@)),
{
    match s {
        Some(t) => str_eq(t, expected),
        None => false,
    }
}

/// What a request head is, where `websocket_path` is that of the tunnel.
pub fn classify_head(head: &RequestHead, websocket_path: Option<&str>) -> (r: ParsedRequest)
    ensures
        r == classified(head@, http_head::str_view(websocket_path)),
{
    let path_matches: bool = match (websocket_path, &head.path) {
        (Some(expected), Some(path)) => str_eq(without_query(path), expected),
        _ => false,
    };
    let has_upgrade: bool = header_equals(&head.headers, "upgrade", "websocket");
    let has_connection_upgrade: bool = header_has_token(&head.headers, "connection", "upgrade");
    let has_websocket_key: bool = header_present(&head.headers, "sec-websocket-key");
    let has_websocket_version: bool = header_equals_exactly(
        &head.headers,
        "sec-websocket-version",
        "13",
    );
    ParsedRequest {
        valid: true,
        is_head: is_text(&head.method, "HEAD"),
        is_tunnel: is_text(&head.method, "GET") && path_matches && has_upgrade
            && has_connection_upgrade && has_websocket_key && has_websocket_version,
    }
}

/// What the bytes of a request are.
pub fn parse_request(request: &[u8], websocket_path: Option<&str>) -> (r: ParsedRequest)
    ensures
        r == classified_request(request@, http_head::str_view(websocket_path)),
{
    match read_head(request) {
        Some(head) => classify_head(&head, websocket_path),
        None => ParsedRequest { valid: false, is_head: false, is_tunnel: false },
    }
}

/// How the first bytes of a connection are read: four, then the rest of an HTTP request head.
pub open spec fn read_step_of(received: Seq<u8>, max: int) -> HeadStep {
    if received.len() < 4 {
        HeadStep::ReadExact((4 - received.len()) as usize)
    } else if !http_head::starts_like_http(received) {
        HeadStep::Complete
    } else {
        http_head::step_to_end(received, max)
    }
}

/// What to do next to read the first bytes of a connection. A connection that ends while a head is
/// read leaves what came in.
pub fn read_request_head(received: &[u8], max: usize) -> (r: HeadStep)
    ensures
        r == read_step_of(received@, max as int),
{
    if received.len() < 4 {
        return HeadStep::ReadExact(4 - received.len());
    }
    if !looks_like_http(received) {
        return HeadStep::Complete;
    }
    head_step(received, max)
}

/// The head of the page response.
pub open spec fn page_head(status: Seq<char>, len: nat) -> Seq<char> {
    "HTTP/1.1 "@ + status
        + "\r\nServer: nginx\r\nContent-Type: text/html; charset=utf-8\r\nContent-Length: "@
        + text::decimal_text(len)
        + "\r\nConnection: close\r\nX-Content-Type-Options: nosniff\r\n\r\n"@
}

/// The page response on the wire.
pub open spec fn page_bytes(status: Seq<char>, head_only: bool, body: Seq<u8>) -> Seq<u8> {
    if head_only {
        encode_utf8(page_head(status, body.len()))
    } else {
        encode_utf8(page_head(status, body.len())) + body
    }
}

/// The page response as it goes on the wire; without the page for a request of the head.
pub fn write_page(status: &str, head_only: bool, body: &[u8]) -> (r: Vec<u8>)
    ensures
        r@ == page_bytes(status@, head_only, body@),
{
    let length = decimal(body.len() as u64);
    let mut head = "HTTP/1.1 ".to_string();
    head.append(status);
    head.append(
        "\r\nServer: nginx\r\nContent-Type: text/html; charset=utf-8\r\nContent-Length: ",
    );
    head.append(length.as_str());
    head.append("\r\nConnection: close\r\nX-Content-Type-Options: nosniff\r\n\r\n");
    let mut out: Vec<u8> = crate::wire::copy(head.as_str().as_bytes());
    if !head_only {
        append(&mut out, body);
    }
    out
}

/// What covers a proxy on top of `inner`.
pub struct CamouflageAcceptor<T> {
    pub inner: T,
    pub page: Option<Vec<u8>>,
    pub websocket_path: Option<String>,
    pub request_timeout_secs: u64,
    pub max_request_size: usize,
}

/// What is to be done about a connection.
pub enum CamouflageDecision {
    /// Hand it on, with the bytes that were read in front.
    Pass,
    /// Answer with these bytes and close.
    Answer(Vec<u8>),
}

/// What is done about a connection that started with `request`.
pub open spec fn is_decision(
    d: CamouflageDecision,
    page: Option<Seq<u8>>,
    websocket_path: Option<Seq<char>>,
    request: Seq<u8>,
) -> bool {
    let parsed = classified_request(request, websocket_path);
    match page {
        None => d is Pass,
        Some(body) => if !http_head::starts_like_http(request) || parsed.is_tunnel {
            d is Pass
        } else {
            d matches CamouflageDecision::Answer(bytes) && bytes@ == page_bytes(
                if parsed.valid {
                    "200 OK"@
                } else {
                    "400 Bad Request"@
                },
                parsed.is_head,
                body,
            )
        },
    }
}

/// The bytes of an optional page.
pub open spec fn page_view(page: Option<Vec<u8>>) -> Option<Seq<u8>> {
    match page {
        Some(p) => Some(p@),
        None => None,
    }
}

/// The timeout and the size limit that a cover with a page of `page_len` bytes works with, or why
/// it is refused.
pub open spec fn limits_of(config: Option<&CamouflageConfig>, page_len: nat) -> Result<
    (u64, usize),
    CamouflageError,
> {
    match config {
        Some(c) => if !c.valid() {
            Err(CamouflageError::InvalidLimits)
        } else if page_len > MAX_PAGE_SIZE {
            Err(CamouflageError::PageTooLarge)
        } else {
            Ok((c.request_timeout_secs, c.max_request_size))
        },
        None => Ok((DEFAULT_REQUEST_TIMEOUT_SECS, DEFAULT_MAX_REQUEST_SIZE)),
    }
}

impl<T> CamouflageAcceptor<T> {
    /// A cover with the page of a configuration, or one that lets everything pass.
    pub fn new(
        config: Option<&CamouflageConfig>,
        page: Vec<u8>,
        websocket_path: Option<String>,
        inner: T,
    ) -> (r: Result<Self, CamouflageError>)
        ensures
            match r {
                Ok(acceptor) => {
                    &&& acceptor.inner == inner
                    &&& acceptor.websocket_path == websocket_path
                    &&& acceptor.page == (if config is Some {
                        Some(page)
                    } else {
                        None
                    })
                    &&& Ok::<_, CamouflageError>(
                        (acceptor.request_timeout_secs, acceptor.max_request_size),
                    ) == limits_of(config, page@.len())
                },
                Err(error) => limits_of(config, page@.len()) == Err::<(u64, usize), _>(error),
            },
    {
        let config = match config {
            Some(config) => config,
            None => {
                return Ok(
                    CamouflageAcceptor {
                        inner,
                        page: None,
                        websocket_path,
                        request_timeout_secs: DEFAULT_REQUEST_TIMEOUT_SECS,
                        max_request_size: DEFAULT_MAX_REQUEST_SIZE,
                    },
                );
            },
        };
        match config.validate() {
            Ok(()) => {},
            Err(error) => return Err(error),
        }
        if page.len() > MAX_PAGE_SIZE {
            return Err(CamouflageError::PageTooLarge);
        }
        Ok(
            CamouflageAcceptor {
                inner,
                page: Some(page),
                websocket_path,
                request_timeout_secs: config.request_timeout_secs,
                max_request_size: config.max_request_size,
            },
        )
    }

    /// Decides about a connection that started with `request`. With no page nothing has to be
    /// read first.
    pub fn decide(&self, request: &[u8]) -> (r: CamouflageDecision)
        ensures
            is_decision(
                r,
                page_view(self.page),
                http_head::text_view(self.websocket_path),
                request@,
            ),
    {
        let page = match &self.page {
            Some(page) => page,
            None => return CamouflageDecision::Pass,
        };
        if !looks_like_http(request) {
            return CamouflageDecision::Pass;
        }
        let path = match &self.websocket_path {
            Some(path) => Some(path.as_str()),
            None => None,
        };
        let parsed = parse_request(request, path);
        if parsed.is_tunnel {
            return CamouflageDecision::Pass;
        }
        let status = if parsed.valid {
            "200 OK"
        } else {
            "400 Bad Request"
        };
        CamouflageDecision::Answer(write_page(status, parsed.is_head, page.as_slice()))
    }
}

/// Without a page everything passes. With one, an HTTP request that is not for the tunnel is
/// answered, with status 200 or, where it is no proper request, 400, and everything else passes.
pub proof fn lemma_visitors_get_the_page(
    d: CamouflageDecision,
    page: Option<Seq<u8>>,
    websocket_path: Option<Seq<char>>,
    request: Seq<u8>,
)
    requires
        is_decision(d, page, websocket_path, request),
    ensures
        ({
            let parsed = classified_request(request, websocket_path);
            let http = http_head::starts_like_http(request);
            &&& d is Pass <==> page is None || !http || parsed.is_tunnel
            &&& d matches CamouflageDecision::Answer(bytes) ==> {
                &&& page is Some
                &&& parsed.valid && !parsed.is_head ==> bytes@ == page_bytes(
                    "200 OK"@,
                    true,
                    page->0,
                ) + page->0
                &&& parsed.valid && parsed.is_head ==> bytes@ == page_bytes(
                    "200 OK"@,
                    true,
                    page->0,
                )
                &&& !parsed.valid ==> bytes@ == page_bytes("400 Bad Request"@, true, page->0)
                    + page->0
            }
        }),
        http_head::request_head(request) is Some <==> classified_request(
            request,
            websocket_path,
        ).valid,
        http_head::request_head(request) is None ==> !classified_request(
            request,
            websocket_path,
        ).is_tunnel && !classified_request(request, websocket_path).is_head,
{
}

/// The answer to a request of the head is the answer to one of the page without the page.
pub proof fn lemma_heads_have_no_page(status: Seq<char>, body: Seq<u8>)
    ensures
        page_bytes(status, false, body) == page_bytes(status, true, body) + body,
{
}

/// A handshake for the path of the tunnel, with or without a query, is one for the tunnel. The
/// headers may stand in any order and among others.
pub proof fn lemma_handshakes_are_for_the_tunnel(
    h: HeadView,
    expected: Seq<char>,
    query: Seq<char>,
    at: Seq<int>,
    connection: Seq<Seq<char>>,
    c: int,
)
    requires
        h.method == Some("GET"@),
        !expected.contains('?'),
        h.path == Some(expected) || h.path == Some(expected + seq!['?'] + query),
        at.len() == 4,
        forall|k: int| 0 <= k < 4 ==> 0 <= #[trigger] at[k] < h.headers.len(),
        text::lowercase(h.headers[at[0]].name) == text::lowercase("upgrade"@),
        h.headers[at[0]].value == encode_utf8("websocket"@),
        text::lowercase(h.headers[at[1]].name) == text::lowercase("connection"@),
        h.headers[at[1]].value == encode_utf8(text::joined_with(connection, ',')),
        forall|i: int| 0 <= i < connection.len() ==> !(#[trigger] connection[i]).contains(','),
        0 <= c < connection.len(),
        text::lowercase(text::trimmed(connection[c])) == text::lowercase("upgrade"@),
        text::lowercase(h.headers[at[2]].name) == text::lowercase("sec-websocket-version"@),
        h.headers[at[2]].value == encode_utf8("13"@),
        text::lowercase(h.headers[at[3]].name) == text::lowercase("sec-websocket-key"@),
        h.headers[at[3]].value.len() > 0,
    ensures
        classified(h, Some(expected)).is_tunnel,
        !classified(h, Some(expected)).is_head,
        !classified(h, None).is_tunnel,
        forall|other: Seq<char>|
            other != expected ==> !(#[trigger] classified(h, Some(other))).is_tunnel,
{
    let hs = h.headers;
    assert(at[0] < hs.len() && at[1] < hs.len() && at[2] < hs.len() && at[3] < hs.len());
    http_head::lemma_value_text(hs[at[0]], "websocket"@);
    reveal_strlit("websocket");
    text::lemma_trimmed(Seq::empty(), "websocket"@, Seq::empty());
    assert(Seq::<char>::empty() + "websocket"@ + Seq::<char>::empty() =~= "websocket"@);
    assert(http_head::is_named(hs[at[0]], "upgrade"@));
    assert(http_head::value_equals(hs[at[0]], "websocket"@));
    http_head::lemma_value_text(hs[at[1]], text::joined_with(connection, ','));
    http_head::lemma_tokens_are_listed(connection, "upgrade"@);
    assert(http_head::is_named(hs[at[1]], "connection"@));
    assert(http_head::value_lists(hs[at[1]], "upgrade"@));
    http_head::lemma_value_text(hs[at[2]], "13"@);
    reveal_strlit("13");
    text::lemma_trimmed(Seq::empty(), "13"@, Seq::empty());
    assert(Seq::<char>::empty() + "13"@ + Seq::<char>::empty() =~= "13"@);
    assert(http_head::is_named(hs[at[2]], "sec-websocket-version"@));
    assert(http_head::value_is(hs[at[2]], "13"@));
    assert(http_head::is_named(hs[at[3]], "sec-websocket-key"@));
    http_head::lemma_path_without_query(expected, query);
    reveal_strlit("GET");
    reveal_strlit("HEAD");
    assert("GET"@.len() != "HEAD"@.len());
}

/// Nothing else is for the tunnel: not another method, nor a request that lacks the key, the
/// version, the upgrade or its token. Only the method HEAD asks for the head.
pub proof fn lemma_other_requests_are_not_for_the_tunnel(
    h: HeadView,
    websocket_path: Option<Seq<char>>,
)
    ensures
        classified(h, websocket_path).is_head <==> h.method == Some("HEAD"@),
        classified(h, websocket_path).is_tunnel ==> h.method == Some("GET"@) && h.path is Some,
        (forall|i: int|
            0 <= i < h.headers.len() ==> text::lowercase((#[trigger] h.headers[i]).name)
                != text::lowercase("sec-websocket-key"@) || h.headers[i].value.len() == 0)
            ==> !classified(h, websocket_path).is_tunnel,
        (forall|i: int|
            0 <= i < h.headers.len() ==> text::lowercase((#[trigger] h.headers[i]).name)
                != text::lowercase("sec-websocket-version"@) || !valid_utf8(h.headers[i].value)
                || text::trimmed(decode_utf8(h.headers[i].value)) != "13"@) ==> !classified(
            h,
            websocket_path,
        ).is_tunnel,
        (forall|i: int|
            0 <= i < h.headers.len() ==> text::lowercase((#[trigger] h.headers[i]).name)
                != text::lowercase("upgrade"@) || !valid_utf8(h.headers[i].value)
                || text::lowercase(text::trimmed(decode_utf8(h.headers[i].value)))
                != text::lowercase("websocket"@)) ==> !classified(h, websocket_path).is_tunnel,
        (forall|i: int|
            0 <= i < h.headers.len() ==> text::lowercase((#[trigger] h.headers[i]).name)
                != text::lowercase("connection"@) || !valid_utf8(h.headers[i].value)
                || !http_head::lists_token(decode_utf8(h.headers[i].value), "upgrade"@))
            ==> !classified(h, websocket_path).is_tunnel,
{
}

/// Four bytes are read first. A connection that starts like no HTTP request is read no further,
/// and any other up to the end of its head.
pub proof fn lemma_first_bytes_are_read(received: Seq<u8>, max: int)
    requires
        0 <= max <= usize::MAX,
    ensures
        received.len() < 4 ==> (read_step_of(received, max) matches HeadStep::ReadExact(n)
            && received.len() + n == 4),
        received.len() >= 4 && !http_head::starts_like_http(received) ==> read_step_of(
            received,
            max,
        ) is Complete,
        received.len() >= 4 && http_head::starts_like_http(received) ==> {
            &&& read_step_of(received, max) is Complete <==> http_head::header_end(received) is Some
            &&& http_head::header_end(received) is None && received.len() >= max ==> read_step_of(
                received,
                max,
            ) is TooLarge
            &&& http_head::header_end(received) is None && received.len() < max ==> (read_step_of(
                received,
                max,
            ) matches HeadStep::Read(n) && 0 < n && received.len() + n <= max)
        },
{
    http_head::lemma_heads_are_read_to_their_end(received, max);
}

/// The limits that can be used: at least one second and 256 bytes.
pub proof fn lemma_usable_limits(c: CamouflageConfig)
    ensures
        c.valid() <==> c.request_timeout_secs >= 1 && c.max_request_size >= 256,
{
}

/// A cover works with the limits of its configuration, if these can be used and the page has at
/// most 2 MiB; without a configuration it works with 10 seconds and 8 KiB.
pub proof fn lemma_limits_of_a_cover(c: &CamouflageConfig, page_len: nat)
    ensures
        limits_of(None, page_len) == Ok::<_, CamouflageError>((10u64, 8192usize)),
        limits_of(Some(c), page_len) is Ok <==> c.request_timeout_secs >= 1 && c.max_request_size
            >= 256 && page_len <= 2 * 1024 * 1024,
        limits_of(Some(c), page_len) matches Ok((secs, size)) ==> secs == c.request_timeout_secs
            && size == c.max_request_size,
        c.request_timeout_secs == 0 || c.max_request_size < 256 ==> limits_of(Some(c), page_len)
            == Err::<(u64, usize), _>(CamouflageError::InvalidLimits),
        c.request_timeout_secs >= 1 && c.max_request_size >= 256 && page_len > 2 * 1024 * 1024
            ==> limits_of(Some(c), page_len) == Err::<(u64, usize), _>(
            CamouflageError::PageTooLarge,
        ),
{
}

/// The head of the answer starts with the version and the status, says how long the page is, and
/// ends with an empty line.
pub proof fn lemma_head_of_the_page(status: Seq<char>, len: nat)
    ensures
        exists|a: Seq<char>|
            page_head(status, len) == #[trigger] ("HTTP/1.1 "@ + status + "\r\n"@ + a),
        exists|a: Seq<char>, b: Seq<char>|
            page_head(status, len) == #[trigger] (a + "\r\nContent-Length: "@ + text::decimal_text(
                len,
            ) + "\r\n"@ + b),
        exists|a: Seq<char>| page_head(status, len) == #[trigger] (a + "\r\n\r\n"@),
{
    reveal_strlit("\r\nServer: nginx\r\nContent-Type: text/html; charset=utf-8\r\nContent-Length: ");
    reveal_strlit("Server: nginx\r\nContent-Type: text/html; charset=utf-8\r\nContent-Length: ");
    reveal_strlit("\r\nServer: nginx\r\nContent-Type: text/html; charset=utf-8");
    reveal_strlit("\r\nContent-Length: ");
    reveal_strlit("\r\n");
    reveal_strlit("\r\n\r\n");
    reveal_strlit("\r\nConnection: close\r\nX-Content-Type-Options: nosniff\r\n\r\n");
    reveal_strlit("Connection: close\r\nX-Content-Type-Options: nosniff\r\n\r\n");
    reveal_strlit("\r\nConnection: close\r\nX-Content-Type-Options: nosniff");
    let middle = "\r\nServer: nginx\r\nContent-Type: text/html; charset=utf-8\r\nContent-Length: "@;
    let last = "\r\nConnection: close\r\nX-Content-Type-Options: nosniff\r\n\r\n"@;
    let short = "Server: nginx\r\nContent-Type: text/html; charset=utf-8\r\nContent-Length: "@;
    let front = "\r\nServer: nginx\r\nContent-Type: text/html; charset=utf-8"@;
    assert(middle =~= "\r\n"@ + short);
    assert(middle =~= front + "\r\nContent-Length: "@);
    assert(last =~= "\r\n"@ + "Connection: close\r\nX-Content-Type-Options: nosniff\r\n\r\n"@);
    assert(last =~= "\r\nConnection: close\r\nX-Content-Type-Options: nosniff"@ + "\r\n\r\n"@);
    let head = page_head(status, len);
    let length = text::decimal_text(len);
    assert(head =~= "HTTP/1.1 "@ + status + "\r\n"@ + (short + length + last));
    assert(head =~= ("HTTP/1.1 "@ + status + front) + "\r\nContent-Length: "@ + length + "\r\n"@
        + "Connection: close\r\nX-Content-Type-Options: nosniff\r\n\r\n"@);
    assert(head =~= ("HTTP/1.1 "@ + status + middle + length
        + "\r\nConnection: close\r\nX-Content-Type-Options: nosniff"@) + "\r\n\r\n"@);
}

} // verus!
