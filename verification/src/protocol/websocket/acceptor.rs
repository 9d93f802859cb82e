//! Accepting WebSocket connections: which requests are tunnels, and the early data they carry.

use super::{
    WebSocketError, WebSocketLimits, WebSocketOptions, DEFAULT_HANDSHAKE_TIMEOUT_SECS,
    DEFAULT_MAX_EARLY_DATA, DEFAULT_MAX_HANDSHAKE_SIZE,
};
use crate::buffer::Chunk;
use crate::codec::{
    self, decode_standard, decode_standard_no_pad, decode_url_safe, decode_url_safe_no_pad,
};
use crate::protocol::fallback::FallbackPage;
use crate::protocol::http_head::{
    self, find_header, head_step, header_equals, header_has_token, header_present, http_date,
    read_head, without_query, FieldView, HeadStep, HeadView, HeaderField, RequestHead,
    HTTP_DATE_END,
};
use crate::text::{
    self, chars_of, eq_ignore_ascii_case, parse_number, split, split_once, str_eq, strip_prefix,
    trim, utf8_text,
};
use vstd::prelude::*;
use vstd::slice::*;
use vstd::string::*;
use vstd::utf8::*;

verus! {

pub const MIN_HANDSHAKE_SIZE: usize = 256;

/// The `[websocket]` table of a server.
pub struct WebSocketAcceptorConfig {
    pub path: String,
    pub handshake_timeout_secs: u64,
    pub max_handshake_size: usize,
    pub max_early_data: usize,
    pub early_data_header_name: Option<String>,
    pub options: WebSocketOptions,
}

impl WebSocketAcceptorConfig {
    /// A configuration with defaults for all but the path.
    pub fn new(path: String) -> (r: Self)
        ensures
            r.path == path,
            r.handshake_timeout_secs == DEFAULT_HANDSHAKE_TIMEOUT_SECS,
            r.max_handshake_size == DEFAULT_MAX_HANDSHAKE_SIZE,
            r.max_early_data == 0,
            r.early_data_header_name is None,
            r.options == (WebSocketOptions {
                read_buffer_size: super::DEFAULT_BUFFER_SIZE,
                write_buffer_size: super::DEFAULT_BUFFER_SIZE,
                max_message_size: super::DEFAULT_MAX_MESSAGE_SIZE,
                max_frame_size: super::DEFAULT_MAX_MESSAGE_SIZE,
                max_write_buffer_size: super::DEFAULT_MAX_WRITE_BUFFER_SIZE,
                max_write_frame_size: 0,
                keepalive_interval_secs: super::DEFAULT_KEEPALIVE_INTERVAL_SECS,
            }),
    {
        WebSocketAcceptorConfig {
            path,
            handshake_timeout_secs: DEFAULT_HANDSHAKE_TIMEOUT_SECS,
            max_handshake_size: DEFAULT_MAX_HANDSHAKE_SIZE,
            max_early_data: 0,
            early_data_header_name: None,
            options: WebSocketOptions::default(),
        }
    }
}

/// Characters of a header name.
pub open spec fn is_header_name_char(c: char) -> bool {
    ||| 'a' <= c <= 'z'
    ||| 'A' <= c <= 'Z'
    ||| '0' <= c <= '9'
    ||| c == '!'
    ||| c == '#'
    ||| c == '$'
    ||| c == '%'
    ||| c == '&'
    ||| c == '\''
    ||| c == '*'
    ||| c == '+'
    ||| c == '-'
    ||| c == '.'
    ||| c == '^'
    ||| c == '_'
    ||| c == '`'
    ||| c == '|'
    ||| c == '~'
}

/// Whether all of `name` may stand in a header name.
pub open spec fn is_header_name(name: Seq<char>) -> bool {
    forall|k: int| 0 <= k < name.len() ==> is_header_name_char(#[trigger] name[k])
}

/// Whether all of `name` may stand in a header name.
pub fn is_valid_header_name(name: &str) -> (r: bool)
    ensures
        r == is_header_name(name@),
{
    let chars = chars_of(name);
    for i in 0..chars.len()
        invariant
            chars@ == name@,
            forall|k: int| 0 <= k < i ==> is_header_name_char(#[trigger] name@[k]),
    {
        let c: char = chars[i];
        let ok: bool = ('a' <= c && c <= 'z') || ('A' <= c && c <= 'Z') || ('0' <= c && c <= '9')
            || c == '!' || c == '#' || c == '$' || c == '%' || c == '&' || c == '\'' || c == '*'
            || c == '+' || c == '-' || c == '.' || c == '^' || c == '_' || c == '`' || c == '|'
            || c == '~';
        if !ok {
            assert(!is_header_name_char(name@[i as int]));
            return false;
        }
    }
    true
}

/// What is wrong with a configuration, if anything: the first of these.
pub open spec fn config_error(c: WebSocketAcceptorConfig) -> Option<WebSocketError> {
    if c.path@.len() == 0 || c.path@[0] != '/' {
        Some(WebSocketError::PathStart)
    } else if c.path@.contains('?') || c.path@.contains('#') {
        Some(WebSocketError::PathQuery)
    } else if c.handshake_timeout_secs == 0 || c.max_handshake_size < MIN_HANDSHAKE_SIZE {
        Some(WebSocketError::HandshakeLimits)
    } else if c.max_early_data > DEFAULT_MAX_EARLY_DATA {
        Some(WebSocketError::EarlyDataLimit)
    } else if c.early_data_header_name matches Some(name) && !is_header_name(name@) {
        Some(WebSocketError::HeaderName)
    } else if !c.options.valid() {
        Some(WebSocketError::ResourceLimits)
    } else {
        None
    }
}

fn contains_char(chars: &Vec<char>, c: char) -> (r: bool)
    ensures
        r == chars@.contains(c),
{
    for i in 0..chars.len()
        invariant
            forall|k: int| 0 <= k < i ==> chars@[k] != c,
    {
        if chars[i] == c {
            return true;
        }
    }
    false
}

/// Whether a configuration can be used, and else what is wrong.
pub fn validate_config(config: &WebSocketAcceptorConfig) -> (r: Result<(), WebSocketError>)
    ensures
        match r {
            Ok(()) => config_error(*config) is None,
            Err(error) => config_error(*config) == Some(error),
        },
{
    let path = chars_of(&config.path);
    if path.len() == 0 || path[0] != '/' {
        return Err(WebSocketError::PathStart);
    }
    if contains_char(&path, '?') || contains_char(&path, '#') {
        return Err(WebSocketError::PathQuery);
    }
    if config.handshake_timeout_secs == 0 || config.max_handshake_size < MIN_HANDSHAKE_SIZE {
        return Err(WebSocketError::HandshakeLimits);
    }
    if config.max_early_data > DEFAULT_MAX_EARLY_DATA {
        return Err(WebSocketError::EarlyDataLimit);
    }
    if let Some(name) = &config.early_data_header_name {
        if !is_valid_header_name(name) {
            return Err(WebSocketError::HeaderName);
        }
    }
    config.options.validate()
}

/// How the first bytes of a connection are read: four, then the rest of a GET request head.
pub open spec fn read_step_of(received: Seq<u8>, max: int) -> HeadStep {
    if received.len() < 4 {
        HeadStep::ReadExact((4 - received.len()) as usize)
    } else if received.subrange(0, 4) != seq![0x47u8, 0x45, 0x54, 0x20] {
        HeadStep::Complete
    } else {
        http_head::step_to_end(received, max)
    }
}

/// What to do next to read the first bytes of a connection. A connection that ends while a head is
/// read leaves what came in.
pub fn read_request_head(received: &[u8], max: usize) -> (r: HeadStep)
    ensures
        r == read_step_of(received@, max as int),
{
    if received.len() < 4 {
        return HeadStep::ReadExact(4 - received.len());
    }
    let first = slice_subrange(received, 0, 4);
    if first[0] != 0x47 || first[1] != 0x45 || first[2] != 0x54 || first[3] != 0x20 {
        return HeadStep::Complete;
    }
    assert(first@ =~= seq![0x47u8, 0x45, 0x54, 0x20]);
    head_step(received, max)
}

/// The early data limit in one `key=value` pair of a query: that of `ed`, when it is a number.
pub open spec fn pair_limit(pair: Seq<char>) -> Option<nat> {
    match text::cut(pair, '=') {
        Some((key, value)) => if key == "ed"@ {
            text::parsed_number(value, usize::MAX as nat)
        } else {
            None
        },
        None => None,
    }
}

/// The first early data limit in a list of pairs, from position `from` on.
pub open spec fn first_limit(pairs: Seq<Seq<char>>, from: int) -> Option<nat>
    decreases pairs.len() - from,
{
    if from < 0 || from >= pairs.len() {
        None
    } else if pair_limit(pairs[from]) is Some {
        pair_limit(pairs[from])
    } else {
        first_limit(pairs, from + 1)
    }
}

/// The early data limit that a query announces.
pub open spec fn query_limit(query: Seq<char>) -> Option<nat> {
    first_limit(text::segments(query, '&'), 0)
}

/// The early data limit that a query announces.
pub fn parse_ed_limit_from_query(query: &str) -> (r: Option<usize>)
    ensures
        match r {
            Some(n) => query_limit(query@) == Some(n as nat),
            None => query_limit(query@) is None,
        },
{
    let pairs = split(query, '&');
    let ghost all = text::segments(query@, '&');
    assert(all.len() == pairs@.len());
    let mut i: usize = 0;
    while i < pairs.len()
        invariant
            text::views(pairs@) == all,
            all == text::segments(query@, '&'),
            all.len() == pairs@.len(),
            i <= pairs@.len(),
            query_limit(query@) == first_limit(all, i as int),
        decreases pairs@.len() - i,
    {
        assert(pairs@[i as int]@ == all[i as int]);
        if let Some((key, value)) = split_once(pairs[i], '=') {
            if str_eq(key, "ed") {
                if let Some(n) = parse_number(value, usize::MAX as u64) {
                    return Some(n as usize);
                }
            }
        }
        i = i + 1;
    }
    None
}

/// The early data limit that the query of a path announces.
pub open spec fn path_limit(path: Seq<char>) -> Option<nat> {
    match text::cut(path, '?') {
        Some((_, query)) => query_limit(query),
        None => None,
    }
}

/// The early data limit that the query of a path announces.
pub fn parse_ed_limit(path: &str) -> (r: Option<usize>)
    ensures
        match r {
            Some(n) => path_limit(path@) == Some(n as nat),
            None => path_limit(path@) is None,
        },
{
    match split_once(path, '?') {
        Some((_, query)) => parse_ed_limit_from_query(query),
        None => None,
    }
}

/// What follows `expected` and a slash in a path, when it is not empty.
pub open spec fn path_suffix(path: Seq<char>, expected: Seq<char>) -> Option<Seq<char>> {
    match text::without_prefix(path, expected) {
        Some(suffix) => match text::without_prefix(suffix, "/"@) {
            Some(rest) => if rest.len() > 0 {
                Some(rest)
            } else {
                None
            },
            None => None,
        },
        None => None,
    }
}

fn suffix_of<'a>(path: &'a str, expected: &str) -> (r: Option<&'a str>)
    ensures
        match r {
            Some(rest) => path_suffix(path@, expected@) == Some(rest@),
            None => path_suffix(path@, expected@) is None,
        },
{
    match strip_prefix(path, expected) {
        Some(suffix) => match strip_prefix(suffix, "/") {
            Some(rest) => {
                if chars_of(rest).len() > 0 {
                    Some(rest)
                } else {
                    None
                }
            },
            None => None,
        },
        None => None,
    }
}

/// Whether a path is that of the tunnel: the expected one, or, where early data may stand in the
/// path, the expected one followed by a slash and the data.
pub open spec fn path_matches(
    path: Seq<char>,
    query: Option<Seq<char>>,
    expected: Seq<char>,
    allow_path_early_data: bool,
) -> bool {
    ||| path == expected
    ||| {
        &&& allow_path_early_data
        &&& query matches Some(q) && query_limit(q) is Some
        &&& path_suffix(path, expected) is Some
    }
}

/// Whether a path is that of the tunnel.
pub fn websocket_path_matches(
    path: &str,
    query: Option<&str>,
    expected_path: &str,
    allow_path_early_data: bool,
) -> (r: bool)
    ensures
        r == path_matches(
            path@,
            http_head::str_view(query),
            expected_path@,
            allow_path_early_data,
        ),
{
    if str_eq(path, expected_path) {
        return true;
    }
    if !allow_path_early_data {
        return false;
    }
    match query {
        Some(q) => parse_ed_limit_from_query(q).is_some() && suffix_of(
            path,
            expected_path,
        ).is_some(),
        None => false,
    }
}

/// Whether the path of a request, its query among it, is that of the tunnel.
pub open spec fn request_path_matches(
    path: Seq<char>,
    expected: Seq<char>,
    allow_path_early_data: bool,
) -> bool {
    match text::cut(path, '?') {
        Some((p, q)) => path_matches(p, Some(q), expected, allow_path_early_data),
        None => path_matches(path, None, expected, allow_path_early_data),
    }
}

/// Whether a request head opens a tunnel: a GET for its path with all that a WebSocket handshake
/// needs.
pub open spec fn opens_tunnel(
    h: HeadView,
    expected: Seq<char>,
    allow_path_early_data: bool,
) -> bool {
    &&& h.method == Some("GET"@)
    &&& h.path matches Some(path) && request_path_matches(path, expected, allow_path_early_data)
    &&& http_head::present(h.headers, "host"@)
    &&& http_head::has_token(h.headers, "connection"@, "upgrade"@)
    &&& http_head::has_token(h.headers, "upgrade"@, "websocket"@)
    &&& http_head::equals(h.headers, "sec-websocket-version"@, "13"@)
    &&& http_head::present(h.headers, "sec-websocket-key"@)
}

/// Whether the bytes of a request open a tunnel.
pub open spec fn request_opens_tunnel(
    request: Seq<u8>,
    expected: Seq<char>,
    allow_path_early_data: bool,
) -> bool {
    http_head::request_head(request) matches Some(h) && opens_tunnel(
        h,
        expected,
        allow_path_early_data,
    )
}

/// Whether a request head opens a tunnel.
pub fn is_websocket_head(
    head: &RequestHead,
    expected_path: &str,
    allow_path_early_data: bool,
) -> (r: bool)
    ensures
        r == opens_tunnel(head@, expected_path@, allow_path_early_data),
{
    let is_get: bool = match &head.method {
        Some(method) => str_eq(method, "GET"),
        None => false,
    };
    if !is_get {
        return false;
    }
    let matches: bool = match &head.path {
        Some(path) => match split_once(path, '?') {
            Some((p, q)) => websocket_path_matches(
                p,
                Some(q),
                expected_path,
                allow_path_early_data,
            ),
            None => websocket_path_matches(path, None, expected_path, allow_path_early_data),
        },
        None => false,
    };
    matches && header_present(&head.headers, "host") && header_has_token(
        &head.headers,
        "connection",
        "upgrade",
    ) && header_has_token(&head.headers, "upgrade", "websocket") && header_equals(
        &head.headers,
        "sec-websocket-version",
        "13",
    ) && header_present(&head.headers, "sec-websocket-key")
}

/// Whether the bytes of a request open a tunnel.
pub fn is_trojan_go_websocket_request_with_options(
    request: &[u8],
    expected_path: &str,
    allow_path_early_data: bool,
) -> (r: bool)
    ensures
        r == request_opens_tunnel(request@, expected_path@, allow_path_early_data),
{
    match read_head(request) {
        Some(head) => is_websocket_head(&head, expected_path, allow_path_early_data),
        None => false,
    }
}

/// Whether the bytes of a request open a tunnel whose path holds no early data.
pub fn is_trojan_go_websocket_request(request: &[u8], expected_path: &str) -> (r: bool)
    ensures
        r == request_opens_tunnel(request@, expected_path@, false),
{
    is_trojan_go_websocket_request_with_options(request, expected_path, false)
}

/// The limit that holds where both sides may set one; 0 is none.
pub open spec fn combined_limit(configured: int, requested: int) -> int {
    if configured == 0 {
        if requested <= DEFAULT_MAX_EARLY_DATA {
            requested
        } else {
            DEFAULT_MAX_EARLY_DATA as int
        }
    } else if requested == 0 || configured <= requested {
        configured
    } else {
        requested
    }
}

/// The limit that holds where both sides may set one.
pub fn early_data_limit(configured_limit: usize, request_ed_limit: usize) -> (r: usize)
    ensures
        r == combined_limit(configured_limit as int, request_ed_limit as int),
{
    if configured_limit == 0 {
        if request_ed_limit <= DEFAULT_MAX_EARLY_DATA {
            request_ed_limit
        } else {
            DEFAULT_MAX_EARLY_DATA
        }
    } else if request_ed_limit == 0 || configured_limit <= request_ed_limit {
        configured_limit
    } else {
        request_ed_limit
    }
}

/// The bytes that early data stands for: base64, URL-safe before standard and without padding
/// before padded.
pub open spec fn early_bytes(s: Seq<char>) -> Option<Seq<u8>> {
    if codec::strict_decode(s, true, false) is Some {
        codec::strict_decode(s, true, false)
    } else if codec::strict_decode(s, true, true) is Some {
        codec::strict_decode(s, true, true)
    } else if codec::strict_decode(s, false, false) is Some {
        codec::strict_decode(s, false, false)
    } else {
        codec::strict_decode(s, false, true)
    }
}

proof fn lemma_strict_is_loose(s: Seq<char>, url: bool, pad: bool)
    ensures
        codec::strict_decode(s, url, pad) is Some ==> codec::loose_decode(s)
            == codec::strict_decode(s, url, pad),
{
    if codec::strict_decode(s, url, pad) is Some {
        let d = choose|d: Seq<u8>| #[trigger] codec::base64_form(d, url, pad) == s;
        codec::lemma_loose_round_trip(d, url, pad);
        codec::lemma_strict_round_trip(d, url, pad);
    }
}

/// Early data in any of the four base64 forms is read back as the bytes that were sent.
pub proof fn lemma_early_data_round_trip(d: Seq<u8>, url: bool, pad: bool)
    ensures
        early_bytes(codec::base64_form(d, url, pad)) == Some(d),
{
    let s = codec::base64_form(d, url, pad);
    codec::lemma_strict_round_trip(d, url, pad);
    codec::lemma_loose_round_trip(d, url, pad);
    lemma_strict_is_loose(s, true, false);
    lemma_strict_is_loose(s, true, true);
    lemma_strict_is_loose(s, false, false);
    lemma_strict_is_loose(s, false, true);
}

/// Decodes early data.
pub fn decode_early_data(encoded: &str) -> (r: Result<Vec<u8>, WebSocketError>)
    ensures
        match r {
            Ok(bytes) => early_bytes(encoded@) == Some(bytes@),
            Err(error) => early_bytes(encoded@) is None && error
                == WebSocketError::EarlyDataEncoding,
        },
{
    if let Some(bytes) = decode_url_safe_no_pad(encoded) {
        proof {
            codec::lemma_strict_round_trip(bytes@, true, false);
        }
        return Ok(bytes);
    }
    if let Some(bytes) = decode_url_safe(encoded) {
        proof {
            codec::lemma_strict_round_trip(bytes@, true, true);
        }
        return Ok(bytes);
    }
    if let Some(bytes) = decode_standard_no_pad(encoded) {
        proof {
            codec::lemma_strict_round_trip(bytes@, false, false);
        }
        return Ok(bytes);
    }
    if let Some(bytes) = decode_standard(encoded) {
        proof {
            codec::lemma_strict_round_trip(bytes@, false, true);
        }
        return Ok(bytes);
    }
    Err(WebSocketError::EarlyDataEncoding)
}

/// Early data and the sub-protocol that the response names.
pub struct EarlyData {
    pub payload: Chunk,
    pub response_protocol: Option<String>,
}

/// The mathematical content of `EarlyData`.
pub struct EarlyDataView {
    pub payload: Seq<u8>,
    pub response_protocol: Option<Seq<char>>,
}

impl View for EarlyData {
    type V = EarlyDataView;

    open spec fn view(&self) -> EarlyDataView {
        EarlyDataView {
            payload: self.payload@,
            response_protocol: http_head::text_view(self.response_protocol),
        }
    }
}

/// The first token of a list that is not empty, from position `from` on.
pub open spec fn first_token(tokens: Seq<Seq<char>>, from: int) -> Option<Seq<char>>
    decreases tokens.len() - from,
{
    if from < 0 || from >= tokens.len() {
        None
    } else if text::trimmed(tokens[from]).len() > 0 {
        Some(text::trimmed(tokens[from]))
    } else {
        first_token(tokens, from + 1)
    }
}

/// Early data in a header: the first token of the first header of that name, and the sub-protocol
/// that the response names for it.
pub open spec fn header_source(hs: Seq<FieldView>, name: Seq<char>) -> Option<
    (Seq<char>, Option<Seq<char>>),
> {
    match http_head::first_named(hs, name, 0) {
        None => None,
        Some(i) => match http_head::value_text(hs[i]) {
            None => None,
            Some(v) => match first_token(text::segments(v, ','), 0) {
                None => None,
                Some(token) => Some(
                    (
                        token,
                        if http_head::is_named(hs[i], "Sec-WebSocket-Protocol"@) {
                            Some(token)
                        } else {
                            None
                        },
                    ),
                ),
            },
        },
    }
}

fn find_token<'a>(value: &'a str) -> (r: Option<&'a str>)
    ensures
        match r {
            Some(token) => first_token(text::segments(value@, ','), 0) == Some(token@),
            None => first_token(text::segments(value@, ','), 0) is None,
        },
{
    let tokens = split(value, ',');
    let ghost all = text::segments(value@, ',');
    assert(all.len() == tokens@.len());
    let mut i: usize = 0;
    while i < tokens.len()
        invariant
            text::views(tokens@) == all,
            all == text::segments(value@, ','),
            all.len() == tokens@.len(),
            i <= tokens@.len(),
            first_token(all, 0) == first_token(all, i as int),
        decreases tokens@.len() - i,
    {
        assert(tokens@[i as int]@ == all[i as int]);
        let token = trim(tokens[i]);
        if chars_of(token).len() > 0 {
            return Some(token);
        }
        i = i + 1;
    }
    None
}

/// Early data in a header, and the sub-protocol that the response names for it.
pub fn header_early_data<'a>(headers: &'a Vec<HeaderField>, header_name: &str) -> (r: Option<
    (&'a str, Option<String>),
>)
    ensures
        match r {
            Some((encoded, protocol)) => header_source(http_head::fields(headers@), header_name@)
                == Some((encoded@, http_head::text_view(protocol))),
            None => header_source(http_head::fields(headers@), header_name@) is None,
        },
{
    let i: usize = match find_header(headers, header_name) {
        Some(i) => i,
        None => return None,
    };
    assert(http_head::fields(headers@)[i as int] == headers@[i as int]@);
    let header = &headers[i];
    let value = match utf8_text(header.value.as_slice()) {
        Some(value) => value,
        None => return None,
    };
    let encoded = match find_token(value) {
        Some(token) => token,
        None => return None,
    };
    let response_protocol = if eq_ignore_ascii_case(&header.name, "Sec-WebSocket-Protocol") {
        Some(encoded.to_owned())
    } else {
        None
    };
    Some((encoded, response_protocol))
}

/// Early data in the headers: in the configured one, else in that of the sub-protocols.
pub open spec fn headers_source(hs: Seq<FieldView>, configured: Option<Seq<char>>) -> Option<
    (Seq<char>, Option<Seq<char>>),
> {
    let usual = header_source(hs, "Sec-WebSocket-Protocol"@);
    match configured {
        Some(name) => if name.len() == 0 {
            usual
        } else if header_source(hs, name) is Some {
            header_source(hs, name)
        } else if text::same_ignoring_case(name, "Sec-WebSocket-Protocol"@) {
            None
        } else {
            usual
        },
        None => usual,
    }
}

fn headers_early_data<'a>(
    headers: &'a Vec<HeaderField>,
    configured_header: Option<&str>,
) -> (r: Option<(&'a str, Option<String>)>)
    ensures
        match r {
            Some((encoded, protocol)) => headers_source(
                http_head::fields(headers@),
                http_head::str_view(configured_header),
            ) == Some((encoded@, http_head::text_view(protocol))),
            None => headers_source(
                http_head::fields(headers@),
                http_head::str_view(configured_header),
            ) is None,
        },
{
    if let Some(name) = configured_header {
        if chars_of(name).len() > 0 {
            let found = header_early_data(headers, name);
            if found.is_some() || eq_ignore_ascii_case(name, "Sec-WebSocket-Protocol") {
                return found;
            }
        }
    }
    header_early_data(headers, "Sec-WebSocket-Protocol")
}

/// Early data in a path behind the expected one.
pub open spec fn path_source(path: Option<Seq<char>>, expected: Seq<char>) -> Option<Seq<char>> {
    match path {
        Some(p) => path_suffix(http_head::path_without_query(p), expected),
        None => None,
    }
}

/// Early data in a path behind the expected one.
pub fn path_early_data<'a>(path: Option<&'a str>, expected_path: &str) -> (r: Option<&'a str>)
    ensures
        match r {
            Some(encoded) => path_source(http_head::str_view(path), expected_path@) == Some(
                encoded@,
            ),
            None => path_source(http_head::str_view(path), expected_path@) is None,
        },
{
    match path {
        Some(p) => suffix_of(without_query(p), expected_path),
        None => None,
    }
}

/// No early data.
pub open spec fn no_early_data() -> EarlyDataView {
    EarlyDataView { payload: Seq::empty(), response_protocol: None }
}

/// Early data that was found encoded.
pub open spec fn checked_early_data(
    encoded: Seq<char>,
    limit: int,
    response_protocol: Option<Seq<char>>,
) -> Result<EarlyDataView, WebSocketError> {
    match early_bytes(encoded) {
        None => Err(WebSocketError::EarlyDataEncoding),
        Some(payload) => if payload.len() > limit {
            Err(WebSocketError::EarlyDataTooLarge)
        } else {
            Ok(EarlyDataView { payload, response_protocol })
        },
    }
}

/// The limit that the path of a request announces; 0 where it announces none.
pub open spec fn announced_limit(path: Option<Seq<char>>) -> int {
    match path {
        Some(p) => match path_limit(p) {
            Some(n) => n as int,
            None => 0,
        },
        None => 0,
    }
}

/// The early data of a request head.
pub open spec fn early_data_of(
    h: HeadView,
    expected: Seq<char>,
    configured_limit: int,
    configured_header: Option<Seq<char>>,
) -> Result<EarlyDataView, WebSocketError> {
    let limit = combined_limit(configured_limit, announced_limit(h.path));
    if limit == 0 {
        Ok(no_early_data())
    } else {
        match headers_source(h.headers, configured_header) {
            Some((encoded, protocol)) => checked_early_data(encoded, limit, protocol),
            None => match path_source(h.path, expected) {
                Some(encoded) => checked_early_data(encoded, limit, None),
                None => Ok(no_early_data()),
            },
        }
    }
}

fn check_early_data(encoded: &str, limit: usize, response_protocol: Option<String>) -> (r: Result<
    EarlyData,
    WebSocketError,
>)
    ensures
        match r {
            Ok(data) => checked_early_data(
                encoded@,
                limit as int,
                http_head::text_view(response_protocol),
            ) == Ok::<_, WebSocketError>(data@),
            Err(error) => checked_early_data(
                encoded@,
                limit as int,
                http_head::text_view(response_protocol),
            ) == Err::<EarlyDataView, _>(error),
        },
{
    let payload = match decode_early_data(encoded) {
        Ok(payload) => payload,
        Err(error) => return Err(error),
    };
    if payload.len() > limit {
        return Err(WebSocketError::EarlyDataTooLarge);
    }
    Ok(EarlyData { payload: Chunk::from_vec(payload), response_protocol })
}

fn empty_early_data() -> (r: EarlyData)
    ensures
        r@ == no_early_data(),
{
    let r = EarlyData { payload: Chunk::from_vec(Vec::new()), response_protocol: None };
    assert(r.payload@ =~= Seq::empty());
    r
}

/// The early data of a request head.
pub fn extract_from_head(
    head: &RequestHead,
    expected_path: &str,
    configured_limit: usize,
    configured_header: Option<&str>,
) -> (r: Result<EarlyData, WebSocketError>)
    ensures
        match r {
            Ok(data) => early_data_of(
                head@,
                expected_path@,
                configured_limit as int,
                http_head::str_view(configured_header),
            ) == Ok::<_, WebSocketError>(data@),
            Err(error) => early_data_of(
                head@,
                expected_path@,
                configured_limit as int,
                http_head::str_view(configured_header),
            ) == Err::<EarlyDataView, _>(error),
        },
{
    let path = match &head.path {
        Some(path) => Some(path.as_str()),
        None => None,
    };
    let announced: usize = match path {
        Some(p) => match parse_ed_limit(p) {
            Some(n) => n,
            None => 0,
        },
        None => 0,
    };
    let limit: usize = early_data_limit(configured_limit, announced);
    if limit == 0 {
        return Ok(empty_early_data());
    }
    match headers_early_data(&head.headers, configured_header) {
        Some((encoded, protocol)) => {
            return check_early_data(encoded, limit, protocol);
        },
        None => {},
    }
    match path_early_data(path, expected_path) {
        Some(encoded) => check_early_data(encoded, limit, None),
        None => Ok(empty_early_data()),
    }
}

/// The early data in the bytes of a request.
pub open spec fn early_data_of_request(
    request: Seq<u8>,
    expected: Seq<char>,
    configured_limit: int,
    configured_header: Option<Seq<char>>,
) -> Result<EarlyDataView, WebSocketError> {
    match http_head::request_head(request) {
        Some(h) => early_data_of(h, expected, configured_limit, configured_header),
        None => Ok(no_early_data()),
    }
}

/// The early data in the bytes of a request; none where they are no complete request head.
pub fn extract_early_data(
    request: &[u8],
    expected_path: &str,
    configured_limit: usize,
    configured_header: Option<&str>,
) -> (r: Result<EarlyData, WebSocketError>)
    ensures
        match r {
            Ok(data) => early_data_of_request(
                request@,
                expected_path@,
                configured_limit as int,
                http_head::str_view(configured_header),
            ) == Ok::<_, WebSocketError>(data@),
            Err(error) => early_data_of_request(
                request@,
                expected_path@,
                configured_limit as int,
                http_head::str_view(configured_header),
            ) == Err::<EarlyDataView, _>(error),
        },
{
    match read_head(request) {
        Some(head) => extract_from_head(
            &head,
            expected_path,
            configured_limit,
            configured_header,
        ),
        None => Ok(empty_early_data()),
    }
}

/// Early data is never longer than the configured limit, nor, where none is configured, than the
/// hard limit.
pub proof fn lemma_early_data_is_limited(
    request: Seq<u8>,
    expected: Seq<char>,
    configured_limit: int,
    configured_header: Option<Seq<char>>,
)
    requires
        0 <= configured_limit <= DEFAULT_MAX_EARLY_DATA,
        early_data_of_request(request, expected, configured_limit, configured_header) is Ok,
    ensures
        early_data_of_request(
            request,
            expected,
            configured_limit,
            configured_header,
        )->Ok_0.payload.len() <= (if configured_limit > 0 {
            configured_limit
        } else {
            DEFAULT_MAX_EARLY_DATA as int
        }),
{
}

/// What accepts WebSocket connections on top of `inner`.
pub struct WebSocketAcceptor<T> {
    pub path: String,
    pub handshake_timeout_secs: u64,
    pub max_handshake_size: usize,
    pub max_early_data: usize,
    pub early_data_header_name: Option<String>,
    pub limits: WebSocketLimits,
    pub options: WebSocketOptions,
    pub allow_raw: bool,
    pub fallback: Option<FallbackPage>,
    pub inner: T,
}

/// What is to be done about a connection.
pub enum AcceptDecision {
    /// Hand it on as it is, with the bytes that were read in front.
    Raw,
    /// Let the fallback site answer.
    Fallback,
    /// Do the WebSocket handshake; the early data comes before what is read.
    Upgrade(EarlyData),
    /// Drop it.
    Refuse(WebSocketError),
}

/// What is done about a connection that started with `request`.
pub open spec fn is_decision<T>(
    d: AcceptDecision,
    acceptor: WebSocketAcceptor<T>,
    request: Seq<u8>,
) -> bool {
    if request_opens_tunnel(request, acceptor.path@, true) {
        match early_data_of_request(
            request,
            acceptor.path@,
            acceptor.max_early_data as int,
            http_head::text_view(acceptor.early_data_header_name),
        ) {
            Ok(data) => d matches AcceptDecision::Upgrade(early) && early@ == data,
            Err(error) => d == AcceptDecision::Refuse(error),
        }
    } else if acceptor.allow_raw {
        d is Raw
    } else if acceptor.fallback is Some {
        d is Fallback
    } else {
        d == AcceptDecision::Refuse(WebSocketError::UpgradeRequired)
    }
}

impl<T> WebSocketAcceptor<T> {
    /// Holds of what a configuration gives.
    pub open spec fn is_configured(
        &self,
        c: WebSocketAcceptorConfig,
        fallback: Option<FallbackPage>,
        inner: T,
        allow_raw: bool,
    ) -> bool {
        &&& self.path == c.path
        &&& self.handshake_timeout_secs == c.handshake_timeout_secs
        &&& self.max_handshake_size == c.max_handshake_size
        &&& self.max_early_data == c.max_early_data
        &&& self.early_data_header_name == c.early_data_header_name
        &&& self.limits == (WebSocketLimits {
            read_buffer_size: c.options.read_buffer_size,
            write_buffer_size: c.options.write_buffer_size,
            max_write_buffer_size: c.options.max_write_buffer_size,
            max_message_size: Some(c.options.max_message_size),
            max_frame_size: Some(c.options.max_frame_size),
        })
        &&& self.options == c.options
        &&& self.allow_raw == allow_raw
        &&& self.fallback == fallback
        &&& self.inner == inner
    }

    /// An acceptor that also takes connections that are no WebSocket.
    pub fn new(config: &WebSocketAcceptorConfig, fallback: Option<FallbackPage>, inner: T) -> (r:
        Result<Self, WebSocketError>)
        ensures
            match r {
                Ok(acceptor) => config_error(*config) is None && acceptor.is_configured(
                    *config,
                    fallback,
                    inner,
                    true,
                ),
                Err(error) => config_error(*config) == Some(error),
            },
    {
        Self::new_inner(config, fallback, inner, true)
    }

    /// An acceptor that takes WebSocket connections only.
    pub fn new_strict(
        config: &WebSocketAcceptorConfig,
        fallback: Option<FallbackPage>,
        inner: T,
    ) -> (r: Result<Self, WebSocketError>)
        ensures
            match r {
                Ok(acceptor) => config_error(*config) is None && acceptor.is_configured(
                    *config,
                    fallback,
                    inner,
                    false,
                ),
                Err(error) => config_error(*config) == Some(error),
            },
    {
        Self::new_inner(config, fallback, inner, false)
    }

    fn new_inner(
        config: &WebSocketAcceptorConfig,
        fallback: Option<FallbackPage>,
        inner: T,
        allow_raw: bool,
    ) -> (r: Result<Self, WebSocketError>)
        ensures
            match r {
                Ok(acceptor) => config_error(*config) is None && acceptor.is_configured(
                    *config,
                    fallback,
                    inner,
                    allow_raw,
                ),
                Err(error) => config_error(*config) == Some(error),
            },
    {
        match validate_config(config) {
            Ok(()) => {},
            Err(error) => return Err(error),
        }
        let early_data_header_name = match &config.early_data_header_name {
            Some(name) => Some(name.clone()),
            None => None,
        };
        Ok(
            WebSocketAcceptor {
                path: config.path.clone(),
                handshake_timeout_secs: config.handshake_timeout_secs,
                max_handshake_size: config.max_handshake_size,
                max_early_data: config.max_early_data,
                early_data_header_name,
                limits: config.options.tungstenite_config(),
                options: config.options,
                allow_raw,
                fallback,
                inner,
            },
        )
    }

    /// Decides about a connection that started with `request`.
    pub fn decide(&self, request: &[u8]) -> (r: AcceptDecision)
        ensures
            is_decision(r, *self, request@),
    {
        if !is_trojan_go_websocket_request_with_options(request, &self.path, true) {
            if self.allow_raw {
                return AcceptDecision::Raw;
            }
            if self.fallback.is_some() {
                return AcceptDecision::Fallback;
            }
            return AcceptDecision::Refuse(WebSocketError::UpgradeRequired);
        }
        let header = match &self.early_data_header_name {
            Some(name) => Some(name.as_str()),
            None => None,
        };
        match extract_early_data(request, &self.path, self.max_early_data, header) {
            Ok(early) => AcceptDecision::Upgrade(early),
            Err(error) => AcceptDecision::Refuse(error),
        }
    }
}

/// The answer to a WebSocket handshake request.
pub enum HandshakeReply {
    /// Switch protocols, with a date and, where early data came that way, a sub-protocol.
    Accept { date: String, protocol: Option<String> },
    /// Status 404 with a date, and close the connection.
    NotFound { date: String },
}

/// The answer at unix time `now` to a handshake request whose path is that of the tunnel or not.
pub open spec fn is_reply(
    reply: HandshakeReply,
    matches_path: bool,
    response_protocol: Option<String>,
    now: int,
) -> bool {
    if matches_path {
        reply matches HandshakeReply::Accept { date, protocol } && date@
            == http_head::http_date_text(now) && protocol == response_protocol
    } else {
        reply matches HandshakeReply::NotFound { date } && date@ == http_head::http_date_text(now)
    }
}

/// Answers a handshake request at unix time `now`: by its path.
pub fn on_request(
    path: &str,
    query: Option<&str>,
    expected_path: &str,
    allow_path_early_data: bool,
    response_protocol: Option<String>,
    now: u64,
) -> (r: HandshakeReply)
    requires
        now < HTTP_DATE_END,
    ensures
        is_reply(
            r,
            path_matches(
                path@,
                http_head::str_view(query),
                expected_path@,
                allow_path_early_data,
            ),
            response_protocol,
            now as int,
        ),
{
    let date = http_date(now);
    if websocket_path_matches(path, query, expected_path, allow_path_early_data) {
        HandshakeReply::Accept { date, protocol: response_protocol }
    } else {
        HandshakeReply::NotFound { date }
    }
}

/// A request that opens the tunnel is never handed on raw nor given to the fallback site: it is
/// upgraded with its early data, or refused where that is bad. No other request is upgraded; it is
/// handed on raw exactly where that is allowed, and else goes to the fallback site if there is one.
pub proof fn lemma_tunnels_are_upgraded<T>(
    d: AcceptDecision,
    acceptor: WebSocketAcceptor<T>,
    request: Seq<u8>,
)
    requires
        is_decision(d, acceptor, request),
    ensures
        ({
            let opens = request_opens_tunnel(request, acceptor.path@, true);
            let early = early_data_of_request(
                request,
                acceptor.path@,
                acceptor.max_early_data as int,
                http_head::text_view(acceptor.early_data_header_name),
            );
            &&& d is Raw <==> !opens && acceptor.allow_raw
            &&& d is Fallback <==> !opens && !acceptor.allow_raw && acceptor.fallback is Some
            &&& d is Upgrade <==> opens && early is Ok
            &&& d matches AcceptDecision::Upgrade(e) ==> early == Ok::<_, WebSocketError>(e@)
            &&& opens && early is Err ==> d == AcceptDecision::Refuse(early->Err_0)
            &&& !opens && !acceptor.allow_raw && acceptor.fallback is None ==> d
                == AcceptDecision::Refuse(WebSocketError::UpgradeRequired)
        }),
{
}

/// A handshake opens the tunnel: a GET of its path, with or without a query, that names a host and
/// a key, lists the tokens `upgrade` and `websocket`, and asks for version 13. The headers may stand
/// in any order and among others, and the tokens anywhere in their lists.
pub proof fn lemma_handshakes_open_the_tunnel(
    h: HeadView,
    expected: Seq<char>,
    query: Seq<char>,
    allow_path_early_data: bool,
    at: Seq<int>,
    connection: Seq<Seq<char>>,
    c: int,
    upgrade: Seq<Seq<char>>,
    u: int,
)
    requires
        h.method == Some("GET"@),
        !expected.contains('?'),
        h.path == Some(expected) || h.path == Some(expected + seq!['?'] + query),
        at.len() == 5,
        forall|k: int| 0 <= k < 5 ==> 0 <= #[trigger] at[k] < h.headers.len(),
        text::lowercase(h.headers[at[0]].name) == text::lowercase("host"@),
        h.headers[at[0]].value.len() > 0,
        text::lowercase(h.headers[at[1]].name) == text::lowercase("connection"@),
        h.headers[at[1]].value == encode_utf8(text::joined_with(connection, ',')),
        forall|i: int| 0 <= i < connection.len() ==> !(#[trigger] connection[i]).contains(','),
        0 <= c < connection.len(),
        text::lowercase(text::trimmed(connection[c])) == text::lowercase("upgrade"@),
        text::lowercase(h.headers[at[2]].name) == text::lowercase("upgrade"@),
        h.headers[at[2]].value == encode_utf8(text::joined_with(upgrade, ',')),
        forall|i: int| 0 <= i < upgrade.len() ==> !(#[trigger] upgrade[i]).contains(','),
        0 <= u < upgrade.len(),
        text::lowercase(text::trimmed(upgrade[u])) == text::lowercase("websocket"@),
        text::lowercase(h.headers[at[3]].name) == text::lowercase("sec-websocket-version"@),
        h.headers[at[3]].value == encode_utf8("13"@),
        text::lowercase(h.headers[at[4]].name) == text::lowercase("sec-websocket-key"@),
        h.headers[at[4]].value.len() > 0,
    ensures
        opens_tunnel(h, expected, allow_path_early_data),
{
    let hs = h.headers;
    assert(at[0] < hs.len() && at[1] < hs.len() && at[2] < hs.len() && at[3] < hs.len() && at[4]
        < hs.len());
    assert(http_head::is_named(hs[at[0]], "host"@));
    http_head::lemma_value_text(hs[at[1]], text::joined_with(connection, ','));
    http_head::lemma_tokens_are_listed(connection, "upgrade"@);
    assert(http_head::is_named(hs[at[1]], "connection"@));
    assert(http_head::value_lists(hs[at[1]], "upgrade"@));
    http_head::lemma_value_text(hs[at[2]], text::joined_with(upgrade, ','));
    http_head::lemma_tokens_are_listed(upgrade, "websocket"@);
    assert(http_head::is_named(hs[at[2]], "upgrade"@));
    assert(http_head::value_lists(hs[at[2]], "websocket"@));
    http_head::lemma_value_text(hs[at[3]], "13"@);
    reveal_strlit("13");
    text::lemma_trimmed(Seq::empty(), "13"@, Seq::empty());
    assert(Seq::<char>::empty() + "13"@ + Seq::<char>::empty() =~= "13"@);
    assert(http_head::is_named(hs[at[3]], "sec-websocket-version"@));
    assert(http_head::value_equals(hs[at[3]], "13"@));
    assert(http_head::is_named(hs[at[4]], "sec-websocket-key"@));
    text::lemma_cut_of_joined(expected, '?', query);
}

/// Nothing else opens it: a request with another method, or one that lacks the host, the key, the
/// version or one of the tokens, does not.
pub proof fn lemma_other_requests_open_no_tunnel(
    h: HeadView,
    expected: Seq<char>,
    allow_path_early_data: bool,
)
    ensures
        h.method != Some("GET"@) ==> !opens_tunnel(h, expected, allow_path_early_data),
        h.path is None ==> !opens_tunnel(h, expected, allow_path_early_data),
        (forall|i: int|
            0 <= i < h.headers.len() ==> text::lowercase((#[trigger] h.headers[i]).name)
                != text::lowercase("host"@) || h.headers[i].value.len() == 0) ==> !opens_tunnel(
            h,
            expected,
            allow_path_early_data,
        ),
        (forall|i: int|
            0 <= i < h.headers.len() ==> text::lowercase((#[trigger] h.headers[i]).name)
                != text::lowercase("sec-websocket-key"@) || h.headers[i].value.len() == 0)
            ==> !opens_tunnel(h, expected, allow_path_early_data),
        (forall|i: int|
            0 <= i < h.headers.len() ==> text::lowercase((#[trigger] h.headers[i]).name)
                != text::lowercase("sec-websocket-version"@) || !valid_utf8(h.headers[i].value)
                || text::lowercase(text::trimmed(decode_utf8(h.headers[i].value)))
                != text::lowercase("13"@)) ==> !opens_tunnel(h, expected, allow_path_early_data),
        (forall|i: int|
            0 <= i < h.headers.len() ==> text::lowercase((#[trigger] h.headers[i]).name)
                != text::lowercase("connection"@) || !valid_utf8(h.headers[i].value)
                || !http_head::lists_token(decode_utf8(h.headers[i].value), "upgrade"@))
            ==> !opens_tunnel(h, expected, allow_path_early_data),
        (forall|i: int|
            0 <= i < h.headers.len() ==> text::lowercase((#[trigger] h.headers[i]).name)
                != text::lowercase("upgrade"@) || !valid_utf8(h.headers[i].value)
                || !http_head::lists_token(decode_utf8(h.headers[i].value), "websocket"@))
            ==> !opens_tunnel(h, expected, allow_path_early_data),
{
}

/// The path of the tunnel is the expected one, whatever the query. Where early data may stand in
/// it, data behind a slash may follow, provided that the query announces a limit. No other path is
/// that of the tunnel.
pub proof fn lemma_paths_of_the_tunnel(
    path: Seq<char>,
    query: Option<Seq<char>>,
    expected: Seq<char>,
    data: Seq<char>,
    allow: bool,
)
    ensures
        path_matches(expected, query, expected, allow),
        data.len() > 0 ==> (path_matches(expected + seq!['/'] + data, query, expected, allow)
            <==> allow && query is Some && query_limit(query->0) is Some),
        path_matches(path, query, expected, allow) ==> path == expected || exists|rest: Seq<char>|
            rest.len() > 0 && path == #[trigger] (expected + seq!['/'] + rest),
{
    lemma_suffix_of_path(expected + seq!['/'] + data, expected, data);
    if path_suffix(path, expected) is Some {
        let rest = path_suffix(path, expected)->0;
        lemma_suffix_of_path(path, expected, rest);
        assert(path == expected + seq!['/'] + rest);
    }
}

/// What follows the expected path and a slash is the data in the path, unless it is empty.
pub proof fn lemma_suffix_of_path(path: Seq<char>, expected: Seq<char>, rest: Seq<char>)
    ensures
        path_suffix(path, expected) == Some(rest) <==> rest.len() > 0 && path == expected + seq![
            '/',
        ] + rest,
        path_suffix(expected, expected) is None,
        path_suffix(expected + seq!['/'], expected) is None,
{
    reveal_strlit("/");
    assert("/"@ =~= seq!['/']);
    let behind = seq!['/'] + rest;
    assert(expected + seq!['/'] + rest =~= expected + behind);
    text::lemma_without_prefix(path, expected, behind);
    text::lemma_without_prefix(behind, seq!['/'], rest);
    if path_suffix(path, expected) == Some(rest) {
        let suffix = text::without_prefix(path, expected)->0;
        text::lemma_without_prefix(path, expected, suffix);
        text::lemma_without_prefix(suffix, seq!['/'], rest);
    }
    assert(expected + Seq::<char>::empty() =~= expected);
    text::lemma_without_prefix(expected, expected, Seq::empty());
    text::lemma_without_prefix(expected + seq!['/'], expected, seq!['/']);
    assert(seq!['/'] + Seq::<char>::empty() =~= seq!['/']);
    text::lemma_without_prefix(seq!['/'], seq!['/'], Seq::empty());
}

/// A pair announces a limit exactly when it is `ed=` and a number.
pub proof fn lemma_pair_limit(pair: Seq<char>, value: Seq<char>)
    ensures
        pair_limit("ed="@ + value) == text::parsed_number(value, usize::MAX as nat),
        pair_limit(pair) is Some ==> exists|v: Seq<char>| pair == #[trigger] ("ed="@ + v),
{
    reveal_strlit("ed=");
    reveal_strlit("ed");
    assert("ed="@ + value =~= "ed"@ + seq!['='] + value);
    assert(!"ed"@.contains('='));
    text::lemma_cut_of_joined("ed"@, '=', value);
    text::lemma_cut_joins_back(pair, '=');
    if pair_limit(pair) is Some {
        let (key, v) = text::cut(pair, '=')->0;
        assert(pair =~= "ed="@ + v);
    }
}

proof fn lemma_first_limit(pairs: Seq<Seq<char>>, from: int, i: int)
    requires
        0 <= from <= i <= pairs.len(),
        forall|j: int| from <= j < i ==> pair_limit(#[trigger] pairs[j]) is None,
    ensures
        i < pairs.len() && pair_limit(pairs[i]) is Some ==> first_limit(pairs, from) == pair_limit(
            pairs[i],
        ),
        i == pairs.len() ==> first_limit(pairs, from) is None,
    decreases i - from,
{
    if from < i {
        assert(pair_limit(pairs[from]) is None);
        lemma_first_limit(pairs, from + 1, i);
    }
}

/// A query announces the number of its first pair `ed=` with a number, wherever it stands; pairs
/// with other keys, and those whose value is no number, are passed over.
pub proof fn lemma_first_announcement_counts(pairs: Seq<Seq<char>>, i: int, n: nat)
    requires
        pairs.len() > 0,
        forall|j: int| 0 <= j < pairs.len() ==> !(#[trigger] pairs[j]).contains('&'),
        0 <= i <= pairs.len(),
        forall|j: int, v: Seq<char>|
            0 <= j < i && #[trigger] pairs[j] == #[trigger] ("ed="@ + v) ==> text::parsed_number(
                v,
                usize::MAX as nat,
            ) is None,
        n <= usize::MAX,
    ensures
        i < pairs.len() && pairs[i] == "ed="@ + text::decimal_text(n) ==> query_limit(
            text::joined_with(pairs, '&'),
        ) == Some(n),
        i == pairs.len() ==> query_limit(text::joined_with(pairs, '&')) is None,
{
    text::lemma_split_of_joined(pairs, '&');
    assert forall|j: int| 0 <= j < i implies pair_limit(#[trigger] pairs[j]) is None by {
        lemma_pair_limit(pairs[j], Seq::empty());
        if pair_limit(pairs[j]) is Some {
            let v = choose|v: Seq<char>| pairs[j] == #[trigger] ("ed="@ + v);
            lemma_pair_limit(pairs[j], v);
            assert("ed="@ + v == pairs[j]);
        }
    }
    if i < pairs.len() {
        lemma_pair_limit(pairs[i], text::decimal_text(n));
        text::lemma_number_round_trip(n, usize::MAX as nat);
    }
    lemma_first_limit(pairs, 0, i);
}

/// The limit in a path is that of its query.
pub proof fn lemma_limit_in_a_path(path: Seq<char>, query: Seq<char>)
    requires
        !path.contains('?'),
    ensures
        path_limit(path + seq!['?'] + query) == query_limit(query),
        path_limit(path) is None,
        announced_limit(Some(path)) == 0,
        announced_limit(None) == 0,
        query_limit(query) matches Some(n) ==> announced_limit(Some(path + seq!['?'] + query)) == n,
{
    text::lemma_cut_of_joined(path, '?', query);
}

/// The limit that holds is the smaller one where both sides set one, the only one where one does,
/// never more than 8192, and 0 only where no side sets one.
pub proof fn lemma_both_limits_hold(configured: int, requested: int)
    requires
        0 <= configured <= 8192,
        0 <= requested,
    ensures
        ({
            let r = combined_limit(configured, requested);
            &&& 0 <= r <= 8192
            &&& r == 0 <==> configured == 0 && requested == 0
            &&& configured > 0 ==> r <= configured
            &&& requested > 0 ==> r <= requested
            &&& r == configured || r == requested || (configured == 0 && r == 8192)
        }),
{
}

proof fn lemma_first_token(tokens: Seq<Seq<char>>, from: int, k: int)
    requires
        0 <= from <= k <= tokens.len(),
        forall|j: int| from <= j < k ==> text::trimmed(#[trigger] tokens[j]).len() == 0,
    ensures
        k < tokens.len() && text::trimmed(tokens[k]).len() > 0 ==> first_token(tokens, from)
            == Some(text::trimmed(tokens[k])),
        k == tokens.len() ==> first_token(tokens, from) is None,
    decreases k - from,
{
    if from < k {
        assert(text::trimmed(tokens[from]).len() == 0);
        lemma_first_token(tokens, from + 1, k);
    }
}

/// Early data in a header is its first token that is not empty, without the whitespace around it.
/// Only the first header of a name is looked at. The response names the token again where it came
/// as a sub-protocol, and only there.
pub proof fn lemma_token_of_a_header(
    hs: Seq<FieldView>,
    name: Seq<char>,
    i: int,
    tokens: Seq<Seq<char>>,
    k: int,
)
    requires
        0 <= i < hs.len(),
        text::lowercase(hs[i].name) == text::lowercase(name),
        forall|j: int|
            0 <= j < i ==> text::lowercase((#[trigger] hs[j]).name) != text::lowercase(name),
        tokens.len() > 0,
        forall|j: int| 0 <= j < tokens.len() ==> !(#[trigger] tokens[j]).contains(','),
        hs[i].value == encode_utf8(text::joined_with(tokens, ',')),
        0 <= k <= tokens.len(),
        forall|j: int| 0 <= j < k ==> text::trimmed(#[trigger] tokens[j]).len() == 0,
    ensures
        k < tokens.len() && text::trimmed(tokens[k]).len() > 0 ==> {
            let token = text::trimmed(tokens[k]);
            let protocol = text::lowercase("Sec-WebSocket-Protocol"@);
            &&& text::lowercase(name) == protocol ==> header_source(hs, name) == Some(
                (token, Some(token)),
            )
            &&& text::lowercase(name) != protocol ==> header_source(hs, name) == Some(
                (token, None::<Seq<char>>),
            )
        },
        k == tokens.len() ==> header_source(hs, name) is None,
{
    http_head::lemma_first_named(hs, name, i);
    http_head::lemma_value_text(hs[i], text::joined_with(tokens, ','));
    text::lemma_split_of_joined(tokens, ',');
    lemma_first_token(tokens, 0, k);
}

/// A configured header comes first. Without one, or where it holds nothing, early data is taken
/// from the sub-protocols.
pub proof fn lemma_configured_header_comes_first(hs: Seq<FieldView>, name: Seq<char>)
    ensures
        headers_source(hs, None) == header_source(hs, "Sec-WebSocket-Protocol"@),
        headers_source(hs, Some(Seq::empty())) == header_source(hs, "Sec-WebSocket-Protocol"@),
        name.len() > 0 && header_source(hs, name) is Some ==> headers_source(hs, Some(name))
            == header_source(hs, name),
        name.len() > 0 && header_source(hs, name) is None ==> headers_source(hs, Some(name))
            == header_source(hs, "Sec-WebSocket-Protocol"@),
{
    let usual = "Sec-WebSocket-Protocol"@;
    if text::same_ignoring_case(name, usual) {
        http_head::lemma_first_named(hs, name, 0);
        http_head::lemma_first_named(hs, usual, 0);
        if let Some(i) = http_head::first_named(hs, name, 0) {
            http_head::lemma_first_named(hs, name, i);
            http_head::lemma_first_named(hs, usual, i);
        }
    }
}

/// Early data within the limit arrives as it was sent, from the headers or else from the path; more
/// than the limit is refused, and without a limit there is none.
pub proof fn lemma_early_data_arrives(
    h: HeadView,
    expected: Seq<char>,
    configured_limit: int,
    configured_header: Option<Seq<char>>,
    d: Seq<u8>,
    url: bool,
    pad: bool,
)
    requires
        0 <= configured_limit <= 8192,
    ensures
        ({
            let limit = combined_limit(configured_limit, announced_limit(h.path));
            let r = early_data_of(h, expected, configured_limit, configured_header);
            let form = codec::base64_form(d, url, pad);
            let source = headers_source(h.headers, configured_header);
            &&& limit == 0 ==> r == Ok::<_, WebSocketError>(
                EarlyDataView { payload: Seq::empty(), response_protocol: None },
            )
            &&& limit > 0 && source is Some && (source->0).0 == form ==> {
                &&& d.len() <= limit ==> r == Ok::<_, WebSocketError>(
                    EarlyDataView { payload: d, response_protocol: (source->0).1 },
                )
                &&& d.len() > limit ==> r == Err::<EarlyDataView, _>(
                    WebSocketError::EarlyDataTooLarge,
                )
            }
            &&& limit > 0 && source is None && path_source(h.path, expected) == Some(form) ==> {
                &&& d.len() <= limit ==> r == Ok::<_, WebSocketError>(
                    EarlyDataView { payload: d, response_protocol: None },
                )
                &&& d.len() > limit ==> r == Err::<EarlyDataView, _>(
                    WebSocketError::EarlyDataTooLarge,
                )
            }
            &&& source is None && path_source(h.path, expected) is None ==> r == Ok::<
                _,
                WebSocketError,
            >(EarlyDataView { payload: Seq::empty(), response_protocol: None })
        }),
{
    lemma_early_data_round_trip(d, url, pad);
}

/// Early data in the path is all that stands between the expected path, a slash and the query.
pub proof fn lemma_early_data_in_the_path(
    expected: Seq<char>,
    d: Seq<u8>,
    url: bool,
    pad: bool,
    query: Seq<char>,
)
    requires
        !expected.contains('?'),
        d.len() > 0,
    ensures
        ({
            let path = expected + seq!['/'] + codec::base64_form(d, url, pad);
            &&& path_source(Some(path), expected) == Some(codec::base64_form(d, url, pad))
            &&& path_source(Some(path + seq!['?'] + query), expected) == Some(
                codec::base64_form(d, url, pad),
            )
        }),
        path_source(Some(expected), expected) is None,
        path_source(Some(expected + seq!['?'] + query), expected) is None,
        path_source(None, expected) is None,
{
    let form = codec::base64_form(d, url, pad);
    let path = expected + seq!['/'] + form;
    if form.len() > 0 {
        codec::lemma_form_characters(d, url, pad, 0);
    } else {
        lemma_early_data_round_trip(d, url, pad);
        lemma_early_data_round_trip(Seq::empty(), url, pad);
        assert(codec::base64_form(Seq::empty(), url, false).len() == 0);
        assert(codec::base64_form(Seq::<u8>::empty(), url, pad) =~= form);
    }
    if path.contains('?') {
        let k = choose|k: int| 0 <= k < path.len() && path[k] == '?';
        if k < expected.len() {
            assert(expected.contains(expected[k]));
        } else if k > expected.len() {
            assert(form[k - expected.len() - 1] == '?');
            codec::lemma_form_characters(d, url, pad, k - expected.len() - 1);
        }
    }
    http_head::lemma_path_without_query(path, query);
    http_head::lemma_path_without_query(expected, query);
    lemma_suffix_of_path(path, expected, form);
}

/// A character may stand in a header name exactly when it is visible ASCII and no delimiter.
pub proof fn lemma_header_name_characters(c: char)
    ensures
        is_header_name_char(c) <==> (0x21 <= c as int <= 0x7e && c != '"' && c != '(' && c != ')'
            && c != ',' && c != '/' && c != ':' && c != ';' && c != '<' && c != '=' && c != '>' && c
            != '?' && c != '@' && c != '[' && c as int != 0x5c && c != ']' && c != '{' && c
            != '}'),
        is_header_name(seq![c]) <==> is_header_name_char(c),
{
    assert(seq![c][0] == c);
}

/// A header name is judged character by character.
pub proof fn lemma_header_names(a: Seq<char>, b: Seq<char>)
    ensures
        is_header_name(Seq::empty()),
        is_header_name(a + b) <==> is_header_name(a) && is_header_name(b),
{
    let s = a + b;
    if is_header_name(s) {
        assert forall|k: int| 0 <= k < a.len() implies is_header_name_char(#[trigger] a[k]) by {
            assert(s[k] == a[k]);
        }
        assert forall|k: int| 0 <= k < b.len() implies is_header_name_char(#[trigger] b[k]) by {
            assert(s[a.len() + k] == b[k]);
        }
    }
}

/// The configurations that can be used, and what is said of one with a single fault.
pub proof fn lemma_usable_configurations(c: WebSocketAcceptorConfig)
    ensures
        ({
            let starts = c.path@.len() > 0 && c.path@[0] == '/';
            let plain = !c.path@.contains('?') && !c.path@.contains('#');
            let bounded = c.handshake_timeout_secs >= 1 && c.max_handshake_size >= 256;
            let early = c.max_early_data <= 8192;
            let named = c.early_data_header_name matches Some(name) ==> is_header_name(name@);
            let sized = c.options.valid();
            let e = config_error(c);
            &&& e is None <==> starts && plain && bounded && early && named && sized
            &&& !starts ==> e == Some(WebSocketError::PathStart)
            &&& starts && !plain ==> e == Some(WebSocketError::PathQuery)
            &&& starts && plain && !bounded ==> e == Some(WebSocketError::HandshakeLimits)
            &&& starts && plain && bounded && !early ==> e == Some(WebSocketError::EarlyDataLimit)
            &&& starts && plain && bounded && early && !named ==> e == Some(
                WebSocketError::HeaderName,
            )
            &&& starts && plain && bounded && early && named && !sized ==> e == Some(
                WebSocketError::ResourceLimits,
            )
        }),
{
}

/// Four bytes are read first. A connection that does not start with `GET` and a space is read no
/// further, and any other up to the end of its head.
pub proof fn lemma_first_bytes_are_read(received: Seq<u8>, rest: Seq<u8>, max: int)
    requires
        0 <= max <= usize::MAX,
    ensures
        received.len() < 4 ==> (read_step_of(received, max) matches HeadStep::ReadExact(n)
            && received.len() + n == 4),
        received.len() >= 4 && !(received[0] == 71 && received[1] == 69 && received[2] == 84
            && received[3] == 32) ==> read_step_of(received, max) is Complete,
        ({
            let get = seq![71u8, 69, 84, 32] + rest;
            &&& read_step_of(get, max) is Complete <==> http_head::header_end(get) is Some
            &&& http_head::header_end(get) is None && get.len() >= max ==> read_step_of(
                get,
                max,
            ) is TooLarge
            &&& http_head::header_end(get) is None && get.len() < max ==> (read_step_of(
                get,
                max,
            ) matches HeadStep::Read(n) && 0 < n && get.len() + n <= max)
        }),
{
    let get = seq![71u8, 69, 84, 32] + rest;
    assert(get.subrange(0, 4) =~= seq![0x47u8, 0x45, 0x54, 0x20]);
    http_head::lemma_heads_are_read_to_their_end(get, max);
    if received.len() >= 4 {
        let first = received.subrange(0, 4);
        assert(first[0] == received[0] && first[1] == received[1] && first[2] == received[2]
            && first[3] == received[3]);
    }
}

/// A handshake is accepted exactly when its path is that of the tunnel, with the sub-protocol that
/// is to be named and no other; either answer carries the date.
pub proof fn lemma_handshakes_are_answered(
    reply: HandshakeReply,
    matches_path: bool,
    response_protocol: Option<String>,
    now: int,
)
    requires
        is_reply(reply, matches_path, response_protocol, now),
    ensures
        reply is Accept <==> matches_path,
        reply is NotFound <==> !matches_path,
        reply matches HandshakeReply::Accept { date, protocol } ==> protocol == response_protocol
            && date@ == http_head::http_date_text(now),
        reply matches HandshakeReply::NotFound { date } ==> date@ == http_head::http_date_text(now),
{
}

} // verus!
