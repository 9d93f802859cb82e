//! HTTP/1 request heads: finding their end, reading them, and looking at their headers.

use crate::calendar;
use crate::text::{self, eq_ignore_ascii_case, split, str_eq, trim, utf8_text};
use vstd::prelude::*;
use vstd::slice::*;
use vstd::string::*;
use vstd::utf8::*;

verus! {

/// Most headers that a request may have.
pub const MAX_HEADERS: usize = 64;

/// Most bytes of a request head that are read at once.
pub const READ_SIZE: usize = 1024;

/// One header of a request.
pub struct HeaderField {
    pub name: String,
    pub value: Vec<u8>,
}

/// A complete HTTP/1 request head; `version` is the minor version.
pub struct RequestHead {
    pub method: Option<String>,
    pub path: Option<String>,
    pub version: Option<u8>,
    pub headers: Vec<HeaderField>,
}

/// The mathematical content of a header.
pub struct FieldView {
    pub name: Seq<char>,
    pub value: Seq<u8>,
}

/// The mathematical content of a request head.
pub struct HeadView {
    pub method: Option<Seq<char>>,
    pub path: Option<Seq<char>>,
    pub version: Option<u8>,
    pub headers: Seq<FieldView>,
}

impl View for HeaderField {
    type V = FieldView;

    open spec fn view(&self) -> FieldView {
        FieldView { name: self.name@, value: self.value@ }
    }
}

/// The text of an optional string.
pub open spec fn text_view(s: Option<String>) -> Option<Seq<char>> {
    match s {
        Some(s) => Some(s@),
        None => None,
    }
}

/// The text of an optional string slice.
pub open spec fn str_view(s: Option<&str>) -> Option<Seq<char>> {
    match s {
        Some(s) => Some(s@),
        None => None,
    }
}

/// The contents of a list of headers.
pub open spec fn fields(list: Seq<HeaderField>) -> Seq<FieldView> {
    list.map_values(|h: HeaderField| h@)
}

impl View for RequestHead {
    type V = HeadView;

    open spec fn view(&self) -> HeadView {
        HeadView {
            method: text_view(self.method),
            path: text_view(self.path),
            version: self.version,
            headers: fields(self.headers@),
        }
    }
}

/// What `httparse::Request::parse` reads off the start of `head` with room for `max_headers`
/// headers: a complete request head, or nothing where it is partial or malformed.
pub uninterp spec fn http_request(head: Seq<u8>, max_headers: int) -> Option<HeadView>;

/// `httparse::Request::parse`: method, path, minor version and headers, as a function of the bytes
/// and of the room for headers.
#[verifier::external_body]
fn parse_head(head: &[u8], max_headers: usize) -> (r: Option<RequestHead>)
    ensures
        match r {
            Some(h) => http_request(head@, max_headers as int) == Some(h@),
            None => http_request(head@, max_headers as int) is None,
        },
{
    let mut headers = vec![httparse::EMPTY_HEADER; max_headers];
    let mut parsed = httparse::Request::new(&mut headers);
    let field = |h: &httparse::Header| HeaderField { name: h.name.to_owned(), value: h.value.to_vec() };
    match parsed.parse(head) {
        Ok(httparse::Status::Complete(_)) => Some(RequestHead {
            method: parsed.method.map(str::to_owned),
            path: parsed.path.map(str::to_owned),
            version: parsed.version,
            headers: parsed.headers.iter().map(field).collect(),
        }),
        _ => None,
    }
}

/// Whether a blank line starts at byte `i`.
pub open spec fn is_blank_line(b: Seq<u8>, i: int) -> bool {
    i + 4 <= b.len() && b[i] == 13 && b[i + 1] == 10 && b[i + 2] == 13 && b[i + 3] == 10
}

/// Whether `n` is the first byte behind a request head.
pub open spec fn ends_head(b: Seq<u8>, n: int) -> bool {
    &&& n >= 4
    &&& is_blank_line(b, n - 4)
    &&& forall|i: int| 0 <= i < n - 4 ==> !#[trigger] is_blank_line(b, i)
}

/// The first byte behind a request head, when its end is there.
pub open spec fn header_end(b: Seq<u8>) -> Option<int> {
    if exists|n: int| ends_head(b, n) {
        Some(choose|n: int| ends_head(b, n))
    } else {
        None
    }
}

/// There is only one end of a head.
pub proof fn lemma_header_end(b: Seq<u8>, n: int)
    requires
        ends_head(b, n),
    ensures
        header_end(b) == Some(n),
{
    let m = choose|m: int| ends_head(b, m);
    assert(is_blank_line(b, n - 4));
    assert(is_blank_line(b, m - 4));
}

/// More bytes behind the end of a head do not move it.
pub proof fn lemma_header_end_stays(b: Seq<u8>, rest: Seq<u8>)
    requires
        header_end(b) is Some,
    ensures
        header_end(b + rest) == header_end(b),
{
    let n = choose|n: int| ends_head(b, n);
    let all = b + rest;
    assert(is_blank_line(all, n - 4));
    assert forall|i: int| 0 <= i < n - 4 implies !#[trigger] is_blank_line(all, i) by {
        assert(!is_blank_line(b, i));
    }
    lemma_header_end(all, n);
    lemma_header_end(b, n);
}

/// The first byte behind the request head that `buf` starts with.
pub fn find_header_end(buf: &[u8]) -> (r: Option<usize>)
    ensures
        match r {
            Some(n) => header_end(buf@) == Some(n as int) && 4 <= n <= buf@.len(),
            None => header_end(buf@) is None,
        },
{
    let len: usize = buf.len();
    let mut i: usize = 0;
    while i < len && len - i >= 4
        invariant
            len == buf@.len(),
            i <= len,
            forall|k: int| 0 <= k < i ==> !#[trigger] is_blank_line(buf@, k),
        decreases len - i,
    {
        if buf[i] == 13 && buf[i + 1] == 10 && buf[i + 2] == 13 && buf[i + 3] == 10 {
            proof {
                assert(ends_head(buf@, i + 4));
                lemma_header_end(buf@, i + 4);
            }
            return Some(i + 4);
        }
        i = i + 1;
    }
    assert(forall|n: int| !ends_head(buf@, n)) by {
        assert forall|n: int| !ends_head(buf@, n) by {
            if ends_head(buf@, n) {
                assert(is_blank_line(buf@, n - 4));
            }
        }
    }
    None
}

/// The request head in `request`, as far as its end is there and it is well formed.
pub open spec fn request_head(request: Seq<u8>) -> Option<HeadView> {
    match header_end(request) {
        Some(n) => http_request(request.subrange(0, n), MAX_HEADERS as int),
        None => None,
    }
}

/// Reads the request head in `request`.
pub fn read_head(request: &[u8]) -> (r: Option<RequestHead>)
    ensures
        match r {
            Some(h) => request_head(request@) == Some(h@),
            None => request_head(request@) is None,
        },
{
    match find_header_end(request) {
        Some(n) => parse_head(slice_subrange(request, 0, n), MAX_HEADERS),
        None => None,
    }
}

/// Whether the first four bytes are those of an HTTP method.
pub open spec fn starts_like_http(b: Seq<u8>) -> bool {
    b.len() >= 4 && {
        let m = b.subrange(0, 4);
        ||| m == seq![0x47u8, 0x45, 0x54, 0x20]  // "GET "
        ||| m == seq![0x48u8, 0x45, 0x41, 0x44]  // "HEAD"
        ||| m == seq![0x50u8, 0x4f, 0x53, 0x54]  // "POST"
        ||| m == seq![0x50u8, 0x55, 0x54, 0x20]  // "PUT "
        ||| m == seq![0x44u8, 0x45, 0x4c, 0x45]  // "DELE"
        ||| m == seq![0x4fu8, 0x50, 0x54, 0x49]  // "OPTI"
        ||| m == seq![0x50u8, 0x41, 0x54, 0x43]  // "PATC"
        ||| m == seq![0x54u8, 0x52, 0x41, 0x43]  // "TRAC"
        ||| m == seq![0x43u8, 0x4f, 0x4e, 0x4e]  // "CONN"
    }
}

/// Whether the bytes start like an HTTP/1 request.
pub fn looks_like_http(request: &[u8]) -> (r: bool)
    ensures
        r == starts_like_http(request@),
{
    if request.len() < 4 {
        return false;
    }
    let m = slice_subrange(request, 0, 4);
    starts_with_method(m, 0x47, 0x45, 0x54, 0x20) || starts_with_method(m, 0x48, 0x45, 0x41, 0x44)
        || starts_with_method(m, 0x50, 0x4f, 0x53, 0x54) || starts_with_method(
        m,
        0x50,
        0x55,
        0x54,
        0x20,
    ) || starts_with_method(m, 0x44, 0x45, 0x4c, 0x45) || starts_with_method(
        m,
        0x4f,
        0x50,
        0x54,
        0x49,
    ) || starts_with_method(m, 0x50, 0x41, 0x54, 0x43) || starts_with_method(
        m,
        0x54,
        0x52,
        0x41,
        0x43,
    ) || starts_with_method(m, 0x43, 0x4f, 0x4e, 0x4e)
}

fn starts_with_method(m: &[u8], a: u8, b: u8, c: u8, d: u8) -> (r: bool)
    requires
        m@.len() == 4,
    ensures
        r == (m@ == seq![a, b, c, d]),
{
    let r: bool = m[0] == a && m[1] == b && m[2] == c && m[3] == d;
    if r {
        assert(m@ =~= seq![a, b, c, d]);
    }
    r
}

/// What reading a request head does next.
pub enum HeadStep {
    /// Read exactly this many bytes.
    ReadExact(usize),
    /// Read up to this many bytes.
    Read(usize),
    /// What was read is all there is to it.
    Complete,
    /// The head does not fit the limit.
    TooLarge,
}

/// How many bytes to read next, of a head of `len` bytes that may grow to `max`.
pub open spec fn read_size(len: int, max: int) -> int {
    if max - len < READ_SIZE {
        max - len
    } else {
        READ_SIZE as int
    }
}

/// Reading on up to the end of a head, within `max` bytes.
pub open spec fn step_to_end(head: Seq<u8>, max: int) -> HeadStep {
    if header_end(head) is Some {
        HeadStep::Complete
    } else if head.len() >= max {
        HeadStep::TooLarge
    } else {
        HeadStep::Read(read_size(head.len() as int, max) as usize)
    }
}

/// What to do next about a head that is to be read up to its end, within `max` bytes. A
/// connection that ends before that has its head cut short.
pub fn head_step(head: &[u8], max: usize) -> (r: HeadStep)
    ensures
        r == step_to_end(head@, max as int),
        r matches HeadStep::Read(n) ==> 0 < n <= READ_SIZE && head@.len() + n <= max,
{
    if find_header_end(head).is_some() {
        return HeadStep::Complete;
    }
    if head.len() >= max {
        return HeadStep::TooLarge;
    }
    let room: usize = max - head.len();
    HeadStep::Read(
        if room < READ_SIZE {
            room
        } else {
            READ_SIZE
        },
    )
}

/// Whether header `h` is called `name`.
pub open spec fn is_named(h: FieldView, name: Seq<char>) -> bool {
    text::same_ignoring_case(h.name, name)
}

/// The value of header `h` as text, when it is valid UTF-8.
pub open spec fn value_text(h: FieldView) -> Option<Seq<char>> {
    if valid_utf8(h.value) {
        Some(decode_utf8(h.value))
    } else {
        None
    }
}

/// Whether some header called `name` has a value that is not empty.
pub open spec fn present(hs: Seq<FieldView>, name: Seq<char>) -> bool {
    exists|i: int| 0 <= i < hs.len() && is_named(#[trigger] hs[i], name) && hs[i].value.len() > 0
}

/// Whether the value of `h` is `expected`, up to whitespace around it and to case.
pub open spec fn value_equals(h: FieldView, expected: Seq<char>) -> bool {
    value_text(h) matches Some(v) && text::same_ignoring_case(text::trimmed(v), expected)
}

/// Whether some header called `name` has the value `expected`.
pub open spec fn equals(hs: Seq<FieldView>, name: Seq<char>, expected: Seq<char>) -> bool {
    exists|i: int|
        0 <= i < hs.len() && is_named(#[trigger] hs[i], name) && value_equals(hs[i], expected)
}

/// Whether `expected` is among the comma-separated tokens of `v`.
pub open spec fn lists_token(v: Seq<char>, expected: Seq<char>) -> bool {
    exists|j: int|
        0 <= j < text::segments(v, ',').len() && text::same_ignoring_case(
            text::trimmed(#[trigger] text::segments(v, ',')[j]),
            expected,
        )
}

/// Whether `expected` is among the tokens of `h`.
pub open spec fn value_lists(h: FieldView, expected: Seq<char>) -> bool {
    value_text(h) matches Some(v) && lists_token(v, expected)
}

/// Whether some header called `name` lists the token `expected`.
pub open spec fn has_token(hs: Seq<FieldView>, name: Seq<char>, expected: Seq<char>) -> bool {
    exists|i: int|
        0 <= i < hs.len() && is_named(#[trigger] hs[i], name) && value_lists(hs[i], expected)
}

/// Whether the value of `h` is exactly `expected`, up to whitespace around it.
pub open spec fn value_is(h: FieldView, expected: Seq<char>) -> bool {
    value_text(h) matches Some(v) && text::trimmed(v) == expected
}

/// Whether some header called `name` has exactly the value `expected`.
pub open spec fn equals_exactly(hs: Seq<FieldView>, name: Seq<char>, expected: Seq<char>) -> bool {
    exists|i: int|
        0 <= i < hs.len() && is_named(#[trigger] hs[i], name) && value_is(hs[i], expected)
}

/// Where the first header called `name` is, from position `from` on.
pub open spec fn first_named(hs: Seq<FieldView>, name: Seq<char>, from: int) -> Option<int>
    decreases hs.len() - from,
{
    if from < 0 || from >= hs.len() {
        None
    } else if is_named(hs[from], name) {
        Some(from)
    } else {
        first_named(hs, name, from + 1)
    }
}

/// Whether some header called `name` has a value that is not empty.
pub fn header_present(headers: &Vec<HeaderField>, name: &str) -> (r: bool)
    ensures
        r == present(fields(headers@), name@),
{
    let ghost hs = fields(headers@);
    for i in 0..headers.len()
        invariant
            hs == fields(headers@),
            forall|k: int|
                0 <= k < i ==> !(is_named(#[trigger] hs[k], name@) && hs[k].value.len() > 0),
    {
        assert(hs[i as int] == headers@[i as int]@);
        if eq_ignore_ascii_case(&headers[i].name, name) && headers[i].value.len() > 0 {
            return true;
        }
    }
    false
}

/// Whether some header called `name` has the value `expected`.
pub fn header_equals(headers: &Vec<HeaderField>, name: &str, expected: &str) -> (r: bool)
    ensures
        r == equals(fields(headers@), name@, expected@),
{
    let ghost hs = fields(headers@);
    for i in 0..headers.len()
        invariant
            hs == fields(headers@),
            forall|k: int|
                0 <= k < i ==> !(is_named(#[trigger] hs[k], name@) && value_equals(
                    hs[k],
                    expected@,
                )),
    {
        assert(hs[i as int] == headers@[i as int]@);
        if eq_ignore_ascii_case(&headers[i].name, name) {
            if let Some(value) = utf8_text(headers[i].value.as_slice()) {
                if eq_ignore_ascii_case(trim(value), expected) {
                    return true;
                }
            }
        }
    }
    false
}

/// Whether some header called `name` has exactly the value `expected`.
pub fn header_equals_exactly(headers: &Vec<HeaderField>, name: &str, expected: &str) -> (r: bool)
    ensures
        r == equals_exactly(fields(headers@), name@, expected@),
{
    let ghost hs = fields(headers@);
    for i in 0..headers.len()
        invariant
            hs == fields(headers@),
            forall|k: int|
                0 <= k < i ==> !(is_named(#[trigger] hs[k], name@) && value_is(hs[k], expected@)),
    {
        assert(hs[i as int] == headers@[i as int]@);
        if eq_ignore_ascii_case(&headers[i].name, name) {
            if let Some(value) = utf8_text(headers[i].value.as_slice()) {
                if str_eq(trim(value), expected) {
                    return true;
                }
            }
        }
    }
    false
}

fn token_listed(value: &str, expected: &str) -> (r: bool)
    ensures
        r == lists_token(value@, expected@),
{
    let tokens = split(value, ',');
    let ghost all = text::segments(value@, ',');
    assert(all.len() == tokens@.len());
    for j in 0..tokens.len()
        invariant
            text::views(tokens@) == all,
            all == text::segments(value@, ','),
            all.len() == tokens@.len(),
            forall|k: int|
                0 <= k < j ==> !text::same_ignoring_case(
                    text::trimmed(#[trigger] all[k]),
                    expected@,
                ),
    {
        assert(tokens@[j as int]@ == all[j as int]);
        if eq_ignore_ascii_case(trim(tokens[j]), expected) {
            return true;
        }
    }
    false
}

/// Whether some header called `name` lists the token `expected`.
pub fn header_has_token(headers: &Vec<HeaderField>, name: &str, expected: &str) -> (r: bool)
    ensures
        r == has_token(fields(headers@), name@, expected@),
{
    let ghost hs = fields(headers@);
    for i in 0..headers.len()
        invariant
            hs == fields(headers@),
            forall|k: int|
                0 <= k < i ==> !(is_named(#[trigger] hs[k], name@) && value_lists(
                    hs[k],
                    expected@,
                )),
    {
        assert(hs[i as int] == headers@[i as int]@);
        if eq_ignore_ascii_case(&headers[i].name, name) {
            if let Some(value) = utf8_text(headers[i].value.as_slice()) {
                if token_listed(value, expected) {
                    return true;
                }
            }
        }
    }
    false
}

/// Where the first header called `name` is.
pub fn find_header(headers: &Vec<HeaderField>, name: &str) -> (r: Option<usize>)
    ensures
        match r {
            Some(i) => i < headers@.len() && first_named(fields(headers@), name@, 0) == Some(
                i as int,
            ),
            None => first_named(fields(headers@), name@, 0) is None,
        },
{
    let ghost hs = fields(headers@);
    let mut i: usize = 0;
    while i < headers.len()
        invariant
            hs == fields(headers@),
            i <= headers@.len(),
            first_named(hs, name@, 0) == first_named(hs, name@, i as int),
        decreases headers@.len() - i,
    {
        assert(hs[i as int] == headers@[i as int]@);
        if eq_ignore_ascii_case(&headers[i].name, name) {
            return Some(i);
        }
        i = i + 1;
    }
    None
}

/// The path in front of a query.
pub open spec fn path_without_query(path: Seq<char>) -> Seq<char> {
    match text::cut(path, '?') {
        Some((head, _)) => head,
        None => path,
    }
}

/// The path in front of a query.
pub fn without_query(path: &str) -> (r: &str)
    ensures
        r@ == path_without_query(path@),
{
    match text::split_once(path, '?') {
        Some((head, _)) => head,
        None => path,
    }
}

/// English name of a day of the week, Monday first.
pub open spec fn weekday_name(i: int) -> Seq<char> {
    if i == 0 {
        "Mon"@
    } else if i == 1 {
        "Tue"@
    } else if i == 2 {
        "Wed"@
    } else if i == 3 {
        "Thu"@
    } else if i == 4 {
        "Fri"@
    } else if i == 5 {
        "Sat"@
    } else {
        "Sun"@
    }
}

/// English name of a month.
pub open spec fn month_name(m: int) -> Seq<char> {
    if m == 1 {
        "Jan"@
    } else if m == 2 {
        "Feb"@
    } else if m == 3 {
        "Mar"@
    } else if m == 4 {
        "Apr"@
    } else if m == 5 {
        "May"@
    } else if m == 6 {
        "Jun"@
    } else if m == 7 {
        "Jul"@
    } else if m == 8 {
        "Aug"@
    } else if m == 9 {
        "Sep"@
    } else if m == 10 {
        "Oct"@
    } else if m == 11 {
        "Nov"@
    } else {
        "Dec"@
    }
}

/// `n` as two digits.
pub open spec fn two_digits(n: int) -> Seq<char> {
    seq![text::digit_char(n / 10), text::digit_char(n % 10)]
}

/// The date of a unix time as HTTP writes it: `Fri, 15 May 2015 15:34:21 GMT`.
pub open spec fn http_date_text(unix: int) -> Seq<char> {
    let date = calendar::date_of(unix / 86400);
    let t = unix % 86400;
    weekday_name((unix / 86400 + 3) % 7) + ", "@ + two_digits(date.2) + " "@ + month_name(date.1)
        + " "@ + two_digits(date.0 / 100) + two_digits(date.0 % 100) + " "@ + two_digits(t / 3600)
        + ":"@ + two_digits(t % 3600 / 60) + ":"@ + two_digits(t % 60) + " GMT"@
}

/// The first second that has no HTTP date: the start of the year 10000.
pub const HTTP_DATE_END: u64 = 253_402_300_800;

/// `httpdate::fmt_http_date`: the date of a unix time as HTTP writes it. It panics from the year
/// 10000 on.
#[verifier::external_body]
pub(crate) fn http_date(unix: u64) -> (r: String)
    requires
        unix < HTTP_DATE_END,
    ensures
        r@ == http_date_text(unix as int),
{
    httpdate::fmt_http_date(std::time::UNIX_EPOCH + std::time::Duration::from_secs(unix))
}

/// A request head ends behind its first blank line, and nowhere else; without a blank line it has
/// no end.
pub proof fn lemma_head_ends_at_first_blank_line(b: Seq<u8>, n: int)
    ensures
        header_end(b) == Some(n) <==> (4 <= n <= b.len() && b.subrange(n - 4, n) == seq![
            13u8,
            10u8,
            13u8,
            10u8,
        ] && forall|i: int|
            4 <= i < n ==> #[trigger] b.subrange(i - 4, i) != seq![13u8, 10u8, 13u8, 10u8]),
        header_end(b) is None <==> forall|i: int|
            4 <= i <= b.len() ==> #[trigger] b.subrange(i - 4, i) != seq![13u8, 10u8, 13u8, 10u8],
{
    let blank = seq![13u8, 10u8, 13u8, 10u8];
    assert forall|i: int| 4 <= i <= b.len() implies (#[trigger] b.subrange(i - 4, i) == blank)
        == is_blank_line(b, i - 4) by {
        let s = b.subrange(i - 4, i);
        if s == blank {
            assert(s[0] == 13 && s[1] == 10 && s[2] == 13 && s[3] == 10);
        }
        if is_blank_line(b, i - 4) {
            assert(s =~= blank);
        }
    }
    let first = 4 <= n <= b.len() && b.subrange(n - 4, n) == blank && forall|i: int|
        4 <= i < n ==> #[trigger] b.subrange(i - 4, i) != blank;
    if first {
        assert forall|i: int| 0 <= i < n - 4 implies !#[trigger] is_blank_line(b, i) by {
            assert(b.subrange(i + 4 - 4, i + 4) != blank);
        }
        assert(is_blank_line(b, n - 4));
        assert(ends_head(b, n));
        lemma_header_end(b, n);
    }
    if header_end(b) is Some {
        let m = header_end(b)->0;
        assert(ends_head(b, m));
        assert(is_blank_line(b, m - 4));
        assert(b.subrange(m - 4, m) == blank);
        assert forall|i: int| 4 <= i < m implies #[trigger] b.subrange(i - 4, i) != blank by {
            assert(!is_blank_line(b, i - 4));
        }
    } else {
        assert forall|i: int| 4 <= i <= b.len() implies #[trigger] b.subrange(i - 4, i)
            != blank by {
            if b.subrange(i - 4, i) == blank {
                lemma_some_end(b, i - 4);
            }
        }
    }
}

proof fn lemma_some_end(b: Seq<u8>, i: int)
    requires
        0 <= i,
        is_blank_line(b, i),
    ensures
        header_end(b) is Some,
    decreases i,
{
    if forall|k: int| 0 <= k < i ==> !#[trigger] is_blank_line(b, k) {
        assert(ends_head(b, i + 4));
    } else {
        let k = choose|k: int| 0 <= k < i && #[trigger] is_blank_line(b, k);
        lemma_some_end(b, k);
    }
}

/// Requests of every method start like HTTP, whatever follows the method: GET, HEAD, POST, PUT,
/// DELETE, OPTIONS, PATCH, TRACE and CONNECT.
pub proof fn lemma_every_method_starts_like_http(rest: Seq<u8>)
    ensures
        starts_like_http(seq![0x47u8, 0x45, 0x54, 0x20] + rest),
        starts_like_http(seq![0x48u8, 0x45, 0x41, 0x44, 0x20] + rest),
        starts_like_http(seq![0x50u8, 0x4f, 0x53, 0x54, 0x20] + rest),
        starts_like_http(seq![0x50u8, 0x55, 0x54, 0x20] + rest),
        starts_like_http(seq![0x44u8, 0x45, 0x4c, 0x45, 0x54, 0x45, 0x20] + rest),
        starts_like_http(seq![0x4fu8, 0x50, 0x54, 0x49, 0x4f, 0x4e, 0x53, 0x20] + rest),
        starts_like_http(seq![0x50u8, 0x41, 0x54, 0x43, 0x48, 0x20] + rest),
        starts_like_http(seq![0x54u8, 0x52, 0x41, 0x43, 0x45, 0x20] + rest),
        starts_like_http(seq![0x43u8, 0x4f, 0x4e, 0x4e, 0x45, 0x43, 0x54, 0x20] + rest),
{
    let a = seq![0x47u8, 0x45, 0x54, 0x20] + rest;
    assert(a.subrange(0, 4) =~= seq![0x47u8, 0x45, 0x54, 0x20]);
    let a = seq![0x48u8, 0x45, 0x41, 0x44, 0x20] + rest;
    assert(a.subrange(0, 4) =~= seq![0x48u8, 0x45, 0x41, 0x44]);
    let a = seq![0x50u8, 0x4f, 0x53, 0x54, 0x20] + rest;
    assert(a.subrange(0, 4) =~= seq![0x50u8, 0x4f, 0x53, 0x54]);
    let a = seq![0x50u8, 0x55, 0x54, 0x20] + rest;
    assert(a.subrange(0, 4) =~= seq![0x50u8, 0x55, 0x54, 0x20]);
    let a = seq![0x44u8, 0x45, 0x4c, 0x45, 0x54, 0x45, 0x20] + rest;
    assert(a.subrange(0, 4) =~= seq![0x44u8, 0x45, 0x4c, 0x45]);
    let a = seq![0x4fu8, 0x50, 0x54, 0x49, 0x4f, 0x4e, 0x53, 0x20] + rest;
    assert(a.subrange(0, 4) =~= seq![0x4fu8, 0x50, 0x54, 0x49]);
    let a = seq![0x50u8, 0x41, 0x54, 0x43, 0x48, 0x20] + rest;
    assert(a.subrange(0, 4) =~= seq![0x50u8, 0x41, 0x54, 0x43]);
    let a = seq![0x54u8, 0x52, 0x41, 0x43, 0x45, 0x20] + rest;
    assert(a.subrange(0, 4) =~= seq![0x54u8, 0x52, 0x41, 0x43]);
    let a = seq![0x43u8, 0x4f, 0x4e, 0x4e, 0x45, 0x43, 0x54, 0x20] + rest;
    assert(a.subrange(0, 4) =~= seq![0x43u8, 0x4f, 0x4e, 0x4e]);
}

/// Only the first four bytes count, and they are capital letters but for a space that may end them:
/// nothing that is shorter or starts otherwise is taken for HTTP.
pub proof fn lemma_only_methods_start_like_http(b: Seq<u8>, c: Seq<u8>)
    ensures
        b.len() < 4 ==> !starts_like_http(b),
        b.len() >= 4 && c.len() >= 4 && b.subrange(0, 4) == c.subrange(0, 4) ==> starts_like_http(b)
            == starts_like_http(c),
        starts_like_http(b) ==> {
            &&& 0x41 <= b[0] <= 0x5a && 0x41 <= b[1] <= 0x5a && 0x41 <= b[2] <= 0x5a
            &&& 0x41 <= b[3] <= 0x5a || b[3] == 0x20
            &&& b[0] == 0x43 || b[0] == 0x44 || b[0] == 0x47 || b[0] == 0x48 || b[0] == 0x4f || b[0]
                == 0x50 || b[0] == 0x54
            &&& b[3] == 0x20 ==> b[2] == 0x54
        },
{
    if starts_like_http(b) {
        let m = b.subrange(0, 4);
        assert(m[0] == b[0] && m[1] == b[1] && m[2] == b[2] && m[3] == b[3]);
    }
}

/// A head is read until it is complete or over the limit, and never a byte beyond the limit: each
/// read takes 1024 bytes, or what the limit leaves.
pub proof fn lemma_heads_are_read_to_their_end(head: Seq<u8>, max: int)
    requires
        0 <= max <= usize::MAX,
    ensures
        header_end(head) is Some <==> step_to_end(head, max) is Complete,
        header_end(head) is None && head.len() >= max <==> step_to_end(head, max) is TooLarge,
        header_end(head) is None && head.len() < max ==> (step_to_end(head, max) matches HeadStep::Read(
            n,
        ) && 0 < n <= 1024 && (n == 1024 || head.len() + n == max) && head.len() + n <= max),
{
}

/// What a list of headers says is what its headers say one by one: each further header adds only
/// what it says itself, and names are compared without regard to case.
pub proof fn lemma_header_by_header(
    hs: Seq<FieldView>,
    h: FieldView,
    name: Seq<char>,
    expected: Seq<char>,
)
    ensures
        !present(Seq::empty(), name),
        !equals(Seq::empty(), name, expected),
        !equals_exactly(Seq::empty(), name, expected),
        !has_token(Seq::empty(), name, expected),
        present(hs.push(h), name) <==> present(hs, name) || (text::lowercase(h.name)
            == text::lowercase(name) && h.value.len() > 0),
        equals(hs.push(h), name, expected) <==> equals(hs, name, expected) || (text::lowercase(
            h.name,
        ) == text::lowercase(name) && valid_utf8(h.value) && text::lowercase(
            text::trimmed(decode_utf8(h.value)),
        ) == text::lowercase(expected)),
        equals_exactly(hs.push(h), name, expected) <==> equals_exactly(hs, name, expected) || (
        text::lowercase(h.name) == text::lowercase(name) && valid_utf8(h.value) && text::trimmed(
            decode_utf8(h.value),
        ) == expected),
        has_token(hs.push(h), name, expected) <==> has_token(hs, name, expected) || (
        text::lowercase(h.name) == text::lowercase(name) && valid_utf8(h.value) && lists_token(
            decode_utf8(h.value),
            expected,
        )),
{
    let all = hs.push(h);
    let n = hs.len() as int;
    assert(all[n] == h);
    assert forall|i: int| 0 <= i < n implies all[i] == hs[i] by {}
    if present(hs, name) {
        let i = choose|i: int|
            0 <= i < hs.len() && is_named(#[trigger] hs[i], name) && hs[i].value.len() > 0;
        assert(is_named(all[i], name));
    }
    if present(all, name) {
        let i = choose|i: int|
            0 <= i < all.len() && is_named(#[trigger] all[i], name) && all[i].value.len() > 0;
        if i < n {
            assert(is_named(hs[i], name));
        }
    }
    if equals(hs, name, expected) {
        let i = choose|i: int|
            0 <= i < hs.len() && is_named(#[trigger] hs[i], name) && value_equals(hs[i], expected);
        assert(is_named(all[i], name));
    }
    if equals(all, name, expected) {
        let i = choose|i: int|
            0 <= i < all.len() && is_named(#[trigger] all[i], name) && value_equals(
                all[i],
                expected,
            );
        if i < n {
            assert(is_named(hs[i], name));
        }
    }
    if equals_exactly(hs, name, expected) {
        let i = choose|i: int|
            0 <= i < hs.len() && is_named(#[trigger] hs[i], name) && value_is(hs[i], expected);
        assert(is_named(all[i], name));
    }
    if equals_exactly(all, name, expected) {
        let i = choose|i: int|
            0 <= i < all.len() && is_named(#[trigger] all[i], name) && value_is(all[i], expected);
        if i < n {
            assert(is_named(hs[i], name));
        }
    }
    if has_token(hs, name, expected) {
        let i = choose|i: int|
            0 <= i < hs.len() && is_named(#[trigger] hs[i], name) && value_lists(hs[i], expected);
        assert(is_named(all[i], name));
    }
    if has_token(all, name, expected) {
        let i = choose|i: int|
            0 <= i < all.len() && is_named(#[trigger] all[i], name) && value_lists(
                all[i],
                expected,
            );
        if i < n {
            assert(is_named(hs[i], name));
        }
    }
}

/// A value lists the tokens between its commas, each without the whitespace around it and without
/// regard to case.
pub proof fn lemma_tokens_are_listed(parts: Seq<Seq<char>>, expected: Seq<char>)
    requires
        parts.len() > 0,
        forall|i: int| 0 <= i < parts.len() ==> !(#[trigger] parts[i]).contains(','),
    ensures
        lists_token(text::joined_with(parts, ','), expected) <==> exists|i: int|
            0 <= i < parts.len() && text::lowercase(text::trimmed(#[trigger] parts[i]))
                == text::lowercase(expected),
{
    text::lemma_split_of_joined(parts, ',');
    let v = text::joined_with(parts, ',');
    assert(text::segments(v, ',') == parts);
    if exists|i: int|
        0 <= i < parts.len() && text::lowercase(text::trimmed(#[trigger] parts[i]))
            == text::lowercase(expected) {
        let i = choose|i: int|
            0 <= i < parts.len() && text::lowercase(text::trimmed(#[trigger] parts[i]))
                == text::lowercase(expected);
        assert(text::same_ignoring_case(text::trimmed(text::segments(v, ',')[i]), expected));
    }
}

/// The header that is looked at first is the first of its name.
pub proof fn lemma_first_named(hs: Seq<FieldView>, name: Seq<char>, i: int)
    ensures
        first_named(hs, name, 0) == Some(i) <==> (0 <= i < hs.len() && text::lowercase(hs[i].name)
            == text::lowercase(name) && forall|j: int|
            0 <= j < i ==> text::lowercase((#[trigger] hs[j]).name) != text::lowercase(name)),
        first_named(hs, name, 0) is None <==> forall|j: int|
            0 <= j < hs.len() ==> text::lowercase((#[trigger] hs[j]).name) != text::lowercase(name),
{
    lemma_first_named_from(hs, name, 0);
}

proof fn lemma_first_named_from(hs: Seq<FieldView>, name: Seq<char>, from: int)
    requires
        0 <= from,
    ensures
        match first_named(hs, name, from) {
            Some(i) => from <= i < hs.len() && is_named(hs[i], name) && forall|j: int|
                from <= j < i ==> !is_named(#[trigger] hs[j], name),
            None => forall|j: int| from <= j < hs.len() ==> !is_named(#[trigger] hs[j], name),
        },
    decreases hs.len() - from,
{
    if from < hs.len() && !is_named(hs[from], name) {
        lemma_first_named_from(hs, name, from + 1);
    }
}

/// The text of a value is what its bytes encode.
pub proof fn lemma_value_text(h: FieldView, s: Seq<char>)
    requires
        h.value == encode_utf8(s),
    ensures
        value_text(h) == Some(s),
{
    encode_utf8_valid_utf8(s);
    encode_utf8_decode_utf8(s);
}

/// The query of a path starts behind its first question mark and is no part of the path.
pub proof fn lemma_path_without_query(path: Seq<char>, query: Seq<char>)
    requires
        !path.contains('?'),
    ensures
        path_without_query(path + seq!['?'] + query) == path,
        path_without_query(path) == path,
{
    text::lemma_cut_of_joined(path, '?', query);
}

/// A request is read up to the end of its head, with at most 64 headers; what follows the head makes
/// no difference, and without an end there is no request.
pub proof fn lemma_requests_are_read_to_their_end(head: Seq<u8>, rest: Seq<u8>)
    requires
        head.len() >= 4,
        head.subrange(head.len() - 4, head.len() as int) == seq![13u8, 10, 13, 10],
        forall|i: int|
            0 <= i < head.len() - 4 ==> (#[trigger] head[i]) != 13 || head[i + 1] != 10 || head[i + 2]
                != 13 || head[i + 3] != 10,
    ensures
        request_head(head + rest) == http_request(head, 64),
        forall|b: Seq<u8>| header_end(b) is None ==> (#[trigger] request_head(b)) is None,
{
    let all = head + rest;
    let n = head.len() as int;
    let end = head.subrange(n - 4, n);
    assert(end[0] == head[n - 4] && end[1] == head[n - 3] && end[2] == head[n - 2] && end[3]
        == head[n - 1]);
    assert(is_blank_line(all, n - 4));
    assert forall|i: int| 0 <= i < n - 4 implies !#[trigger] is_blank_line(all, i) by {
        assert(all[i] == head[i] && all[i + 1] == head[i + 1] && all[i + 2] == head[i + 2] && all[i
            + 3] == head[i + 3]);
    }
    assert(ends_head(all, n));
    lemma_header_end(all, n);
    assert(all.subrange(0, n) =~= head);
}

} // verus!
