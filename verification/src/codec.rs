//! Base64 in its standard and URL-safe forms.

use crate::text::{self, chars_of};
use base64::{engine::general_purpose, Engine as _};
use vstd::prelude::*;
use vstd::string::*;

verus! {

/// Byte `i` of `d`; zero behind its end.
pub open spec fn byte_or_zero(d: Seq<u8>, i: int) -> int {
    if i < d.len() {
        d[i] as int
    } else {
        0
    }
}

/// The `j`-th group of six bits of `d`, filled up with zero bits.
pub open spec fn sextet(d: Seq<u8>, j: int) -> int {
    let q = 3 * (j / 4);
    if j % 4 == 0 {
        byte_or_zero(d, q) / 4
    } else if j % 4 == 1 {
        byte_or_zero(d, q) % 4 * 16 + byte_or_zero(d, q + 1) / 16
    } else if j % 4 == 2 {
        byte_or_zero(d, q + 1) % 16 * 4 + byte_or_zero(d, q + 2) / 64
    } else {
        byte_or_zero(d, q + 2) % 64
    }
}

/// The character of a group of six bits.
pub open spec fn sextet_char(v: int, url: bool) -> char {
    if v < 26 {
        ('A' as u32 + v) as char
    } else if v < 52 {
        ('a' as u32 + v - 26) as char
    } else if v < 62 {
        ('0' as u32 + v - 52) as char
    } else if v == 62 {
        if url {
            '-'
        } else {
            '+'
        }
    } else {
        if url {
            '_'
        } else {
            '/'
        }
    }
}

/// `d` in base64 without padding.
pub open spec fn unpadded(d: Seq<u8>, url: bool) -> Seq<char> {
    Seq::new((4 * d.len() + 2) / 3, |j: int| sextet_char(sextet(d, j), url))
}

/// As many `=` as bring `n` characters to a multiple of four.
pub open spec fn padding(n: int) -> Seq<char> {
    Seq::new(((4 - n % 4) % 4) as nat, |j: int| '=')
}

/// `d` in base64: URL-safe or standard, padded or not.
pub open spec fn base64_form(d: Seq<u8>, url: bool, pad: bool) -> Seq<char> {
    if pad {
        unpadded(d, url) + padding(unpadded(d, url).len() as int)
    } else {
        unpadded(d, url)
    }
}

/// The six bits that a character of either alphabet stands for.
pub open spec fn char_sextet(c: char) -> Option<int> {
    if 'A' <= c <= 'Z' {
        Some(c as u32 - 'A' as u32)
    } else if 'a' <= c <= 'z' {
        Some(c as u32 - 'a' as u32 + 26)
    } else if '0' <= c <= '9' {
        Some(c as u32 - '0' as u32 + 52)
    } else if c == '+' || c == '-' {
        Some(62)
    } else if c == '/' || c == '_' {
        Some(63)
    } else {
        None
    }
}

/// Byte `i` of a text of base64 characters.
pub open spec fn text_byte(s: Seq<char>, i: int) -> int {
    let q = 4 * (i / 3);
    let v = |j: int| char_sextet(s[j])->0;
    if i % 3 == 0 {
        v(q) * 4 + v(q + 1) / 16
    } else if i % 3 == 1 {
        v(q + 1) % 16 * 16 + v(q + 2) / 4
    } else {
        v(q + 2) % 4 * 64 + v(q + 3)
    }
}

/// The whole bytes in a text of base64 characters; bits left over are dropped.
pub open spec fn text_bytes(s: Seq<char>) -> Seq<u8> {
    Seq::new(s.len() * 6 / 8, |i: int| text_byte(s, i) as u8)
}

/// The part of `s` in front of the first `=`.
pub open spec fn before_padding(s: Seq<char>) -> Seq<char> {
    match text::cut(s, '=') {
        Some((head, _)) => head,
        None => s,
    }
}

/// What a tolerant reader makes of `s`: either alphabet, padding or none, nothing else.
pub open spec fn loose_decode(s: Seq<char>) -> Option<Seq<u8>> {
    let head = before_padding(s);
    if forall|k: int| 0 <= k < head.len() ==> (#[trigger] char_sextet(head[k])) is Some {
        Some(text_bytes(head))
    } else {
        None
    }
}

proof fn lemma_sextet_range(d: Seq<u8>, j: int)
    requires
        0 <= j,
    ensures
        0 <= sextet(d, j) < 64,
{
}

proof fn lemma_sextet_char(v: int, url: bool)
    requires
        0 <= v < 64,
    ensures
        char_sextet(sextet_char(v, url)) == Some(v),
        sextet_char(v, url) != '=',
{
}

proof fn lemma_text_byte_of_sextets(d: Seq<u8>, url: bool, i: int)
    requires
        0 <= i < d.len(),
    ensures
        text_byte(unpadded(d, url), i) == d[i],
{
    let s = unpadded(d, url);
    let q = 4 * (i / 3);
    let p = 3 * (i / 3);
    assert(q / 4 == i / 3 && q % 4 == 0);
    assert((q + 1) / 4 == i / 3 && (q + 1) % 4 == 1);
    assert((q + 2) / 4 == i / 3 && (q + 2) % 4 == 2);
    assert((q + 3) / 4 == i / 3 && (q + 3) % 4 == 3);
    lemma_sextet_range(d, q);
    lemma_sextet_range(d, q + 1);
    lemma_sextet_range(d, q + 2);
    lemma_sextet_range(d, q + 3);
    lemma_sextet_char(sextet(d, q), url);
    lemma_sextet_char(sextet(d, q + 1), url);
    lemma_sextet_char(sextet(d, q + 2), url);
    lemma_sextet_char(sextet(d, q + 3), url);
    if i % 3 == 0 {
        assert(i == p);
        assert(q + 1 < s.len());
        assert(char_sextet(s[q]) == Some(d[i] as int / 4));
    } else if i % 3 == 1 {
        assert(i == p + 1);
        assert(q + 2 < s.len());
    } else {
        assert(i == p + 2);
        assert(q + 3 < s.len());
    }
}

proof fn lemma_bytes_of_unpadded(d: Seq<u8>, url: bool)
    ensures
        text_bytes(unpadded(d, url)) == d,
{
    let s = unpadded(d, url);
    assert(s.len() * 6 / 8 == d.len());
    assert forall|i: int| 0 <= i < d.len() implies #[trigger] text_bytes(s)[i] == d[i] by {
        lemma_text_byte_of_sextets(d, url, i);
    }
    assert(text_bytes(s) =~= d);
}

/// Every base64 form of some bytes is read back as these bytes by the tolerant reader.
pub proof fn lemma_loose_round_trip(d: Seq<u8>, url: bool, pad: bool)
    ensures
        loose_decode(base64_form(d, url, pad)) == Some(d),
{
    let body = unpadded(d, url);
    let s = base64_form(d, url, pad);
    assert forall|k: int| 0 <= k < body.len() implies body[k] != '=' && (#[trigger] char_sextet(
        body[k],
    )) is Some by {
        lemma_sextet_range(d, k);
        lemma_sextet_char(sextet(d, k), url);
    }
    if pad && padding(body.len() as int).len() > 0 {
        let n = body.len() as int;
        assert(s[n] == padding(n)[0]);
        assert forall|k: int| 0 <= k < n implies s[k] != '=' by {
            assert(char_sextet(body[k]) is Some);
        }
        text::lemma_cut_at(s, '=', n);
        assert(s.subrange(0, n) =~= body);
    } else {
        assert(s =~= body);
        assert forall|k: int| 0 <= k < s.len() implies s[k] != '=' by {
            assert(char_sextet(body[k]) is Some);
        }
        text::lemma_cut_none(s, '=');
    }
    lemma_bytes_of_unpadded(d, url);
}

/// Different bytes have different base64 forms.
pub proof fn lemma_form_is_injective(d: Seq<u8>, e: Seq<u8>, url: bool, pad: bool)
    requires
        base64_form(d, url, pad) == base64_form(e, url, pad),
    ensures
        d == e,
{
    lemma_loose_round_trip(d, url, pad);
    lemma_loose_round_trip(e, url, pad);
}

/// The bytes whose base64 form is `s`, when there are any.
pub open spec fn strict_decode(s: Seq<char>, url: bool, pad: bool) -> Option<Seq<u8>> {
    if exists|d: Seq<u8>| #[trigger] base64_form(d, url, pad) == s {
        Some(choose|d: Seq<u8>| #[trigger] base64_form(d, url, pad) == s)
    } else {
        None
    }
}

/// A form is decoded to the bytes that it was made of.
pub proof fn lemma_strict_round_trip(d: Seq<u8>, url: bool, pad: bool)
    ensures
        strict_decode(base64_form(d, url, pad), url, pad) == Some(d),
{
    let s = base64_form(d, url, pad);
    let e = choose|e: Seq<u8>| #[trigger] base64_form(e, url, pad) == s;
    lemma_form_is_injective(d, e, url, pad);
}

/// `general_purpose::URL_SAFE_NO_PAD.decode`: the bytes whose URL-safe form without padding is
/// `text`, and an error for every other text.
#[verifier::external_body]
pub(crate) fn decode_url_safe_no_pad(text: &str) -> (r: Option<Vec<u8>>)
    ensures
        match r {
            Some(d) => base64_form(d@, true, false) == text@,
            None => forall|d: Seq<u8>| base64_form(d, true, false) != text@,
        },
{
    general_purpose::URL_SAFE_NO_PAD.decode(text).ok()
}

/// `general_purpose::URL_SAFE.decode`: the bytes whose URL-safe form with padding is `text`, and
/// an error for every other text.
#[verifier::external_body]
pub(crate) fn decode_url_safe(text: &str) -> (r: Option<Vec<u8>>)
    ensures
        match r {
            Some(d) => base64_form(d@, true, true) == text@,
            None => forall|d: Seq<u8>| base64_form(d, true, true) != text@,
        },
{
    general_purpose::URL_SAFE.decode(text).ok()
}

/// `general_purpose::STANDARD_NO_PAD.decode`: the bytes whose standard form without padding is
/// `text`, and an error for every other text.
#[verifier::external_body]
pub(crate) fn decode_standard_no_pad(text: &str) -> (r: Option<Vec<u8>>)
    ensures
        match r {
            Some(d) => base64_form(d@, false, false) == text@,
            None => forall|d: Seq<u8>| base64_form(d, false, false) != text@,
        },
{
    general_purpose::STANDARD_NO_PAD.decode(text).ok()
}

/// `general_purpose::STANDARD.decode`: the bytes whose standard form with padding is `text`, and
/// an error for every other text.
#[verifier::external_body]
pub(crate) fn decode_standard(text: &str) -> (r: Option<Vec<u8>>)
    ensures
        match r {
            Some(d) => base64_form(d@, false, true) == text@,
            None => forall|d: Seq<u8>| base64_form(d, false, true) != text@,
        },
{
    general_purpose::STANDARD.decode(text).ok()
}

/// `general_purpose::STANDARD.encode`: the standard form of `data` with padding.
#[verifier::external_body]
pub(crate) fn encode_standard(data: &[u8]) -> (r: String)
    ensures
        r@ == base64_form(data@, false, true),
{
    general_purpose::STANDARD.encode(data)
}

/// The six bits that a character stands for.
fn sextet_of(c: char) -> (r: Option<u8>)
    ensures
        match r {
            Some(v) => v < 64 && char_sextet(c) == Some(v as int),
            None => char_sextet(c) is None,
        },
{
    if 'A' <= c && c <= 'Z' {
        Some(c as u8 - 'A' as u8)
    } else if 'a' <= c && c <= 'z' {
        Some(c as u8 - 'a' as u8 + 26)
    } else if '0' <= c && c <= '9' {
        Some(c as u8 - '0' as u8 + 52)
    } else if c == '+' || c == '-' {
        Some(62)
    } else if c == '/' || c == '_' {
        Some(63)
    } else {
        None
    }
}

/// The bits of the last character of `s` that belong to a byte that is not complete.
spec fn leftover(s: Seq<char>) -> int {
    if s.len() % 4 == 1 {
        char_sextet(s.last())->0
    } else if s.len() % 4 == 2 {
        char_sextet(s.last())->0 % 16
    } else if s.len() % 4 == 3 {
        char_sextet(s.last())->0 % 4
    } else {
        0
    }
}

proof fn lemma_next_char(s: Seq<char>, c: char, v: int)
    requires
        char_sextet(c) == Some(v),
        0 <= v < 64,
    ensures
        s.len() % 4 == 0 ==> text_bytes(s.push(c)) == text_bytes(s),
        s.len() % 4 == 1 ==> text_bytes(s.push(c)) == text_bytes(s).push(
            (leftover(s) * 4 + v / 16) as u8,
        ),
        s.len() % 4 == 2 ==> text_bytes(s.push(c)) == text_bytes(s).push(
            (leftover(s) * 16 + v / 4) as u8,
        ),
        s.len() % 4 == 3 ==> text_bytes(s.push(c)) == text_bytes(s).push(
            (leftover(s) * 64 + v) as u8,
        ),
{
    let t = s.push(c);
    let n = s.len() as int;
    let k = text_bytes(s).len() as int;
    assert(k == n * 6 / 8);
    assert forall|i: int| 0 <= i < k implies #[trigger] text_bytes(t)[i] == text_bytes(s)[i] by {
        let q = 4 * (i / 3);
        assert(q + 1 < n && (i % 3 >= 1 ==> q + 2 < n) && (i % 3 == 2 ==> q + 3 < n));
    }
    if n % 4 == 0 {
        assert(text_bytes(t) =~= text_bytes(s));
    } else {
        assert(text_bytes(t).len() == k + 1);
        let q = 4 * (k / 3);
        if n % 4 == 1 {
            assert(k % 3 == 0 && q + 1 == n);
        } else if n % 4 == 2 {
            assert(k % 3 == 1 && q + 2 == n);
        } else {
            assert(k % 3 == 2 && q + 3 == n);
        }
        assert(text_bytes(t)[k] == text_byte(t, k) as u8);
        assert(text_bytes(t) =~= text_bytes(s).push(text_byte(t, k) as u8));
    }
}

proof fn lemma_before_padding_stops(s: Seq<char>, n: int)
    requires
        0 <= n <= s.len(),
        forall|k: int| 0 <= k < n ==> s[k] != '=',
        n < s.len() ==> s[n] == '=',
    ensures
        before_padding(s) == s.subrange(0, n),
{
    if n < s.len() {
        text::lemma_cut_at(s, '=', n);
    } else {
        text::lemma_cut_none(s, '=');
        assert(s.subrange(0, n) =~= s);
    }
}

proof fn lemma_prefix_of_head(s: Seq<char>, n: int)
    requires
        0 <= n < s.len(),
        forall|k: int| 0 <= k <= n ==> s[k] != '=',
    ensures
        n < before_padding(s).len(),
        before_padding(s)[n] == s[n],
    decreases s.len(),
{
    if exists|m: int| 0 <= m < s.len() && s[m] == '=' {
        lemma_first_padding(s, 0);
    } else {
        text::lemma_cut_none(s, '=');
    }
}

proof fn lemma_first_padding(s: Seq<char>, from: int)
    requires
        0 <= from <= s.len(),
        forall|k: int| 0 <= k < from ==> s[k] != '=',
    ensures
        exists|n: int|
            from <= n <= s.len() && before_padding(s) == #[trigger] s.subrange(0, n) && (forall|k: int|
                0 <= k < n ==> s[k] != '=') && (n < s.len() ==> s[n] == '='),
    decreases s.len() - from,
{
    if from == s.len() || s[from] == '=' {
        lemma_before_padding_stops(s, from);
        assert(before_padding(s) == s.subrange(0, from));
    } else {
        lemma_first_padding(s, from + 1);
    }
}

/// Decodes base64 of either alphabet, with padding or without.
pub fn decode_loose(input: &str) -> (r: Option<Vec<u8>>)
    ensures
        match r {
            Some(out) => loose_decode(input@) == Some(out@),
            None => loose_decode(input@) is None,
        },
{
    let chars = chars_of(input);
    let ghost s = input@;
    let mut out: Vec<u8> = Vec::new();
    let mut pending: u8 = 0;
    let mut i: usize = 0;
    assert(text_bytes(s.subrange(0, 0)) =~= Seq::empty());
    while i < chars.len() && chars[i] != '='
        invariant
            chars@ == s,
            s == input@,
            i <= s.len(),
            forall|k: int| 0 <= k < i ==> s[k] != '=',
            forall|k: int| 0 <= k < i ==> (#[trigger] char_sextet(s[k])) is Some,
            out@ == text_bytes(s.subrange(0, i as int)),
            pending == leftover(s.subrange(0, i as int)),
            i % 4 == 1 ==> pending < 64,
            i % 4 == 2 ==> pending < 16,
            i % 4 == 3 ==> pending < 4,
        decreases s.len() - i,
    {
        let c: char = chars[i];
        let v: u8 = match sextet_of(c) {
            Some(v) => v,
            None => {
                proof {
                    lemma_prefix_of_head(s, i as int);
                    assert(char_sextet(before_padding(s)[i as int]) is None);
                }
                return None;
            },
        };
        let ghost before = s.subrange(0, i as int);
        proof {
            lemma_next_char(before, c, v as int);
            assert(s.subrange(0, i + 1) =~= before.push(c));
        }
        if i % 4 == 0 {
            pending = v;
        } else if i % 4 == 1 {
            out.push(pending * 4 + v / 16);
            pending = v % 16;
        } else if i % 4 == 2 {
            out.push(pending * 16 + v / 4);
            pending = v % 4;
        } else {
            out.push(pending * 64 + v);
            pending = 0;
        }
        i = i + 1;
    }
    proof {
        lemma_before_padding_stops(s, i as int);
        assert forall|k: int| 0 <= k < i implies (#[trigger] char_sextet(
            before_padding(s)[k],
        )) is Some by {
            assert(char_sextet(s[k]) is Some);
        }
    }
    Some(out)
}

/// The form of some bytes has four characters for three bytes, all of them letters, digits, the two
/// signs of its alphabet and, where it is padded, equals signs at its end.
pub proof fn lemma_form_characters(d: Seq<u8>, url: bool, pad: bool, k: int)
    requires
        0 <= k < base64_form(d, url, pad).len(),
    ensures
        ({
            let c = base64_form(d, url, pad)[k];
            ||| 'A' <= c <= 'Z' || 'a' <= c <= 'z' || '0' <= c <= '9'
            ||| url && (c == '-' || c == '_')
            ||| !url && (c == '+' || c == '/')
            ||| pad && c == '=' && 4 * d.len() < 3 * k + 3
        }),
        pad ==> base64_form(d, url, pad).len() == (d.len() + 2) / 3 * 4,
        !pad ==> base64_form(d, url, pad).len() == (4 * d.len() + 2) / 3,
{
    if k < unpadded(d, url).len() {
        lemma_sextet_range(d, k);
    }
}

/// A tolerant reader refuses every text that has a character of no alphabet in front of its
/// padding.
pub proof fn lemma_loose_refuses(s: Seq<char>, k: int)
    requires
        0 <= k < s.len(),
        forall|j: int| 0 <= j <= k ==> s[j] != '=',
        !('A' <= s[k] <= 'Z') && !('a' <= s[k] <= 'z') && !('0' <= s[k] <= '9'),
        s[k] != '+' && s[k] != '-' && s[k] != '/' && s[k] != '_',
    ensures
        loose_decode(s) is None,
{
    let head = before_padding(s);
    if s.contains('=') {
        let n = choose|n: int| 0 <= n < s.len() && s[n] == '=' && forall|j: int|
            0 <= j < n ==> s[j] != '=';
        lemma_some_first_padding(s);
        text::lemma_cut_at(s, '=', n);
        assert(head[k] == s[k]);
    } else {
        assert forall|j: int| 0 <= j < s.len() implies s[j] != '=' by {
            assert(s.contains(s[j]));
        }
        text::lemma_cut_none(s, '=');
        assert(head[k] == s[k]);
    }
    assert(char_sextet(head[k]) is None);
}

proof fn lemma_some_first_padding(s: Seq<char>)
    requires
        s.contains('='),
    ensures
        exists|n: int|
            0 <= n < s.len() && s[n] == '=' && forall|j: int| 0 <= j < n ==> s[j] != '=',
    decreases s.len(),
{
    let m = choose|m: int| 0 <= m < s.len() && s[m] == '=';
    let t = s.subrange(0, m);
    if t.contains('=') {
        lemma_some_first_padding(t);
        let n = choose|n: int|
            0 <= n < t.len() && t[n] == '=' && forall|j: int| 0 <= j < n ==> t[j] != '=';
        assert(s[n] == '=');
        assert forall|j: int| 0 <= j < n implies s[j] != '=' by {
            assert(t[j] != '=');
        }
    } else {
        assert forall|j: int| 0 <= j < m implies s[j] != '=' by {
            assert(t[j] == s[j]);
            assert(t.contains(t[j]));
        }
    }
}

/// The characters of the form of three bytes are those that its six-bit groups number in the
/// alphabet: capitals, small letters, digits and two signs.
pub proof fn lemma_groups_of_four_characters(d: Seq<u8>, url: bool, pad: bool, g: int)
    requires
        0 <= g,
        3 * g + 3 <= d.len(),
    ensures
        ({
            let n = d[3 * g] as int * 65536 + d[3 * g + 1] as int * 256 + d[3 * g + 2] as int;
            let s = base64_form(d, url, pad);
            let signs = if url {
                "-_"@
            } else {
                "+/"@
            };
            let alphabet = "ABCDEFGHIJKLMNOPQRSTUVWXYZabcdefghijklmnopqrstuvwxyz0123456789"@ + signs;
            &&& s[4 * g] == alphabet[n / 262144]
            &&& s[4 * g + 1] == alphabet[n / 4096 % 64]
            &&& s[4 * g + 2] == alphabet[n / 64 % 64]
            &&& s[4 * g + 3] == alphabet[n % 64]
        }),
{
    let n = d[3 * g] as int * 65536 + d[3 * g + 1] as int * 256 + d[3 * g + 2] as int;
    lemma_sextets_of_three_bytes(d, g, n);
    lemma_alphabet(sextet(d, 4 * g), url);
    lemma_alphabet(sextet(d, 4 * g + 1), url);
    lemma_alphabet(sextet(d, 4 * g + 2), url);
    lemma_alphabet(sextet(d, 4 * g + 3), url);
    lemma_unpadded_characters(d, url, pad, 4 * g);
    lemma_unpadded_characters(d, url, pad, 4 * g + 1);
    lemma_unpadded_characters(d, url, pad, 4 * g + 2);
    lemma_unpadded_characters(d, url, pad, 4 * g + 3);
}

proof fn lemma_unpadded_characters(d: Seq<u8>, url: bool, pad: bool, j: int)
    requires
        0 <= j,
        3 * j + 3 <= 4 * d.len(),
    ensures
        base64_form(d, url, pad)[j] == sextet_char(sextet(d, j), url),
{
    assert(j < unpadded(d, url).len());
}

proof fn lemma_sextets_of_three_bytes(d: Seq<u8>, g: int, n: int)
    requires
        0 <= g,
        3 * g + 3 <= d.len(),
        n == d[3 * g] as int * 65536 + d[3 * g + 1] as int * 256 + d[3 * g + 2] as int,
    ensures
        sextet(d, 4 * g) == n / 262144,
        sextet(d, 4 * g + 1) == n / 4096 % 64,
        sextet(d, 4 * g + 2) == n / 64 % 64,
        sextet(d, 4 * g + 3) == n % 64,
        0 <= n < 16777216,
{
    let a = d[3 * g] as int;
    let b = d[3 * g + 1] as int;
    let c = d[3 * g + 2] as int;
    lemma_four_groups(a / 4, a % 4 * 16 + b / 16, b % 16 * 4 + c / 64, c % 64);
    assert(n == a / 4 * 262144 + (a % 4 * 16 + b / 16) * 4096 + (b % 16 * 4 + c / 64) * 64 + c % 64);
    assert(4 * g / 4 == g && (4 * g + 1) / 4 == g && (4 * g + 2) / 4 == g && (4 * g + 3) / 4 == g);
}

proof fn lemma_four_groups(w: int, x: int, y: int, z: int)
    requires
        0 <= w < 64,
        0 <= x < 64,
        0 <= y < 64,
        0 <= z < 64,
    ensures
        ({
            let n = w * 262144 + x * 4096 + y * 64 + z;
            &&& n / 262144 == w
            &&& n / 4096 % 64 == x
            &&& n / 64 % 64 == y
            &&& n % 64 == z
        }),
{
    let n = w * 262144 + x * 4096 + y * 64 + z;
    assert(n / 64 == w * 4096 + x * 64 + y);
    assert(n / 4096 == w * 64 + x);
}

proof fn lemma_alphabet(v: int, url: bool)
    requires
        0 <= v < 64,
    ensures
        sextet_char(v, url)
            == ("ABCDEFGHIJKLMNOPQRSTUVWXYZabcdefghijklmnopqrstuvwxyz0123456789"@ + (if url {
            "-_"@
        } else {
            "+/"@
        }))[v],
{
    reveal_strlit("ABCDEFGHIJKLMNOPQRSTUVWXYZabcdefghijklmnopqrstuvwxyz0123456789");
    reveal_strlit("-_");
    reveal_strlit("+/");
}

/// A tolerant reader takes every text of characters of either alphabet, mixed or not and of
/// whatever length, for as many whole bytes as it has bits for. It reads up to the first equals
/// sign and no further.
pub proof fn lemma_loose_accepts(s: Seq<char>, more: Seq<char>)
    requires
        forall|k: int|
            0 <= k < s.len() ==> {
                let c = #[trigger] s[k];
                'A' <= c <= 'Z' || 'a' <= c <= 'z' || '0' <= c <= '9' || c == '+' || c == '-' || c
                    == '/' || c == '_'
            },
    ensures
        loose_decode(s) matches Some(bytes) && bytes.len() == s.len() * 6 / 8,
        loose_decode(s + seq!['='] + more) == loose_decode(s),
{
    assert(!s.contains('='));
    text::lemma_cut_of_joined(s, '=', more);
}

/// Four characters are read as three bytes, whatever follows them.
pub proof fn lemma_loose_reads_by_fours(a: Seq<char>, b: Seq<char>)
    requires
        a.len() % 4 == 0,
        !a.contains('='),
        !b.contains('='),
        loose_decode(a) is Some,
        loose_decode(b) is Some,
    ensures
        loose_decode(a + b) == Some(loose_decode(a)->0 + loose_decode(b)->0),
{
    text::lemma_cut_joins_back(a, '=');
    text::lemma_cut_joins_back(b, '=');
    text::lemma_cut_joins_back(a + b, '=');
    let all = a + b;
    assert(!all.contains('=')) by {
        if all.contains('=') {
            let k = choose|k: int| 0 <= k < all.len() && all[k] == '=';
            if k < a.len() {
                assert(a.contains(a[k]));
            } else {
                assert(b.contains(b[k - a.len()]));
            }
        }
    }
    lemma_no_padding(a);
    lemma_no_padding(b);
    lemma_no_padding(all);
    assert forall|k: int| 0 <= k < all.len() implies (#[trigger] char_sextet(all[k])) is Some by {
        if k < a.len() {
            assert(char_sextet(a[k]) is Some);
        } else {
            assert(char_sextet(b[k - a.len()]) is Some);
        }
    }
    let n = a.len() as int;
    let left = text_bytes(a);
    let right = text_bytes(b);
    assert(left.len() == n / 4 * 3);
    assert forall|i: int| 0 <= i < text_bytes(all).len() implies text_bytes(all)[i] == (left
        + right)[i] by {
        if i < left.len() {
            lemma_text_byte_of_part(all, a, 0, i);
        } else {
            lemma_text_byte_of_part(all, b, n, i - left.len());
        }
    }
    assert(text_bytes(all) =~= left + right);
}

proof fn lemma_no_padding(s: Seq<char>)
    requires
        !s.contains('='),
    ensures
        before_padding(s) == s,
{
    text::lemma_cut_of_joined(s, '=', s);
}

proof fn lemma_text_byte_of_part(all: Seq<char>, part: Seq<char>, at: int, i: int)
    requires
        0 <= at,
        at % 4 == 0,
        at + part.len() <= all.len(),
        0 <= i < part.len() * 6 / 8,
        forall|k: int| 0 <= k < part.len() ==> part[k] == all[at + k],
    ensures
        text_byte(all, at / 4 * 3 + i) == text_byte(part, i),
{
    let j = at / 4 * 3 + i;
    let q = 4 * (i / 3);
    assert(j / 3 == at / 4 + i / 3);
    assert(j % 3 == i % 3);
    assert(4 * (j / 3) == at + q);
    assert(part[q] == all[at + q]);
    assert(part[q + 1] == all[at + (q + 1)]);
    if i % 3 >= 1 {
        assert(q + 2 < part.len());
        assert(part[q + 2] == all[at + (q + 2)]);
    }
    if i % 3 == 2 {
        assert(q + 3 < part.len());
        assert(part[q + 3] == all[at + (q + 3)]);
    }
}

} // verus!
