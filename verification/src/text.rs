//! Text primitives over `str`, stated on sequences of characters.

use vstd::prelude::*;
use vstd::string::*;
use vstd::utf8::*;

verus! {

/// Characters with the Unicode `White_Space` property.
pub open spec fn is_whitespace(c: char) -> bool {
    let u = c as u32;
    ||| 0x09 <= u <= 0x0d
    ||| u == 0x20
    ||| u == 0x85
    ||| u == 0xa0
    ||| u == 0x1680
    ||| 0x2000 <= u <= 0x200a
    ||| u == 0x2028
    ||| u == 0x2029
    ||| u == 0x202f
    ||| u == 0x205f
    ||| u == 0x3000
}

/// `c` with `A..=Z` mapped to `a..=z` and every other character kept.
pub open spec fn ascii_lower(c: char) -> char {
    if 'A' <= c <= 'Z' {
        (c as u32 + 32) as char
    } else {
        c
    }
}

/// `s` with its ASCII letters in lower case.
pub open spec fn lowercase(s: Seq<char>) -> Seq<char> {
    s.map_values(|c: char| ascii_lower(c))
}

/// Equality up to the case of ASCII letters.
pub open spec fn same_ignoring_case(a: Seq<char>, b: Seq<char>) -> bool {
    lowercase(a) == lowercase(b)
}

/// `s` without its leading whitespace.
pub open spec fn trim_start(s: Seq<char>) -> Seq<char>
    decreases s.len(),
{
    if s.len() > 0 && is_whitespace(s[0]) {
        trim_start(s.subrange(1, s.len() as int))
    } else {
        s
    }
}

/// `s` without its trailing whitespace.
pub open spec fn trim_end(s: Seq<char>) -> Seq<char>
    decreases s.len(),
{
    if s.len() > 0 && is_whitespace(s[s.len() - 1]) {
        trim_end(s.subrange(0, s.len() - 1))
    } else {
        s
    }
}

/// `s` without leading and trailing whitespace.
pub open spec fn trimmed(s: Seq<char>) -> Seq<char> {
    trim_end(trim_start(s))
}

/// The pieces of `s` between occurrences of `sep`; never empty.
pub open spec fn segments<A>(s: Seq<A>, sep: A) -> Seq<Seq<A>>
    decreases s.len(),
{
    if s.len() == 0 {
        seq![Seq::<A>::empty()]
    } else {
        let before = segments(s.drop_last(), sep);
        if s.last() == sep {
            before.push(Seq::<A>::empty())
        } else {
            before.drop_last().push(before.last().push(s.last()))
        }
    }
}

/// Every element but the separators stands in one of the pieces.
pub proof fn lemma_segments_cover<A>(s: Seq<A>, sep: A, k: int)
    requires
        0 <= k < s.len(),
        s[k] != sep,
    ensures
        exists|i: int, j: int|
            0 <= i < segments(s, sep).len() && 0 <= j < (#[trigger] segments(s, sep)[i]).len()
                && #[trigger] segments(s, sep)[i][j] == s[k],
    decreases s.len(),
{
    let before = segments(s.drop_last(), sep);
    let all = segments(s, sep);
    lemma_segments_nonempty(s.drop_last(), sep);
    if k == s.len() - 1 {
        let i = all.len() - 1;
        assert(all[i][all[i].len() - 1] == s[k]);
    } else {
        lemma_segments_cover(s.drop_last(), sep, k);
        let (i, j) = choose|i: int, j: int|
            0 <= i < before.len() && 0 <= j < (#[trigger] before[i]).len() && #[trigger] before[i][j]
                == s.drop_last()[k];
        assert(all[i][j] == s[k]);
    }
}

/// `s` cut at the first `sep`, which belongs to neither part.
pub open spec fn cut(s: Seq<char>, sep: char) -> Option<(Seq<char>, Seq<char>)>
    decreases s.len(),
{
    if s.len() == 0 {
        None
    } else if s[0] == sep {
        Some((Seq::empty(), s.subrange(1, s.len() as int)))
    } else {
        match cut(s.subrange(1, s.len() as int), sep) {
            Some((a, b)) => Some((seq![s[0]] + a, b)),
            None => None,
        }
    }
}

/// `s` without the prefix `p`, when it starts with it.
pub open spec fn without_prefix(s: Seq<char>, p: Seq<char>) -> Option<Seq<char>> {
    if p.len() <= s.len() && s.subrange(0, p.len() as int) == p {
        Some(s.subrange(p.len() as int, s.len() as int))
    } else {
        None
    }
}

/// The views of a list of strings.
pub open spec fn views(list: Seq<&str>) -> Seq<Seq<char>> {
    list.map_values(|s: &str| s@)
}

/// The characters of `s`.
pub fn chars_of(s: &str) -> (out: Vec<char>)
    ensures
        out@ == s@,
{
    let mut out: Vec<char> = Vec::new();
    for c in it: s.chars()
        invariant
            out@ == s@.subrange(0, it.index() as int),
            it.seq() == s@,
    {
        out.push(c);
        assert(out@ =~= s@.subrange(0, it.index() + 1));
    }
    out
}

/// Whether `c` has the Unicode `White_Space` property.
pub fn char_is_whitespace(c: char) -> (r: bool)
    ensures
        r == is_whitespace(c),
{
    let u: u32 = c as u32;
    (0x09 <= u && u <= 0x0d) || u == 0x20 || u == 0x85 || u == 0xa0 || u == 0x1680 || (0x2000 <= u
        && u <= 0x200a) || u == 0x2028 || u == 0x2029 || u == 0x202f || u == 0x205f || u == 0x3000
}

/// `c` with an ASCII capital made small.
pub fn char_to_lower(c: char) -> (r: char)
    ensures
        r == ascii_lower(c),
{
    if 'A' <= c && c <= 'Z' {
        (c as u8 + 32) as char
    } else {
        c
    }
}

/// `a == b`.
pub fn str_eq(a: &str, b: &str) -> (r: bool)
    ensures
        r == (a@ == b@),
{
    let x = chars_of(a);
    let y = chars_of(b);
    if x.len() != y.len() {
        return false;
    }
    for i in 0..x.len()
        invariant
            x@ == a@,
            y@ == b@,
            x@.len() == y@.len(),
            forall|k: int| 0 <= k < i ==> x@[k] == y@[k],
    {
        if x[i] != y[i] {
            assert(a@[i as int] != b@[i as int]);
            return false;
        }
    }
    assert(a@ =~= b@);
    true
}

/// `a == b` up to the case of ASCII letters.
pub fn eq_ignore_ascii_case(a: &str, b: &str) -> (r: bool)
    ensures
        r == same_ignoring_case(a@, b@),
{
    let x = chars_of(a);
    let y = chars_of(b);
    if x.len() != y.len() {
        assert(lowercase(a@).len() != lowercase(b@).len());
        return false;
    }
    for i in 0..x.len()
        invariant
            x@ == a@,
            y@ == b@,
            x@.len() == y@.len(),
            forall|k: int| 0 <= k < i ==> ascii_lower(#[trigger] x@[k]) == ascii_lower(y@[k]),
    {
        if char_to_lower(x[i]) != char_to_lower(y[i]) {
            assert(lowercase(a@)[i as int] != lowercase(b@)[i as int]);
            return false;
        }
    }
    assert(lowercase(a@) =~= lowercase(b@));
    true
}

proof fn lemma_trim_start_at(s: Seq<char>, n: int)
    requires
        0 <= n <= s.len(),
        forall|k: int| 0 <= k < n ==> is_whitespace(s[k]),
        n < s.len() ==> !is_whitespace(s[n]),
    ensures
        trim_start(s) == s.subrange(n, s.len() as int),
    decreases n,
{
    if n == 0 {
        assert(s.subrange(0, s.len() as int) =~= s);
    } else {
        let rest = s.subrange(1, s.len() as int);
        assert forall|k: int| 0 <= k < n - 1 implies is_whitespace(rest[k]) by {
            assert(rest[k] == s[k + 1]);
        }
        lemma_trim_start_at(rest, n - 1);
        assert(rest.subrange(n - 1, rest.len() as int) =~= s.subrange(n, s.len() as int));
    }
}

proof fn lemma_trim_end_at(s: Seq<char>, n: int)
    requires
        0 <= n <= s.len(),
        forall|k: int| n <= k < s.len() ==> is_whitespace(s[k]),
        n > 0 ==> !is_whitespace(s[n - 1]),
    ensures
        trim_end(s) == s.subrange(0, n),
    decreases s.len() - n,
{
    if n == s.len() {
        assert(s.subrange(0, n) =~= s);
    } else {
        let rest = s.subrange(0, s.len() - 1);
        lemma_trim_end_at(rest, n);
        assert(rest.subrange(0, n) =~= s.subrange(0, n));
    }
}

/// `s` without leading and trailing whitespace.
pub fn trim(s: &str) -> (r: &str)
    ensures
        r@ == trimmed(s@),
{
    let chars = chars_of(s);
    let n: usize = chars.len();
    let mut a: usize = 0;
    while a < n && char_is_whitespace(chars[a])
        invariant
            chars@ == s@,
            n == s@.len(),
            a <= n,
            forall|k: int| 0 <= k < a ==> is_whitespace(s@[k]),
        decreases n - a,
    {
        a = a + 1;
    }
    let mut b: usize = n;
    while b > a && char_is_whitespace(chars[b - 1])
        invariant
            chars@ == s@,
            n == s@.len(),
            a <= b <= n,
            forall|k: int| b <= k < n ==> is_whitespace(s@[k]),
        decreases b,
    {
        b = b - 1;
    }
    proof {
        lemma_trim_start_at(s@, a as int);
        let mid = s@.subrange(a as int, n as int);
        assert forall|k: int| b - a <= k < mid.len() implies is_whitespace(mid[k]) by {
            assert(mid[k] == s@[k + a]);
        }
        lemma_trim_end_at(mid, b - a);
        assert(mid.subrange(0, b - a) =~= s@.subrange(a as int, b as int));
    }
    s.substring_char(a, b)
}

proof fn lemma_segments_nonempty<A>(s: Seq<A>, sep: A)
    ensures
        segments(s, sep).len() > 0,
    decreases s.len(),
{
    if s.len() > 0 {
        lemma_segments_nonempty(s.drop_last(), sep);
    }
}

/// The pieces of `s` between occurrences of `sep`.
pub fn split<'a>(s: &'a str, sep: char) -> (out: Vec<&'a str>)
    ensures
        views(out@) == segments(s@, sep),
        out@.len() > 0,
{
    let chars = chars_of(s);
    let mut out: Vec<&'a str> = Vec::new();
    let mut start: usize = 0;
    let mut i: usize = 0;
    assert(s@.subrange(0, 0) =~= Seq::<char>::empty());
    assert(views(out@).push(s@.subrange(0, 0)) =~= segments(s@.subrange(0, 0), sep));
    while i < chars.len()
        invariant
            chars@ == s@,
            start <= i <= s@.len(),
            views(out@).push(s@.subrange(start as int, i as int)) == segments(
                s@.subrange(0, i as int),
                sep,
            ),
        decreases s@.len() - i,
    {
        let ghost done = s@.subrange(0, i as int);
        let ghost next = s@.subrange(0, i + 1);
        assert(next.drop_last() =~= done);
        assert(next.last() == s@[i as int]);
        if chars[i] == sep {
            let ghost prev = views(out@);
            out.push(s.substring_char(start, i));
            start = i + 1;
            assert(views(out@) =~= segments(done, sep));
            assert(s@.subrange(start as int, i + 1) =~= Seq::<char>::empty());
        } else {
            let ghost cur = s@.subrange(start as int, i as int);
            assert(segments(done, sep).drop_last() =~= views(out@));
            assert(cur.push(s@[i as int]) =~= s@.subrange(start as int, i + 1));
        }
        i = i + 1;
    }
    let ghost prev = views(out@);
    out.push(s.substring_char(start, i));
    assert(views(out@) =~= prev.push(s@.subrange(start as int, i as int)));
    assert(s@.subrange(0, i as int) =~= s@);
    out
}

/// The first `sep` is where `cut` cuts.
pub proof fn lemma_cut_at(s: Seq<char>, sep: char, n: int)
    requires
        0 <= n < s.len(),
        s[n] == sep,
        forall|k: int| 0 <= k < n ==> s[k] != sep,
    ensures
        cut(s, sep) == Some((s.subrange(0, n), s.subrange(n + 1, s.len() as int))),
    decreases n,
{
    if n == 0 {
        assert(s.subrange(0, 0) =~= Seq::<char>::empty());
    } else {
        let rest = s.subrange(1, s.len() as int);
        assert forall|k: int| 0 <= k < n - 1 implies rest[k] != sep by {
            assert(rest[k] == s[k + 1]);
        }
        lemma_cut_at(rest, sep, n - 1);
        assert(seq![s[0]] + rest.subrange(0, n - 1) =~= s.subrange(0, n));
        assert(rest.subrange(n, rest.len() as int) =~= s.subrange(n + 1, s.len() as int));
    }
}

/// Without a `sep` there is nothing to cut.
pub proof fn lemma_cut_none(s: Seq<char>, sep: char)
    requires
        forall|k: int| 0 <= k < s.len() ==> s[k] != sep,
    ensures
        cut(s, sep) is None,
    decreases s.len(),
{
    if s.len() > 0 {
        let rest = s.subrange(1, s.len() as int);
        assert forall|k: int| 0 <= k < rest.len() implies rest[k] != sep by {
            assert(rest[k] == s[k + 1]);
        }
        lemma_cut_none(rest, sep);
    }
}

/// `s` cut at the first `sep`.
pub fn split_once<'a>(s: &'a str, sep: char) -> (r: Option<(&'a str, &'a str)>)
    ensures
        match r {
            Some((a, b)) => cut(s@, sep) == Some((a@, b@)),
            None => cut(s@, sep) is None,
        },
{
    let chars = chars_of(s);
    let n: usize = chars.len();
    let mut i: usize = 0;
    while i < n
        invariant
            chars@ == s@,
            n == s@.len(),
            i <= n,
            forall|k: int| 0 <= k < i ==> s@[k] != sep,
        decreases n - i,
    {
        if chars[i] == sep {
            proof {
                lemma_cut_at(s@, sep, i as int);
            }
            return Some((s.substring_char(0, i), s.substring_char(i + 1, n)));
        }
        i = i + 1;
    }
    proof {
        lemma_cut_none(s@, sep);
    }
    None
}

/// `s` without the prefix `p`.
pub fn strip_prefix<'a>(s: &'a str, p: &str) -> (r: Option<&'a str>)
    ensures
        match r {
            Some(rest) => without_prefix(s@, p@) == Some(rest@),
            None => without_prefix(s@, p@) is None,
        },
{
    let x = chars_of(s);
    let y = chars_of(p);
    if y.len() > x.len() {
        return None;
    }
    for i in 0..y.len()
        invariant
            x@ == s@,
            y@ == p@,
            y@.len() <= x@.len(),
            forall|k: int| 0 <= k < i ==> x@[k] == y@[k],
    {
        if x[i] != y[i] {
            assert(s@.subrange(0, p@.len() as int)[i as int] != p@[i as int]);
            return None;
        }
    }
    assert(s@.subrange(0, p@.len() as int) =~= p@);
    Some(s.substring_char(y.len(), x.len()))
}

/// `std::str::from_utf8`: the text that `bytes` encode, exactly when they are valid UTF-8.
#[verifier::external_body]
pub(crate) fn utf8_text(bytes: &[u8]) -> (r: Option<&str>)
    ensures
        match r {
            Some(s) => valid_utf8(bytes@) && s@ == decode_utf8(bytes@),
            None => !valid_utf8(bytes@),
        },
{
    std::str::from_utf8(bytes).ok()
}

/// `b` with an ASCII capital made small.
pub open spec fn lower_byte(b: u8) -> u8 {
    if 0x41 <= b <= 0x5a {
        (b + 32) as u8
    } else {
        b
    }
}

proof fn lemma_wide_bytes(u: u32)
    requires
        u >= 0x80,
    ensures
        forall|i: int| 0 <= i < encode_scalar(u).len() ==> #[trigger] encode_scalar(u)[i] >= 0x80,
{
    assert(leading_byte_width_2(u) >= 0x80) by (bit_vector);
    assert(leading_byte_width_3(u) >= 0x80) by (bit_vector);
    assert(leading_byte_width_4(u) >= 0x80) by (bit_vector);
    assert(last_continuation_byte(u) >= 0x80) by (bit_vector);
    assert(second_last_continuation_byte(u) >= 0x80) by (bit_vector);
    assert(third_last_continuation_byte(u) >= 0x80) by (bit_vector);
}

proof fn lemma_narrow_byte(u: u32)
    requires
        u < 0x80,
    ensures
        encode_scalar(u) == seq![u as u8],
{
    assert(leading_byte_width_1(u) == u as u8) by (bit_vector)
        requires
            u < 0x80,
    ;
}

/// The bytes of a text in lower case are the bytes of the text, each in lower case: no byte of a
/// longer encoding is an ASCII letter.
proof fn lemma_lowercase_bytes(s: Seq<char>)
    ensures
        encode_utf8(lowercase(s)) == encode_utf8(s).map_values(|b: u8| lower_byte(b)),
    decreases s.len(),
{
    let small = lowercase(s);
    if s.len() > 0 {
        let rest = s.drop_first();
        lemma_lowercase_bytes(rest);
        assert(small.drop_first() =~= lowercase(rest));
        let u = s[0] as u32;
        let v = small[0] as u32;
        let first = encode_scalar(u);
        if u < 0x80 {
            lemma_narrow_byte(u);
            lemma_narrow_byte(v);
        } else {
            lemma_wide_bytes(u);
        }
        assert(encode_scalar(v) =~= first.map_values(|b: u8| lower_byte(b)));
        assert(encode_utf8(small) =~= encode_utf8(s).map_values(|b: u8| lower_byte(b)));
    } else {
        assert(encode_utf8(small) =~= encode_utf8(s).map_values(|b: u8| lower_byte(b)));
    }
}

/// A copy of `s` with its ASCII letters in lower case.
pub fn to_ascii_lowercase(s: &str) -> (r: String)
    ensures
        r@ == lowercase(s@),
{
    let bytes = s.as_bytes();
    let mut out: Vec<u8> = Vec::new();
    for i in 0..bytes.len()
        invariant
            out@ == bytes@.subrange(0, i as int).map_values(|b: u8| lower_byte(b)),
    {
        let b: u8 = bytes[i];
        out.push(
            if 0x41 <= b && b <= 0x5a {
                b + 32
            } else {
                b
            },
        );
        assert(out@ =~= bytes@.subrange(0, i + 1).map_values(|b: u8| lower_byte(b)));
    }
    proof {
        assert(bytes@.subrange(0, bytes@.len() as int) =~= bytes@);
        lemma_lowercase_bytes(s@);
        encode_utf8_valid_utf8(lowercase(s@));
        encode_utf8_decode_utf8(lowercase(s@));
    }
    match utf8_text(out.as_slice()) {
        Some(small) => small.to_owned(),
        None => String::new(),
    }
}

/// The value of a hexadecimal digit.
pub open spec fn hex_digit(b: u8) -> Option<int> {
    if 0x30 <= b <= 0x39 {
        Some(b - 0x30)
    } else if 0x61 <= b <= 0x66 {
        Some(b - 0x61 + 10)
    } else if 0x41 <= b <= 0x46 {
        Some(b - 0x41 + 10)
    } else {
        None
    }
}

/// The character of a hexadecimal digit, letters in lower case.
pub open spec fn hex_char(d: int) -> char {
    if d < 10 {
        (('0' as u32) + d) as char
    } else {
        (('a' as u32) + d - 10) as char
    }
}

/// Two hexadecimal digits for each byte, the high one first.
pub open spec fn hex_text(bytes: Seq<u8>) -> Seq<char> {
    Seq::new(
        2 * bytes.len(),
        |i: int|
            hex_char(
                if i % 2 == 0 {
                    bytes[i / 2] as int / 16
                } else {
                    bytes[i / 2] as int % 16
                },
            ),
    )
}

fn hex_str(d: u8) -> (r: &'static str)
    requires
        d < 16,
    ensures
        r@ == seq![hex_char(d as int)],
{
    proof {
        reveal_strlit("0");
        reveal_strlit("1");
        reveal_strlit("2");
        reveal_strlit("3");
        reveal_strlit("4");
        reveal_strlit("5");
        reveal_strlit("6");
        reveal_strlit("7");
        reveal_strlit("8");
        reveal_strlit("9");
        reveal_strlit("a");
        reveal_strlit("b");
        reveal_strlit("c");
        reveal_strlit("d");
        reveal_strlit("e");
        reveal_strlit("f");
    }
    match d {
        0 => "0",
        1 => "1",
        2 => "2",
        3 => "3",
        4 => "4",
        5 => "5",
        6 => "6",
        7 => "7",
        8 => "8",
        9 => "9",
        10 => "a",
        11 => "b",
        12 => "c",
        13 => "d",
        14 => "e",
        _ => "f",
    }
}

/// `bytes` in hexadecimal.
pub fn to_hex(bytes: &[u8]) -> (r: String)
    ensures
        r@ == hex_text(bytes@),
{
    let mut out = String::new();
    for i in 0..bytes.len()
        invariant
            out@ == hex_text(bytes@.subrange(0, i as int)),
    {
        let ghost before = bytes@.subrange(0, i as int);
        let ghost after = bytes@.subrange(0, i + 1);
        let b: u8 = bytes[i];
        out.append(hex_str(b / 16));
        out.append(hex_str(b % 16));
        assert(out@ =~= hex_text(after)) by {
            assert forall|k: int| 0 <= k < 2 * before.len() implies #[trigger] hex_text(after)[k]
                == hex_text(before)[k] by {
                assert(after[k / 2] == before[k / 2]);
            }
            assert(after[i as int] == b);
        }
    }
    assert(bytes@.subrange(0, bytes@.len() as int) =~= bytes@);
    out
}

/// The character of a decimal digit.
pub open spec fn digit_char(d: int) -> char {
    (('0' as u32) + d) as char
}

/// `n` in decimal.
pub open spec fn decimal_text(n: nat) -> Seq<char>
    decreases n,
{
    if n < 10 {
        seq![digit_char(n as int)]
    } else {
        decimal_text(n / 10).push(digit_char((n % 10) as int))
    }
}

fn digit(d: u64) -> (r: &'static str)
    requires
        d < 10,
    ensures
        r@ == seq![digit_char(d as int)],
{
    proof {
        reveal_strlit("0");
        reveal_strlit("1");
        reveal_strlit("2");
        reveal_strlit("3");
        reveal_strlit("4");
        reveal_strlit("5");
        reveal_strlit("6");
        reveal_strlit("7");
        reveal_strlit("8");
        reveal_strlit("9");
    }
    match d {
        0 => "0",
        1 => "1",
        2 => "2",
        3 => "3",
        4 => "4",
        5 => "5",
        6 => "6",
        7 => "7",
        8 => "8",
        _ => "9",
    }
}

/// `n` in decimal.
pub fn decimal(n: u64) -> (r: String)
    ensures
        r@ == decimal_text(n as nat),
    decreases n,
{
    if n < 10 {
        digit(n).to_string()
    } else {
        let mut s = decimal(n / 10);
        s.append(digit(n % 10));
        s
    }
}

/// `before` followed by `n` in decimal.
pub fn numbered(before: &str, n: u64) -> (r: String)
    ensures
        r@ == before@ + decimal_text(n as nat),
{
    let mut s = before.to_owned();
    let digits = decimal(n);
    s.append(digits.as_str());
    s
}

/// `a` followed by `b`.
pub fn joined(a: String, b: &str) -> (r: String)
    ensures
        r@ == a@ + b@,
{
    a.concat(b)
}

/// Whether `c` is an ASCII decimal digit.
pub open spec fn is_digit(c: char) -> bool {
    '0' <= c <= '9'
}

/// The number that a string of decimal digits writes.
pub open spec fn digits_value(s: Seq<char>) -> nat
    decreases s.len(),
{
    if s.len() == 0 {
        0
    } else {
        digits_value(s.drop_last()) * 10 + (s.last() as u32 - '0' as u32) as nat
    }
}

/// `s` without one leading `+`.
pub open spec fn unsigned_digits(s: Seq<char>) -> Seq<char> {
    if s.len() > 0 && s[0] == '+' {
        s.subrange(1, s.len() as int)
    } else {
        s
    }
}

/// The number up to `max` that `s` writes: decimal digits, at least one, after an optional `+`.
pub open spec fn parsed_number(s: Seq<char>, max: nat) -> Option<nat> {
    let d = unsigned_digits(s);
    if d.len() > 0 && (forall|k: int| 0 <= k < d.len() ==> is_digit(#[trigger] d[k]))
        && digits_value(d) <= max {
        Some(digits_value(d))
    } else {
        None
    }
}

proof fn lemma_digits_value_monotonic(s: Seq<char>, n: int)
    requires
        0 <= n <= s.len(),
        forall|k: int| 0 <= k < s.len() ==> is_digit(s[k]),
    ensures
        digits_value(s.subrange(0, n)) <= digits_value(s),
    decreases s.len(),
{
    if n == s.len() {
        assert(s.subrange(0, n) =~= s);
    } else {
        let t = s.drop_last();
        lemma_digits_value_monotonic(t, n);
        assert(t.subrange(0, n) =~= s.subrange(0, n));
    }
}

/// Reads a number up to `max` as `str::parse` does.
pub fn parse_number(s: &str, max: u64) -> (r: Option<u64>)
    ensures
        match r {
            Some(n) => parsed_number(s@, max as nat) == Some(n as nat),
            None => parsed_number(s@, max as nat) is None,
        },
{
    let chars = chars_of(s);
    let n: usize = chars.len();
    let start: usize = if n > 0 && chars[0] == '+' {
        1
    } else {
        0
    };
    let ghost d = unsigned_digits(s@);
    assert(d =~= s@.subrange(start as int, n as int));
    if start == n {
        return None;
    }
    let mut i: usize = start;
    let mut value: u64 = 0;
    while i < n
        invariant
            chars@ == s@,
            n == s@.len(),
            start <= i <= n,
            d == unsigned_digits(s@),
            d == s@.subrange(start as int, n as int),
            d.len() > 0,
            forall|k: int| 0 <= k < i - start ==> is_digit(#[trigger] d[k]),
            value <= max,
            value == digits_value(d.subrange(0, i - start)),
        decreases n - i,
    {
        let c: char = chars[i];
        assert(c == d[i - start]);
        if c < '0' || '9' < c {
            return None;
        }
        let digit: u64 = (c as u32 - '0' as u32) as u64;
        let ghost next = d.subrange(0, i - start + 1);
        assert(next.drop_last() =~= d.subrange(0, i - start));
        assert(digits_value(next) == value * 10 + digit);
        if value > max / 10 || digit > max - value * 10 {
            proof {
                if forall|k: int| 0 <= k < d.len() ==> is_digit(#[trigger] d[k]) {
                    lemma_digits_value_monotonic(d, i - start + 1);
                }
            }
            return None;
        }
        value = value * 10 + digit;
        i = i + 1;
    }
    assert(d.subrange(0, n - start) =~= d);
    Some(value)
}

/// Among the ASCII characters, whitespace is the space and tab, line feed, vertical tab, form feed
/// and carriage return.
pub proof fn lemma_ascii_whitespace(c: char)
    requires
        c as int <= 0x7f,
    ensures
        is_whitespace(c) <==> (c == ' ' || c == '\t' || c == '\n' || c == '\r' || c as int == 11
            || c as int == 12),
{
}

/// Trimming takes away all whitespace around a text and nothing else.
pub proof fn lemma_trimmed(before: Seq<char>, core: Seq<char>, after: Seq<char>)
    requires
        forall|k: int| 0 <= k < before.len() ==> is_whitespace(#[trigger] before[k]),
        forall|k: int| 0 <= k < after.len() ==> is_whitespace(#[trigger] after[k]),
        core.len() > 0,
        !is_whitespace(core[0]),
        !is_whitespace(core[core.len() - 1]),
    ensures
        trimmed(before + core + after) == core,
        trimmed(before + after) == Seq::<char>::empty(),
{
    let s = before + core + after;
    let a = before.len() as int;
    let mid = s.subrange(a, s.len() as int);
    assert forall|k: int| 0 <= k < a implies is_whitespace(s[k]) by {
        assert(s[k] == before[k]);
    }
    assert(s[a] == core[0]);
    lemma_trim_start_at(s, a);
    assert(mid =~= core + after);
    assert forall|k: int| core.len() <= k < mid.len() implies is_whitespace(mid[k]) by {
        assert(mid[k] == after[k - core.len()]);
    }
    assert(mid[core.len() - 1] == core[core.len() - 1]);
    lemma_trim_end_at(mid, core.len() as int);
    assert(mid.subrange(0, core.len() as int) =~= core);
    let blank = before + after;
    assert forall|k: int| 0 <= k < blank.len() implies is_whitespace(blank[k]) by {
        if k < a {
            assert(blank[k] == before[k]);
        } else {
            assert(blank[k] == after[k - a]);
        }
    }
    lemma_trim_start_at(blank, blank.len() as int);
    assert(blank.subrange(blank.len() as int, blank.len() as int) =~= Seq::<char>::empty());
    assert(trim_end(Seq::<char>::empty()) =~= Seq::<char>::empty());
}

/// A text in lower case has a small letter, 32 places behind, for each capital, and every other
/// character as it was; two texts are the same up to case when their characters are.
pub proof fn lemma_lowercase(s: Seq<char>, t: Seq<char>)
    ensures
        lowercase(s).len() == s.len(),
        forall|k: int|
            0 <= k < s.len() ==> #[trigger] lowercase(s)[k] as int == (if 'A' <= s[k] <= 'Z' {
                s[k] as int + 32
            } else {
                s[k] as int
            }),
        lowercase(lowercase(s)) == lowercase(s),
        same_ignoring_case(s, t) <==> s.len() == t.len() && forall|k: int|
            0 <= k < s.len() ==> lowercase(s)[k] == #[trigger] lowercase(t)[k],
{
    assert(lowercase(lowercase(s)) =~= lowercase(s));
    if s.len() == t.len() && (forall|k: int|
        0 <= k < s.len() ==> lowercase(s)[k] == #[trigger] lowercase(t)[k]) {
        assert(lowercase(s) =~= lowercase(t));
    }
    if same_ignoring_case(s, t) {
        assert(lowercase(s).len() == s.len() && lowercase(t).len() == t.len());
    }
}

/// Pieces put together again, with `sep` between them.
pub open spec fn joined_with<A>(parts: Seq<Seq<A>>, sep: A) -> Seq<A>
    decreases parts.len(),
{
    if parts.len() == 0 {
        Seq::empty()
    } else if parts.len() == 1 {
        parts[0]
    } else {
        joined_with(parts.drop_last(), sep) + seq![sep] + parts.last()
    }
}

proof fn lemma_segments_append<A>(s: Seq<A>, sep: A, t: Seq<A>)
    requires
        !t.contains(sep),
    ensures
        segments(s + seq![sep] + t, sep) == segments(s, sep).push(t),
    decreases t.len(),
{
    let all = s + seq![sep] + t;
    if t.len() == 0 {
        assert(all.drop_last() =~= s);
        assert(all.last() == sep);
        assert(t =~= Seq::<A>::empty());
    } else {
        let u = t.drop_last();
        assert forall|k: int| 0 <= k < u.len() implies u[k] != sep by {
            assert(t.contains(t[k]));
        }
        lemma_segments_append(s, sep, u);
        assert(all.drop_last() =~= s + seq![sep] + u);
        assert(all.last() == t.last());
        assert(t.contains(t.last()));
        let before = segments(s, sep).push(u);
        assert(before.drop_last() =~= segments(s, sep));
        assert(u.push(t.last()) =~= t);
    }
}

proof fn lemma_segments_single<A>(t: Seq<A>, sep: A)
    requires
        !t.contains(sep),
    ensures
        segments(t, sep) == seq![t],
    decreases t.len(),
{
    if t.len() > 0 {
        let u = t.drop_last();
        assert forall|k: int| 0 <= k < u.len() implies u[k] != sep by {
            assert(t.contains(t[k]));
        }
        lemma_segments_single(u, sep);
        assert(t.contains(t.last()));
        assert(u.push(t.last()) =~= t);
        assert(segments(t, sep) =~= seq![t]);
    } else {
        assert(t =~= Seq::<A>::empty());
    }
}

/// Splitting takes apart what joining put together: pieces without the separator come out as they
/// went in.
pub proof fn lemma_split_of_joined<A>(parts: Seq<Seq<A>>, sep: A)
    requires
        parts.len() > 0,
        forall|i: int| 0 <= i < parts.len() ==> !(#[trigger] parts[i]).contains(sep),
    ensures
        segments(joined_with(parts, sep), sep) == parts,
    decreases parts.len(),
{
    if parts.len() == 1 {
        lemma_segments_single(parts[0], sep);
        assert(parts =~= seq![parts[0]]);
    } else {
        let first = parts.drop_last();
        assert forall|i: int| 0 <= i < first.len() implies !(#[trigger] first[i]).contains(sep) by {
            assert(first[i] == parts[i]);
        }
        lemma_split_of_joined(first, sep);
        assert(!parts[parts.len() - 1].contains(sep));
        lemma_segments_append(joined_with(first, sep), sep, parts.last());
        assert(first.push(parts.last()) =~= parts);
    }
}

proof fn lemma_joined_push<A>(parts: Seq<Seq<A>>, sep: A, c: A)
    requires
        parts.len() > 0,
    ensures
        joined_with(parts.drop_last().push(parts.last().push(c)), sep) == joined_with(
            parts,
            sep,
        ).push(c),
        joined_with(parts.push(Seq::empty()), sep) == joined_with(parts, sep).push(sep),
{
    let longer = parts.drop_last().push(parts.last().push(c));
    assert(longer.drop_last() =~= parts.drop_last());
    assert(joined_with(longer, sep) =~= joined_with(parts, sep).push(c));
    let more = parts.push(Seq::empty());
    assert(more.drop_last() =~= parts);
    assert(joined_with(more, sep) =~= joined_with(parts, sep).push(sep));
}

/// And the pieces of any text hold no separator and make up the text again.
pub proof fn lemma_split_joins_back<A>(s: Seq<A>, sep: A)
    ensures
        segments(s, sep).len() > 0,
        joined_with(segments(s, sep), sep) == s,
        forall|i: int| 0 <= i < segments(s, sep).len() ==> !(#[trigger] segments(s, sep)[i]).contains(sep),
    decreases s.len(),
{
    if s.len() == 0 {
        assert(joined_with(segments(s, sep), sep) =~= s);
    } else {
        let before = segments(s.drop_last(), sep);
        let all = segments(s, sep);
        lemma_split_joins_back(s.drop_last(), sep);
        lemma_joined_push(before, sep, s.last());
        assert(s.drop_last().push(s.last()) =~= s);
        assert forall|i: int| 0 <= i < all.len() implies !(#[trigger] all[i]).contains(sep) by {
            if i < before.len() - 1 || (s.last() == sep && i < before.len()) {
                assert(all[i] == before[i]);
            } else if s.last() == sep {
                assert(all[i] =~= Seq::<A>::empty());
            } else {
                assert(all[i] == before.last().push(s.last()));
                assert(!before[before.len() - 1].contains(sep));
                assert forall|k: int| 0 <= k < all[i].len() implies all[i][k] != sep by {
                    if k < before.last().len() {
                        assert(before.last().contains(before.last()[k]));
                    }
                }
            }
        }
    }
}

/// The decimal form of a number is made of digits, does not start with a zero unless it is that
/// digit alone, and stands for the number.
pub proof fn lemma_decimal_text(n: nat)
    ensures
        decimal_text(n).len() > 0,
        forall|k: int| 0 <= k < decimal_text(n).len() ==> '0' <= #[trigger] decimal_text(n)[k] <= '9',
        decimal_text(n)[0] == '0' ==> n == 0 && decimal_text(n).len() == 1,
        digits_value(decimal_text(n)) == n,
    decreases n,
{
    let s = decimal_text(n);
    if n >= 10 {
        lemma_decimal_text(n / 10);
        assert(s.drop_last() =~= decimal_text(n / 10));
        assert(s.last() == digit_char((n % 10) as int));
        assert(s[0] == decimal_text(n / 10)[0]);
    } else {
        assert(s.drop_last() =~= Seq::<char>::empty());
        assert(digits_value(s.drop_last()) == 0);
    }
}

/// A number in decimal is read back as it was written, with a plus sign in front too; it is refused
/// exactly when it is over the limit.
pub proof fn lemma_number_round_trip(n: nat, max: nat)
    ensures
        parsed_number(decimal_text(n), max) == (if n <= max {
            Some(n)
        } else {
            None
        }),
        parsed_number(seq!['+'] + decimal_text(n), max) == parsed_number(decimal_text(n), max),
{
    lemma_decimal_text(n);
    let s = decimal_text(n);
    assert(s[0] != '+');
    assert forall|k: int| 0 <= k < s.len() implies is_digit(#[trigger] s[k]) by {}
    let plus = seq!['+'] + s;
    assert(plus.subrange(1, plus.len() as int) =~= s);
}

/// What is read as a number is made of digits: a text with any other character in it, but for a
/// plus sign at its start, is none, and neither is one without digits.
pub proof fn lemma_no_number(s: Seq<char>, max: nat, k: int)
    requires
        s.len() == 0 || s == seq!['+'] || (0 <= k < s.len() && !('0' <= s[k] <= '9') && !(k == 0
            && s[k] == '+')),
    ensures
        parsed_number(s, max) is None,
{
    let d = unsigned_digits(s);
    if s.len() > 0 && s != seq!['+'] {
        if s[0] == '+' {
            assert(d[k - 1] == s[k]);
            assert(!is_digit(d[k - 1]));
        } else {
            assert(!is_digit(d[k]));
        }
    }
}

/// Hexadecimal digits of either case stand for their value, and nothing else does.
pub proof fn lemma_hex_digits(b: u8, v: int)
    requires
        0 <= v < 16,
    ensures
        hex_digit(hex_char(v) as u8) == Some(v),
        hex_digit(b) == hex_digit(lower_byte(b)),
        hex_digit(b) == Some(v) <==> lower_byte(b) == hex_char(v) as u8,
{
}

/// Two digits stand for one byte, and the high one goes first: the bytes of a text in hexadecimal
/// can be read off it again.
pub proof fn lemma_hex_text_reads_back(bytes: Seq<u8>, i: int)
    requires
        0 <= i < bytes.len(),
    ensures
        hex_text(bytes).len() == 2 * bytes.len(),
        hex_digit(hex_text(bytes)[2 * i] as u8) matches Some(hi) && hex_digit(
            hex_text(bytes)[2 * i + 1] as u8,
        ) matches Some(lo) && hi * 16 + lo == bytes[i],
{
    let b = bytes[i] as int;
    assert(hex_text(bytes)[2 * i] == hex_char(b / 16));
    assert(hex_text(bytes)[2 * i + 1] == hex_char(b % 16));
    lemma_hex_digits(0, b / 16);
    lemma_hex_digits(0, b % 16);
}

/// Cutting takes apart a text at the first separator, and only there.
pub proof fn lemma_cut_of_joined(a: Seq<char>, sep: char, b: Seq<char>)
    requires
        !a.contains(sep),
    ensures
        cut(a + seq![sep] + b, sep) == Some((a, b)),
        cut(a, sep) is None,
{
    let s = a + seq![sep] + b;
    let n = a.len() as int;
    assert(s[n] == sep);
    assert forall|k: int| 0 <= k < n implies s[k] != sep && a[k] != sep by {
        assert(a.contains(a[k]));
    }
    lemma_cut_at(s, sep, n);
    lemma_cut_none(a, sep);
    assert(s.subrange(0, n) =~= a);
    assert(s.subrange(n + 1, s.len() as int) =~= b);
}

/// A prefix is taken off exactly the texts that start with it.
pub proof fn lemma_without_prefix(s: Seq<char>, p: Seq<char>, rest: Seq<char>)
    ensures
        without_prefix(p + rest, p) == Some(rest),
        without_prefix(s, p) == Some(rest) <==> s == p + rest,
{
    let t = p + rest;
    assert(t.subrange(0, p.len() as int) =~= p);
    assert(t.subrange(p.len() as int, t.len() as int) =~= rest);
    if without_prefix(s, p) == Some(rest) {
        assert(s =~= p + rest);
    }
}

/// A text that is cut at a separator is put together again from its two pieces, and the first of
/// them holds no separator; one that is not cut has none.
pub proof fn lemma_cut_joins_back(s: Seq<char>, sep: char)
    ensures
        match cut(s, sep) {
            Some((a, b)) => s == a + seq![sep] + b && !a.contains(sep),
            None => !s.contains(sep),
        },
    decreases s.len(),
{
    if s.len() > 0 {
        let rest = s.subrange(1, s.len() as int);
        if s[0] == sep {
            assert(s =~= Seq::<char>::empty() + seq![sep] + rest);
        } else {
            lemma_cut_joins_back(rest, sep);
            match cut(rest, sep) {
                Some((a, b)) => {
                    let first = seq![s[0]] + a;
                    assert(s =~= seq![s[0]] + rest);
                    assert(seq![s[0]] + (a + seq![sep] + b) =~= first + seq![sep] + b);
                    if first.contains(sep) {
                        let k = choose|k: int| 0 <= k < first.len() && first[k] == sep;
                        assert(a[k - 1] == sep);
                    }
                },
                None => {
                    if s.contains(sep) {
                        let k = choose|k: int| 0 <= k < s.len() && s[k] == sep;
                        assert(rest[k - 1] == sep);
                    }
                },
            }
        }
    }
}

/// Whitespace is what Unicode says it is: the controls from tab to carriage return and the next
/// line, the spaces of every width, and the separators of lines and paragraphs.
pub proof fn lemma_unicode_whitespace(c: char)
    ensures
        is_whitespace(c) <==> ('\t' <= c <= '\r' || c == ' ' || c == '\u{85}' || c == '\u{a0}' || c
            == '\u{1680}' || '\u{2000}' <= c <= '\u{200a}' || c == '\u{2028}' || c == '\u{2029}' || c
            == '\u{202f}' || c == '\u{205f}' || c == '\u{3000}'),
{
}

} // verus!
