//! Host names in text form.

use crate::text::{self, chars_of, parse_number, split};
use vstd::prelude::*;

verus! {

/// Characters of a host name label; `_` only where `underscore` allows it.
pub open spec fn is_label_char(c: char, underscore: bool) -> bool {
    ||| 'a' <= c <= 'z'
    ||| 'A' <= c <= 'Z'
    ||| '0' <= c <= '9'
    ||| c == '-'
    ||| (underscore && c == '_')
}

/// One label: 1 to 63 label characters, with no `-` at either end.
pub open spec fn is_label(l: Seq<char>, underscore: bool) -> bool {
    &&& 1 <= l.len() <= 63
    &&& l[0] != '-'
    &&& l[l.len() - 1] != '-'
    &&& forall|k: int| 0 <= k < l.len() ==> is_label_char(#[trigger] l[k], underscore)
}

/// A host name: at most 253 characters, labels between dots.
pub open spec fn is_hostname(s: Seq<char>, underscore: bool) -> bool {
    &&& 1 <= s.len() <= 253
    &&& forall|k: int|
        0 <= k < text::segments(s, '.').len() ==> is_label(
            #[trigger] text::segments(s, '.')[k],
            underscore,
        )
}

/// A decimal octet as IPv4 literals write it: up to 255, without leading zeros.
pub open spec fn is_octet(s: Seq<char>) -> bool {
    &&& 1 <= s.len() <= 3
    &&& forall|k: int| 0 <= k < s.len() ==> text::is_digit(#[trigger] s[k])
    &&& s[0] == '0' ==> s.len() == 1
    &&& text::digits_value(s) <= 255
}

/// An IPv4 literal: four octets between dots.
pub open spec fn is_ipv4_literal(s: Seq<char>) -> bool {
    &&& text::segments(s, '.').len() == 4
    &&& forall|k: int| 0 <= k < 4 ==> is_octet(#[trigger] text::segments(s, '.')[k])
}

fn label_char(c: char, underscore: bool) -> (r: bool)
    ensures
        r == is_label_char(c, underscore),
{
    ('a' <= c && c <= 'z') || ('A' <= c && c <= 'Z') || ('0' <= c && c <= '9') || c == '-' || (
    underscore && c == '_')
}

fn label(l: &str, underscore: bool) -> (r: bool)
    ensures
        r == is_label(l@, underscore),
{
    let chars = chars_of(l);
    let n: usize = chars.len();
    if n == 0 || n > 63 || chars[0] == '-' || chars[n - 1] == '-' {
        return false;
    }
    for i in 0..n
        invariant
            chars@ == l@,
            n == l@.len(),
            forall|k: int| 0 <= k < i ==> is_label_char(#[trigger] l@[k], underscore),
    {
        if !label_char(chars[i], underscore) {
            assert(!is_label_char(l@[i as int], underscore));
            return false;
        }
    }
    true
}

/// Whether `s` is a host name.
pub fn hostname(s: &str, underscore: bool) -> (r: bool)
    ensures
        r == is_hostname(s@, underscore),
{
    let n: usize = chars_of(s).len();
    if n == 0 || n > 253 {
        return false;
    }
    let labels = split(s, '.');
    let ghost all = text::segments(s@, '.');
    assert(all.len() == labels@.len());
    for i in 0..labels.len()
        invariant
            text::views(labels@) == all,
            all == text::segments(s@, '.'),
            all.len() == labels@.len(),
            forall|k: int| 0 <= k < i ==> is_label(#[trigger] all[k], underscore),
    {
        assert(labels@[i as int]@ == all[i as int]);
        if !label(labels[i], underscore) {
            return false;
        }
    }
    true
}

fn octet(s: &str) -> (r: bool)
    ensures
        r == is_octet(s@),
{
    let chars = chars_of(s);
    let n: usize = chars.len();
    if n == 0 || n > 3 || (chars[0] == '0' && n > 1) || chars[0] == '+' {
        return false;
    }
    match parse_number(s, 255) {
        Some(_) => true,
        None => false,
    }
}

/// Whether `s` is an IPv4 literal.
pub fn ipv4_literal(s: &str) -> (r: bool)
    ensures
        r == is_ipv4_literal(s@),
{
    let parts = split(s, '.');
    let ghost all = text::segments(s@, '.');
    assert(all.len() == parts@.len());
    if parts.len() != 4 {
        return false;
    }
    for i in 0..4
        invariant
            text::views(parts@) == all,
            all == text::segments(s@, '.'),
            all.len() == 4,
            parts@.len() == 4,
            forall|k: int| 0 <= k < i ==> is_octet(#[trigger] all[k]),
    {
        assert(parts@[i as int]@ == all[i as int]);
        if !octet(parts[i]) {
            return false;
        }
    }
    true
}

/// Which names are host names, label by label: each label has 1 to 63 letters, digits, hyphens
/// that are not at its ends and, where they are allowed, underscores; the whole name has at most
/// 253 characters.
pub proof fn lemma_host_names_are_labels(labels: Seq<Seq<char>>, underscore: bool)
    requires
        labels.len() > 0,
        forall|i: int| 0 <= i < labels.len() ==> !(#[trigger] labels[i]).contains('.'),
    ensures
        is_hostname(text::joined_with(labels, '.'), underscore) <==> {
            &&& text::joined_with(labels, '.').len() <= 253
            &&& forall|i: int|
                0 <= i < labels.len() ==> 1 <= (#[trigger] labels[i]).len() <= 63 && labels[i][0]
                    != '-' && labels[i][labels[i].len() - 1] != '-'
            &&& forall|i: int, k: int|
                0 <= i < labels.len() && 0 <= k < labels[i].len() ==> {
                    let c = #[trigger] labels[i][k];
                    'a' <= c <= 'z' || 'A' <= c <= 'Z' || '0' <= c <= '9' || c == '-' || (underscore
                        && c == '_')
                }
        },
{
    let s = text::joined_with(labels, '.');
    text::lemma_split_of_joined(labels, '.');
    let all = text::segments(s, '.');
    assert(all == labels);
    let fine = {
        &&& s.len() <= 253
        &&& forall|i: int|
            0 <= i < labels.len() ==> 1 <= (#[trigger] labels[i]).len() <= 63 && labels[i][0] != '-'
                && labels[i][labels[i].len() - 1] != '-'
        &&& forall|i: int, k: int|
            0 <= i < labels.len() && 0 <= k < labels[i].len() ==> {
                let c = #[trigger] labels[i][k];
                'a' <= c <= 'z' || 'A' <= c <= 'Z' || '0' <= c <= '9' || c == '-' || (underscore && c
                    == '_')
            }
    };
    if fine {
        assert forall|i: int| 0 <= i < all.len() implies is_label(#[trigger] all[i], underscore) by {
            assert(1 <= labels[i].len() <= 63);
            assert forall|k: int| 0 <= k < labels[i].len() implies is_label_char(
                #[trigger] labels[i][k],
                underscore,
            ) by {}
        }
        assert(labels[0].len() >= 1);
        lemma_joined_nonempty(labels);
    }
    if is_hostname(s, underscore) {
        assert forall|i: int| 0 <= i < labels.len() implies 1 <= (#[trigger] labels[i]).len() <= 63
            && labels[i][0] != '-' && labels[i][labels[i].len() - 1] != '-' by {
            assert(is_label(all[i], underscore));
        }
        assert forall|i: int, k: int| 0 <= i < labels.len() && 0 <= k < labels[i].len() implies ({
            let c = #[trigger] labels[i][k];
            'a' <= c <= 'z' || 'A' <= c <= 'Z' || '0' <= c <= '9' || c == '-' || (underscore && c
                == '_')
        }) by {
            assert(is_label(all[i], underscore));
            assert(is_label_char(labels[i][k], underscore));
        }
    }
}

proof fn lemma_joined_nonempty(labels: Seq<Seq<char>>)
    requires
        labels.len() > 0,
        labels[0].len() > 0,
    ensures
        text::joined_with(labels, '.').len() > 0,
{
}

/// Allowing underscores takes no name away, and adds only names with underscores in them.
pub proof fn lemma_underscores_only_add_names(s: Seq<char>)
    ensures
        is_hostname(s, false) <==> is_hostname(s, true) && !s.contains('_'),
{
    let all = text::segments(s, '.');
    text::lemma_split_joins_back(s, '.');
    if is_hostname(s, false) {
        assert forall|i: int| 0 <= i < all.len() implies is_label(#[trigger] all[i], true) by {
            assert(is_label(all[i], false));
            assert forall|k: int| 0 <= k < all[i].len() implies is_label_char(
                #[trigger] all[i][k],
                true,
            ) by {
                assert(is_label_char(all[i][k], false));
            }
        }
        assert(!s.contains('_')) by {
            if s.contains('_') {
                let k = choose|k: int| 0 <= k < s.len() && s[k] == '_';
                text::lemma_segments_cover(s, '.', k);
                let (i, j) = choose|i: int, j: int|
                    0 <= i < all.len() && 0 <= j < (#[trigger] all[i]).len() && #[trigger] all[i][j]
                        == s[k];
                assert(is_label(all[i], false));
                assert(is_label_char(all[i][j], false));
            }
        }
    }
    if is_hostname(s, true) && !s.contains('_') {
        assert forall|i: int| 0 <= i < all.len() implies is_label(#[trigger] all[i], false) by {
            assert(is_label(all[i], true));
            assert forall|k: int| 0 <= k < all[i].len() implies is_label_char(
                #[trigger] all[i][k],
                false,
            ) by {
                assert(is_label_char(all[i][k], true));
                lemma_piece_char(all, '.', i, k);
                assert(s.contains(all[i][k]));
            }
        }
    }
}

proof fn lemma_piece_char(parts: Seq<Seq<char>>, sep: char, i: int, k: int)
    requires
        0 <= i < parts.len(),
        0 <= k < parts[i].len(),
    ensures
        text::joined_with(parts, sep).contains(parts[i][k]),
    decreases parts.len(),
{
    let all = text::joined_with(parts, sep);
    if parts.len() > 1 {
        let front = text::joined_with(parts.drop_last(), sep);
        if i == parts.len() - 1 {
            assert(all[front.len() + 1 + k] == parts[i][k]);
        } else {
            lemma_piece_char(parts.drop_last(), sep, i, k);
            let at = choose|at: int| 0 <= at < front.len() && front[at] == parts[i][k];
            assert(all[at] == parts[i][k]);
        }
    }
}

proof fn lemma_digit_text(c: char)
    requires
        text::is_digit(c),
    ensures
        c == text::digit_char(c as int - '0' as int),
{
}

/// An octet is a number up to 255 as it is written in decimal, and an IPv4 literal is four of them
/// between dots.
pub proof fn lemma_ipv4_literals_are_four_octets(s: Seq<char>, octets: Seq<nat>)
    requires
        octets.len() == 4,
    ensures
        is_ipv4_literal(s) ==> text::segments(s, '.').len() == 4 && forall|i: int|
            0 <= i < 4 ==> {
                let n = text::digits_value(#[trigger] text::segments(s, '.')[i]);
                n <= 255 && text::segments(s, '.')[i] == text::decimal_text(n)
            },
        (forall|i: int| 0 <= i < 4 ==> (#[trigger] octets[i]) <= 255) ==> is_ipv4_literal(
            text::joined_with(Seq::new(4, |i: int| text::decimal_text(octets[i])), '.'),
        ),
{
    if is_ipv4_literal(s) {
        assert forall|i: int| 0 <= i < 4 implies ({
            let n = text::digits_value(#[trigger] text::segments(s, '.')[i]);
            n <= 255 && text::segments(s, '.')[i] == text::decimal_text(n)
        }) by {
            lemma_octet_text(text::segments(s, '.')[i]);
        }
    }
    if forall|i: int| 0 <= i < 4 ==> (#[trigger] octets[i]) <= 255 {
        let parts = Seq::new(4, |i: int| text::decimal_text(octets[i]));
        assert forall|i: int| 0 <= i < 4 implies is_octet(#[trigger] parts[i])
            && !parts[i].contains('.') by {
            assert(octets[i] <= 255);
            text::lemma_decimal_text(octets[i]);
            let p = parts[i];
            assert forall|k: int| 0 <= k < p.len() implies text::is_digit(#[trigger] p[k]) by {}
            lemma_short_decimal(octets[i]);
        }
        text::lemma_split_of_joined(parts, '.');
    }
}

proof fn lemma_short_decimal(n: nat)
    requires
        n <= 255,
    ensures
        text::decimal_text(n).len() <= 3,
{
    reveal_with_fuel(text::decimal_text, 3);
}

proof fn lemma_octet_text(s: Seq<char>)
    requires
        is_octet(s),
    ensures
        s == text::decimal_text(text::digits_value(s)),
{
    reveal_with_fuel(text::decimal_text, 3);
    reveal_with_fuel(text::digits_value, 4);
    assert(text::is_digit(s[0]));
    lemma_digit_text(s[0]);
    if s.len() == 1 {
        assert(s.drop_last() =~= Seq::<char>::empty());
        assert(s =~= text::decimal_text(text::digits_value(s)));
    } else if s.len() == 2 {
        assert(text::is_digit(s[1]));
        lemma_digit_text(s[1]);
        let t = s.drop_last();
        assert(t.drop_last() =~= Seq::<char>::empty());
        assert(s =~= text::decimal_text(text::digits_value(s)));
    } else {
        assert(text::is_digit(s[1]));
        assert(text::is_digit(s[2]));
        lemma_digit_text(s[1]);
        lemma_digit_text(s[2]);
        let t = s.drop_last();
        let u = t.drop_last();
        assert(u.drop_last() =~= Seq::<char>::empty());
        assert(text::digits_value(u) == s[0] as int - 48);
        assert(text::digits_value(t) == 10 * (s[0] as int - 48) + (s[1] as int - 48));
        assert(s =~= text::decimal_text(text::digits_value(s)));
    }
}

} // verus!
