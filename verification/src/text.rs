//! Text: comparison, trimming, searching, and decimal numbers over sequences of characters.

use vstd::prelude::*;
use vstd::string::*;
use vstd::utf8::*;

verus! {

/// Specifies `String::push`: the character is appended to the end of the string.
pub assume_specification[ String::push ](s: &mut String, c: char)
    ensures
        final(s)@ == old(s)@.push(c),
;

/// The characters with the Unicode property `White_Space`.
pub open spec fn is_white_space(c: char) -> bool {
    ||| '\u{9}' <= c <= '\u{d}'
    ||| c == ' '
    ||| c == '\u{85}'
    ||| c == '\u{a0}'
    ||| c == '\u{1680}'
    ||| '\u{2000}' <= c <= '\u{200a}'
    ||| c == '\u{2028}'
    ||| c == '\u{2029}'
    ||| c == '\u{202f}'
    ||| c == '\u{205f}'
    ||| c == '\u{3000}'
}

pub fn white_space(c: char) -> (r: bool)
    ensures
        r == is_white_space(c),
{
    ('\u{9}' <= c && c <= '\u{d}') || c == ' ' || c == '\u{85}' || c == '\u{a0}' || c == '\u{1680}'
        || ('\u{2000}' <= c && c <= '\u{200a}') || c == '\u{2028}' || c == '\u{2029}' || c
        == '\u{202f}' || c == '\u{205f}' || c == '\u{3000}'
}

proof fn lemma_bytes_determine_text(a: &str, b: &str)
    ensures
        a.spec_bytes() == b.spec_bytes() <==> a@ == b@,
{
    encode_utf8_decode_utf8(a@);
    encode_utf8_decode_utf8(b@);
}

/// Whether two texts hold the same characters.
pub fn text_eq(a: &str, b: &str) -> (r: bool)
    ensures
        r == (a@ == b@),
{
    proof {
        lemma_bytes_determine_text(a, b);
    }
    let left = a.as_bytes();
    let right = b.as_bytes();
    if left.len() != right.len() {
        return false;
    }
    let mut i: usize = 0;
    while i < left.len()
        invariant
            left@.len() == right@.len(),
            left@ == a.spec_bytes(),
            right@ == b.spec_bytes(),
            a.spec_bytes() == b.spec_bytes() <==> a@ == b@,
            i <= left@.len(),
            forall|j: int| 0 <= j < i ==> left@[j] == right@[j],
        decreases left@.len() - i,
    {
        if left[i] != right[i] {
            return false;
        }
        i += 1;
    }
    assert(left@ =~= right@);
    true
}

/// The characters of a text.
pub fn chars_of(s: &str) -> (v: Vec<char>)
    ensures
        v@ == s@,
{
    let mut v: Vec<char> = Vec::new();
    for c in it: s.chars()
        invariant
            it.seq() == s@,
            v@ == s@.take(it.index()),
    {
        v.push(c);
        assert(v@ =~= s@.take(it.index() + 1));
    }
    assert(v@ =~= s@);
    v
}

/// `c` with an ASCII capital letter turned into its small letter.
pub open spec fn ascii_lower_char(c: char) -> char {
    if 'A' <= c <= 'Z' {
        (c as int + 32) as char
    } else {
        c
    }
}

/// `s` with every ASCII capital letter turned into its small letter.
pub open spec fn ascii_lower(s: Seq<char>) -> Seq<char> {
    s.map_values(|c: char| ascii_lower_char(c))
}

pub fn lower_char(c: char) -> (r: char)
    ensures
        r == ascii_lower_char(c),
{
    if 'A' <= c && c <= 'Z' {
        let code: u8 = c as u8;
        (code + 32) as char
    } else {
        c
    }
}

pub fn to_ascii_lowercase(s: &str) -> (r: String)
    ensures
        r@ == ascii_lower(s@),
{
    let mut r = String::new();
    for c in it: s.chars()
        invariant
            it.seq() == s@,
            r@ == ascii_lower(s@.take(it.index())),
    {
        r.push(lower_char(c));
        assert(r@ =~= ascii_lower(s@.take(it.index() + 1)));
    }
    assert(s@.take(s@.len() as int) =~= s@);
    r
}

pub fn eq_ignore_ascii_case(a: &str, b: &str) -> (r: bool)
    ensures
        r == (ascii_lower(a@) == ascii_lower(b@)),
{
    let left = to_ascii_lowercase(a);
    let right = to_ascii_lowercase(b);
    left == right
}

/// `s` without its leading white space.
pub open spec fn trim_start_seq(s: Seq<char>) -> Seq<char>
    decreases s.len(),
{
    if s.len() > 0 && is_white_space(s[0]) {
        trim_start_seq(s.drop_first())
    } else {
        s
    }
}

/// `s` without its trailing white space.
pub open spec fn trim_end_seq(s: Seq<char>) -> Seq<char>
    decreases s.len(),
{
    if s.len() > 0 && is_white_space(s.last()) {
        trim_end_seq(s.drop_last())
    } else {
        s
    }
}

/// `s` without the white space at both of its ends.
pub open spec fn trim_seq(s: Seq<char>) -> Seq<char> {
    trim_end_seq(trim_start_seq(s))
}

/// Trims the white space at both ends of a text.
pub fn trim<'a>(s: &'a str) -> (r: &'a str)
    ensures
        r@ == trim_seq(s@),
{
    let chars = chars_of(s);
    let mut from: usize = 0;
    assert(s@.skip(0) =~= s@);
    while from < chars.len() && white_space(chars[from])
        invariant
            from <= chars@.len(),
            trim_start_seq(s@) == trim_start_seq(s@.skip(from as int)),
            chars@ == s@,
        decreases chars@.len() - from,
    {
        assert(s@.skip(from as int).drop_first() =~= s@.skip(from + 1));
        from += 1;
    }
    proof {
        assert(trim_start_seq(s@) == s@.skip(from as int));
        assert(s@.skip(from as int) =~= s@.subrange(from as int, s@.len() as int));
    }
    let mut to: usize = chars.len();
    while from < to && white_space(chars[to - 1])
        invariant
            from <= to <= chars@.len(),
            trim_seq(s@) == trim_end_seq(s@.subrange(from as int, to as int)),
            chars@ == s@,
        decreases to,
    {
        assert(s@.subrange(from as int, to as int).drop_last() =~= s@.subrange(
            from as int,
            to - 1,
        ));
        to -= 1;
    }
    s.substring_char(from, to)
}

/// Where `c` first stands in `s`, or the length of `s` where it does not occur.
pub open spec fn first_index(s: Seq<char>, c: char) -> int
    decreases s.len(),
{
    if s.len() == 0 {
        0
    } else if s[0] == c {
        0
    } else {
        1 + first_index(s.drop_first(), c)
    }
}

pub proof fn lemma_first_index(s: Seq<char>, c: char)
    ensures
        0 <= first_index(s, c) <= s.len(),
        first_index(s, c) < s.len() ==> s[first_index(s, c)] == c,
        forall|i: int| 0 <= i < first_index(s, c) ==> s[i] != c,
        first_index(s, c) < s.len() <==> s.contains(c),
    decreases s.len(),
{
    if s.len() > 0 && s[0] != c {
        let tail = s.drop_first();
        lemma_first_index(tail, c);
        assert forall|i: int| 0 <= i < first_index(s, c) implies s[i] != c by {
            if i > 0 {
                assert(s[i] == tail[i - 1]);
            }
        }
        if s.contains(c) {
            let i = choose|i: int| 0 <= i < s.len() && s[i] == c;
            assert(tail[i - 1] == c);
            assert(tail.contains(c));
        }
    }
}

/// The parts of `s` before and after its first `c`.
pub open spec fn split_once_seq(s: Seq<char>, c: char) -> Option<(Seq<char>, Seq<char>)> {
    let i = first_index(s, c);
    if i < s.len() {
        Some((s.take(i), s.skip(i + 1)))
    } else {
        None
    }
}

/// Where `c` first stands in `chars`, if it does.
pub fn find_char(chars: &[char], c: char) -> (r: usize)
    ensures
        r == first_index(chars@, c),
        r <= chars@.len(),
{
    let mut i: usize = 0;
    assert(chars@.skip(0) =~= chars@);
    while i < chars.len() && chars[i] != c
        invariant
            i <= chars@.len(),
            first_index(chars@, c) == i + first_index(chars@.skip(i as int), c),
        decreases chars@.len() - i,
    {
        assert(chars@.skip(i as int).drop_first() =~= chars@.skip(i + 1));
        i += 1;
    }
    i
}

/// Splits a text at the first `c`.
pub fn split_once<'a>(s: &'a str, c: char) -> (r: Option<(&'a str, &'a str)>)
    ensures
        match r {
            Some((before, after)) => split_once_seq(s@, c) == Some((before@, after@)),
            None => split_once_seq(s@, c) is None,
        },
{
    let chars = chars_of(s);
    let at = find_char(chars.as_slice(), c);
    if at < chars.len() {
        let before = s.substring_char(0, at);
        let after = s.substring_char(at + 1, chars.len());
        assert(before@ =~= s@.take(at as int));
        assert(after@ =~= s@.skip(at + 1));
        Some((before, after))
    } else {
        None
    }
}

/// The part of `s` after its last `c`, or the whole of `s`.
pub open spec fn after_last(s: Seq<char>, c: char) -> Seq<char>
    decreases s.len(),
{
    let i = first_index(s, c);
    if 0 <= i < s.len() {
        after_last(s.skip(i + 1), c)
    } else {
        s
    }
}

/// The pieces of `s` between the occurrences of `c`.
pub open spec fn split_seq(s: Seq<char>, c: char) -> Seq<Seq<char>>
    decreases s.len(),
{
    let i = first_index(s, c);
    if 0 <= i < s.len() {
        seq![s.take(i)] + split_seq(s.skip(i + 1), c)
    } else {
        seq![s]
    }
}

/// Whether `part` stands somewhere in `s`.
pub open spec fn contains_seq(s: Seq<char>, part: Seq<char>) -> bool {
    exists|i: int| #![trigger s.skip(i)] 0 <= i <= s.len() && part.is_prefix_of(s.skip(i))
}

/// Whether `part` stands in `chars` at position `at`.
pub fn stands_at(chars: &[char], at: usize, part: &[char]) -> (r: bool)
    requires
        at <= chars@.len(),
    ensures
        r == part@.is_prefix_of(chars@.skip(at as int)),
{
    if chars.len() - at < part.len() {
        return false;
    }
    let mut i: usize = 0;
    while i < part.len()
        invariant
            at + part@.len() <= chars@.len() <= usize::MAX,
            i <= part@.len(),
            forall|j: int| 0 <= j < i ==> part@[j] == chars@.skip(at as int)[j],
        decreases part@.len() - i,
    {
        if chars[at + i] != part[i] {
            assert(part@[i as int] != chars@.skip(at as int)[i as int]);
            assert(!part@.is_prefix_of(chars@.skip(at as int)));
            return false;
        }
        i += 1;
    }
    assert(part@ =~= chars@.skip(at as int).subrange(0, part@.len() as int));
    true
}

pub fn contains_text(s: &str, part: &str) -> (r: bool)
    ensures
        r == contains_seq(s@, part@),
{
    let chars = chars_of(s);
    let wanted = chars_of(part);
    let mut i: usize = 0;
    loop
        invariant
            i <= chars@.len(),
            chars@ == s@,
            wanted@ == part@,
            forall|j: int| #![trigger s@.skip(j)]
                0 <= j < i ==> !part@.is_prefix_of(s@.skip(j)),
        decreases chars@.len() - i,
    {
        if stands_at(chars.as_slice(), i, wanted.as_slice()) {
            return true;
        }
        if i == chars.len() {
            return false;
        }
        i += 1;
    }
}

pub fn contains_char(s: &str, c: char) -> (r: bool)
    ensures
        r == s@.contains(c),
{
    let chars = chars_of(s);
    proof {
        lemma_first_index(s@, c);
    }
    find_char(chars.as_slice(), c) < chars.len()
}

/// Whether `s` begins with `prefix`.
pub fn starts_with(s: &str, prefix: &str) -> (r: bool)
    ensures
        r == prefix@.is_prefix_of(s@),
{
    let chars = chars_of(s);
    let wanted = chars_of(prefix);
    assert(s@.skip(0) =~= s@);
    stands_at(chars.as_slice(), 0, wanted.as_slice())
}

/// What is left of `s` behind `prefix`.
pub fn strip_prefix<'a>(s: &'a str, prefix: &str) -> (r: Option<&'a str>)
    ensures
        match r {
            Some(rest) => prefix@.is_prefix_of(s@) && rest@ == s@.skip(prefix@.len() as int),
            None => !prefix@.is_prefix_of(s@),
        },
{
    if starts_with(s, prefix) {
        let from: usize = prefix.unicode_len();
        let to: usize = s.unicode_len();
        let rest = s.substring_char(from, to);
        assert(rest@ =~= s@.skip(from as int));
        Some(rest)
    } else {
        None
    }
}

/// The decimal digit of a number below ten.
pub open spec fn digit_char(n: nat) -> char {
    ('0' as nat + n) as char
}

/// A number in decimal notation, without leading zeros.
pub open spec fn decimal(n: nat) -> Seq<char>
    decreases n,
{
    if n < 10 {
        seq![digit_char(n)]
    } else {
        decimal(n / 10).push(digit_char(n % 10))
    }
}

/// Appends a number in decimal notation.
pub fn push_decimal(s: &mut String, n: u64)
    ensures
        final(s)@ == old(s)@ + decimal(n as nat),
    decreases n,
{
    if n >= 10 {
        push_decimal(s, n / 10);
    }
    let code: u8 = 48 + (n % 10) as u8;
    s.push(code as char);
    assert(s@ =~= old(s)@ + decimal(n as nat));
}

pub fn decimal_string(n: u64) -> (s: String)
    ensures
        s@ == decimal(n as nat),
{
    let mut s = String::new();
    push_decimal(&mut s, n);
    assert(s@ =~= decimal(n as nat));
    s
}

pub open spec fn is_digit(c: char) -> bool {
    '0' <= c <= '9'
}

pub open spec fn all_digits(s: Seq<char>) -> bool {
    forall|i: int| 0 <= i < s.len() ==> is_digit(#[trigger] s[i])
}

/// The number that a sequence of digits denotes.
pub open spec fn digits_value(s: Seq<char>) -> nat
    decreases s.len(),
{
    if s.len() == 0 {
        0
    } else {
        digits_value(s.drop_last()) * 10 + (s.last() as nat - '0' as nat) as nat
    }
}

/// The digits of a number that may be written with a plus sign.
pub open spec fn unsigned_body(s: Seq<char>) -> Seq<char> {
    if s.len() > 0 && s[0] == '+' {
        s.drop_first()
    } else {
        s
    }
}

/// The number from 0 to `max` that `s` denotes: one digit or more, behind an optional plus sign.
pub open spec fn parse_unsigned(s: Seq<char>, max: nat) -> Option<nat> {
    let body = unsigned_body(s);
    if body.len() > 0 && all_digits(body) && digits_value(body) <= max {
        Some(digits_value(body))
    } else {
        None
    }
}

proof fn lemma_digits_value_prefix(s: Seq<char>, k: int)
    requires
        0 <= k <= s.len(),
        all_digits(s),
    ensures
        digits_value(s.take(k)) <= digits_value(s),
    decreases s.len() - k,
{
    if k < s.len() {
        lemma_digits_value_prefix(s, k + 1);
        assert(s.take(k + 1).drop_last() =~= s.take(k));
        assert(is_digit(s[k]));
    } else {
        assert(s.take(k) =~= s);
    }
}

/// Reads a number from 0 to `max`.
pub fn parse_number(s: &str, max: u64) -> (r: Option<u64>)
    ensures
        match r {
            Some(n) => parse_unsigned(s@, max as nat) == Some(n as nat),
            None => parse_unsigned(s@, max as nat) is None,
        },
{
    let chars = chars_of(s);
    let mut start: usize = 0;
    if chars.len() > 0 && chars[0] == '+' {
        start = 1;
    }
    let ghost body = unsigned_body(s@);
    assert(body =~= s@.skip(start as int));
    if start == chars.len() {
        return None;
    }
    let mut i: usize = start;
    let mut value: u64 = 0;
    while i < chars.len()
        invariant
            start <= i <= chars@.len(),
            chars@ == s@,
            body == s@.skip(start as int),
            body == unsigned_body(s@),
            all_digits(body.take(i - start)),
            value == digits_value(body.take(i - start)),
            value <= max,
        decreases chars@.len() - i,
    {
        let c = chars[i];
        let ghost k = i - start;
        assert(c == body[k]);
        if c < '0' || c > '9' {
            assert(!is_digit(body[k]));
            return None;
        }
        let digit: u64 = c as u64 - '0' as u64;
        assert(body.take(k + 1).drop_last() =~= body.take(k));
        proof {
            if all_digits(body) {
                lemma_digits_value_prefix(body, k + 1);
            }
        }
        let next: u128 = value as u128 * 10 + digit as u128;
        if next > max as u128 {
            return None;
        }
        value = next as u64;
        i += 1;
        assert forall|j: int| 0 <= j < k + 1 implies is_digit(#[trigger] body.take(k + 1)[j]) by {
            if j < k {
                assert(body.take(k + 1)[j] == body.take(k)[j]);
            }
        }
    }
    assert(body.take(i - start) =~= body);
    Some(value)
}

/// Decimal notation consists of digits that denote the number.
pub proof fn lemma_decimal_digits(n: nat)
    ensures
        decimal(n).len() > 0,
        all_digits(decimal(n)),
        digits_value(decimal(n)) == n,
    decreases n,
{
    if n < 10 {
        assert(decimal(n).drop_last() =~= Seq::<char>::empty());
        assert(digits_value(decimal(n).drop_last()) == 0);
        assert(is_digit(digit_char(n)));
    } else {
        lemma_decimal_digits(n / 10);
        assert(decimal(n).drop_last() =~= decimal(n / 10));
        assert forall|i: int| 0 <= i < decimal(n).len() implies is_digit(#[trigger] decimal(n)[i]) by {
            if i < decimal(n).len() - 1 {
                assert(decimal(n)[i] == decimal(n / 10)[i]);
            } else {
                assert(is_digit(digit_char(n % 10)));
            }
        }
    }
}

/// Reading a number that was written in decimal notation gives the number back.
pub proof fn lemma_decimal_round_trip(n: nat, max: nat)
    requires
        n <= max,
    ensures
        parse_unsigned(decimal(n), max) == Some(n),
{
    lemma_decimal_digits(n);
    assert(is_digit(decimal(n)[0]));
    assert(unsigned_body(decimal(n)) == decimal(n));
}

/// The part of a text behind the last `c`, or the whole text.
pub fn after_last_char<'a>(s: &'a str, c: char) -> (r: &'a str)
    ensures
        r@ == after_last(s@, c),
    decreases s@.len(),
{
    match split_once(s, c) {
        Some((_, after)) => {
            proof {
                lemma_first_index(s@, c);
            }
            after_last_char(after, c)
        },
        None => {
            proof {
                lemma_first_index(s@, c);
            }
            s
        },
    }
}

/// One text behind another.
pub fn joined(a: &str, b: &str) -> (r: String)
    ensures
        r@ == a@ + b@,
{
    let mut s = a.to_owned();
    s.append(b);
    s
}

/// A number between two texts.
pub fn around_number(before: &str, n: u64, after: &str) -> (r: String)
    ensures
        r@ == before@ + decimal(n as nat) + after@,
{
    let mut s = before.to_owned();
    push_decimal(&mut s, n);
    s.append(after);
    s
}

pub open spec fn views_of(parts: Seq<&str>) -> Seq<Seq<char>> {
    parts.map_values(|part: &str| part@)
}

/// Splits a text at every `c`.
pub fn split<'a>(s: &'a str, c: char) -> (r: Vec<&'a str>)
    ensures
        views_of(r@) == split_seq(s@, c),
        r@.len() > 0,
{
    let chars = chars_of(s);
    let mut parts: Vec<&'a str> = Vec::new();
    let mut from: usize = 0;
    let mut at: usize = 0;
    assert(s@.skip(0) =~= s@);
    assert(views_of(parts@) + split_seq(s@, c) =~= split_seq(s@, c));
    while at < chars.len()
        invariant
            chars@ == s@,
            from <= at <= chars@.len(),
            forall|j: int| from <= j < at ==> chars@[j] != c,
            views_of(parts@) + split_seq(s@.skip(from as int), c) == split_seq(s@, c),
        decreases chars@.len() - at,
    {
        if chars[at] == c {
            let part = s.substring_char(from, at);
            let ghost rest = s@.skip(from as int);
            let ghost earlier = views_of(parts@);
            proof {
                lemma_first_index_is(rest, c, at - from);
                assert(part@ =~= rest.take(at - from));
                assert(rest.skip(at - from + 1) =~= s@.skip(at + 1));
            }
            parts.push(part);
            assert(views_of(parts@) =~= earlier.push(part@));
            assert(earlier + split_seq(rest, c) =~= views_of(parts@) + split_seq(
                s@.skip(at + 1),
                c,
            ));
            from = at + 1;
        }
        at += 1;
    }
    let part = s.substring_char(from, chars.len());
    let ghost rest = s@.skip(from as int);
    let ghost earlier = views_of(parts@);
    proof {
        lemma_first_index_is(rest, c, rest.len() as int);
        assert(part@ =~= rest);
    }
    parts.push(part);
    assert(views_of(parts@) =~= earlier + split_seq(rest, c));
    parts
}

proof fn lemma_first_index_is(s: Seq<char>, c: char, at: int)
    requires
        0 <= at <= s.len(),
        forall|j: int| 0 <= j < at ==> s[j] != c,
        at < s.len() ==> s[at] == c,
    ensures
        first_index(s, c) == at,
{
    lemma_first_index(s, c);
}

/// `s` without every `c` at its beginning.
pub open spec fn skip_leading(s: Seq<char>, c: char) -> Seq<char>
    decreases s.len(),
{
    if s.len() > 0 && s[0] == c {
        skip_leading(s.drop_first(), c)
    } else {
        s
    }
}

pub fn trim_start_matches<'a>(s: &'a str, c: char) -> (r: &'a str)
    ensures
        r@ == skip_leading(s@, c),
{
    let chars = chars_of(s);
    let mut from: usize = 0;
    assert(s@.skip(0) =~= s@);
    while from < chars.len() && chars[from] == c
        invariant
            from <= chars@.len(),
            chars@ == s@,
            skip_leading(s@, c) == skip_leading(s@.skip(from as int), c),
        decreases chars@.len() - from,
    {
        assert(s@.skip(from as int).drop_first() =~= s@.skip(from + 1));
        from += 1;
    }
    let rest = s.substring_char(from, chars.len());
    assert(rest@ =~= s@.skip(from as int));
    rest
}

/// An integer in decimal notation.
pub open spec fn signed_decimal(n: int) -> Seq<char> {
    if n < 0 {
        seq!['-'] + decimal((-n) as nat)
    } else {
        decimal(n as nat)
    }
}

pub fn push_signed(s: &mut String, n: i32)
    ensures
        final(s)@ == old(s)@ + signed_decimal(n as int),
{
    let n = n as i64;
    if n < 0 {
        s.push('-');
        push_decimal(s, (-n) as u64);
        assert(s@ =~= old(s)@ + signed_decimal(n as int));
    } else {
        push_decimal(s, n as u64);
    }
}

/// Where `part` first stands in `s`.
pub open spec fn find_seq(s: Seq<char>, part: Seq<char>) -> Option<int>
    decreases s.len(),
{
    if part.is_prefix_of(s) {
        Some(0)
    } else if s.len() == 0 {
        None
    } else {
        match find_seq(s.drop_first(), part) {
            Some(i) => Some(i + 1),
            None => None,
        }
    }
}

/// The parts of `s` before and after the first `part`.
pub open spec fn split_at_seq(s: Seq<char>, part: Seq<char>) -> Option<(Seq<char>, Seq<char>)> {
    match find_seq(s, part) {
        Some(i) => Some((s.take(i), s.skip(i + part.len()))),
        None => None,
    }
}

/// Splits a text at the first `part`.
pub fn split_at_text<'a>(s: &'a str, part: &str) -> (r: Option<(&'a str, &'a str)>)
    ensures
        match r {
            Some((before, after)) => split_at_seq(s@, part@) == Some((before@, after@)),
            None => split_at_seq(s@, part@) is None,
        },
{
    let chars = chars_of(s);
    let wanted = chars_of(part);
    let mut i: usize = 0;
    assert(s@.skip(0) =~= s@);
    loop
        invariant
            i <= chars@.len(),
            chars@ == s@,
            wanted@ == part@,
            find_seq(s@, part@) == match find_seq(s@.skip(i as int), part@) {
                Some(k) => Some(k + i),
                None => None,
            },
        decreases chars@.len() - i,
    {
        if stands_at(chars.as_slice(), i, wanted.as_slice()) {
            assert(part@.len() <= s@.len() - i);
            let length: usize = chars.len();
            let width: usize = wanted.len();
            assert(i + width <= length);
            let before = s.substring_char(0, i);
            let after = s.substring_char(i + width, length);
            assert(before@ =~= s@.take(i as int));
            assert(after@ =~= s@.skip(i + part@.len()));
            return Some((before, after));
        }
        if i == chars.len() {
            return None;
        }
        assert(s@.skip(i as int).drop_first() =~= s@.skip(i + 1));
        i += 1;
    }
}

/// Whether `s` ends with `part`.
pub open spec fn ends_with_seq(s: Seq<char>, part: Seq<char>) -> bool {
    part.len() <= s.len() && s.skip(s.len() - part.len()) == part
}

pub fn ends_with(s: &str, part: &str) -> (r: bool)
    ensures
        r == ends_with_seq(s@, part@),
{
    let length = s.unicode_len();
    let wanted = part.unicode_len();
    if wanted > length {
        return false;
    }
    let tail = s.substring_char(length - wanted, length);
    assert(tail@ =~= s@.skip(s@.len() - part@.len()));
    text_eq(tail, part)
}

/// Texts with a separator between them.
pub open spec fn joined_with(parts: Seq<Seq<char>>, separator: Seq<char>) -> Seq<char>
    decreases parts.len(),
{
    if parts.len() == 0 {
        Seq::empty()
    } else if parts.len() == 1 {
        parts[0]
    } else {
        joined_with(parts.drop_last(), separator) + separator + parts.last()
    }
}

/// Joins texts with a separator between them.
pub fn join(parts: &Vec<String>, separator: &str) -> (r: String)
    ensures
        r@ == joined_with(crate::config::texts(parts@), separator@),
{
    let ghost views = crate::config::texts(parts@);
    let mut s = String::new();
    let mut i: usize = 0;
    while i < parts.len()
        invariant
            i <= parts@.len(),
            views == crate::config::texts(parts@),
            s@ == joined_with(views.take(i as int), separator@),
        decreases parts@.len() - i,
    {
        assert(views.take(i + 1).drop_last() =~= views.take(i as int));
        assert(views[i as int] == parts@[i as int]@);
        if i > 0 {
            s.append(separator);
        }
        s.append(parts[i].as_str());
        i += 1;
        assert(s@ =~= joined_with(views.take(i as int), separator@));
    }
    assert(views.take(i as int) =~= views);
    s
}

/// Whether `a` stands before `b` in the order of their characters.
pub open spec fn precedes(a: Seq<char>, b: Seq<char>) -> bool
    decreases a.len(),
{
    if b.len() == 0 {
        false
    } else if a.len() == 0 {
        true
    } else if a[0] != b[0] {
        a[0] < b[0]
    } else {
        precedes(a.drop_first(), b.drop_first())
    }
}

pub proof fn lemma_precedes_is_transitive(a: Seq<char>, b: Seq<char>, c: Seq<char>)
    requires
        precedes(a, b),
        precedes(b, c),
    ensures
        precedes(a, c),
    decreases a.len(),
{
    if a.len() > 0 && a[0] == b[0] && b[0] == c[0] {
        lemma_precedes_is_transitive(a.drop_first(), b.drop_first(), c.drop_first());
    }
}

/// Compares two texts in the order of their characters.
pub fn text_precedes(a: &str, b: &str) -> (r: bool)
    ensures
        r == precedes(a@, b@),
{
    let left = chars_of(a);
    let right = chars_of(b);
    let mut i: usize = 0;
    assert(a@.skip(0) =~= a@);
    assert(b@.skip(0) =~= b@);
    while i < left.len() && i < right.len()
        invariant
            left@ == a@,
            right@ == b@,
            i <= a@.len(),
            i <= b@.len(),
            precedes(a@, b@) == precedes(a@.skip(i as int), b@.skip(i as int)),
        decreases a@.len() - i,
    {
        if left[i] != right[i] {
            return left[i] < right[i];
        }
        assert(a@.skip(i as int).drop_first() =~= a@.skip(i + 1));
        assert(b@.skip(i as int).drop_first() =~= b@.skip(i + 1));
        i += 1;
    }
    i < right.len()
}

/// A text that is put together with a character between its parts is split there.
pub proof fn lemma_split(front: Seq<char>, c: char, back: Seq<char>)
    requires
        forall|i: int| 0 <= i < front.len() ==> front[i] != c,
    ensures
        split_once_seq(front.push(c) + back, c) == Some((front, back)),
{
    let all = front.push(c) + back;
    lemma_first_index(all, c);
    assert(all[front.len() as int] == c);
    assert(all.contains(c));
    let i = first_index(all, c);
    if i < front.len() {
        assert(all[i] == front[i]);
    }
    assert(i == front.len());
    assert(all.take(i) =~= front);
    assert(all.skip(i + 1) =~= back);
}

/// The parts with `c` between them.
pub open spec fn put_together(parts: Seq<Seq<char>>, c: char) -> Seq<char>
    decreases parts.len(),
{
    if parts.len() == 0 {
        Seq::empty()
    } else if parts.len() == 1 {
        parts[0]
    } else {
        parts[0].push(c) + put_together(parts.drop_first(), c)
    }
}

/// A text is split at every `c` and nowhere else: the parts hold none, and put together they are the
/// text again.
pub proof fn lemma_split_parts(s: Seq<char>, c: char)
    ensures
        split_seq(s, c).len() > 0,
        put_together(split_seq(s, c), c) == s,
        forall|i: int| 0 <= i < split_seq(s, c).len() ==> !(#[trigger] split_seq(s, c)[i]).contains(c),
    decreases s.len(),
{
    lemma_first_index(s, c);
    let i = first_index(s, c);
    let parts = split_seq(s, c);
    if i < s.len() {
        let rest = split_seq(s.skip(i + 1), c);
        lemma_split_parts(s.skip(i + 1), c);
        assert(parts.drop_first() =~= rest);
        assert(parts[0] == s.take(i));
        assert forall|k: int| 0 <= k < parts.len() implies !(#[trigger] parts[k]).contains(c) by {
            if k > 0 {
                assert(parts[k] == rest[k - 1]);
            }
        }
        assert(s.take(i).push(c) + s.skip(i + 1) =~= s);
    } else {
        assert(parts[0] == s);
    }
}

/// White space around a text is cut off, and nothing else.
pub proof fn lemma_trimmed(front: Seq<char>, s: Seq<char>, back: Seq<char>)
    requires
        forall|i: int| 0 <= i < front.len() ==> is_white_space(#[trigger] front[i]),
        forall|i: int| 0 <= i < back.len() ==> is_white_space(#[trigger] back[i]),
        s.len() > 0,
        !is_white_space(s[0]),
        !is_white_space(s.last()),
    ensures
        trim_seq(front + s + back) == s,
{
    lemma_trimmed_start(front, s + back);
    assert(front + s + back =~= front + (s + back));
    lemma_trimmed_end(s, back);
}

proof fn lemma_trimmed_start(front: Seq<char>, s: Seq<char>)
    requires
        forall|i: int| 0 <= i < front.len() ==> is_white_space(#[trigger] front[i]),
        s.len() > 0,
        !is_white_space(s[0]),
    ensures
        trim_start_seq(front + s) == s,
    decreases front.len(),
{
    if front.len() > 0 {
        assert((front + s).drop_first() =~= front.drop_first() + s);
        assert((front + s)[0] == front[0]);
        assert forall|i: int| 0 <= i < front.drop_first().len() implies is_white_space(
            #[trigger] front.drop_first()[i],
        ) by {
            assert(is_white_space(front[i + 1]));
        }
        lemma_trimmed_start(front.drop_first(), s);
    } else {
        assert(front + s =~= s);
    }
}

proof fn lemma_trimmed_end(s: Seq<char>, back: Seq<char>)
    requires
        forall|i: int| 0 <= i < back.len() ==> is_white_space(#[trigger] back[i]),
        s.len() > 0,
        !is_white_space(s.last()),
    ensures
        trim_end_seq(s + back) == s,
    decreases back.len(),
{
    if back.len() > 0 {
        assert((s + back).drop_last() =~= s + back.drop_last());
        assert((s + back).last() == back.last());
        assert(is_white_space(back[back.len() - 1]));
        assert forall|i: int| 0 <= i < back.drop_last().len() implies is_white_space(
            #[trigger] back.drop_last()[i],
        ) by {
            assert(is_white_space(back[i]));
        }
        lemma_trimmed_end(s, back.drop_last());
    } else {
        assert(s + back =~= s);
    }
}

/// What follows the last `c` holds none and ends the text.
pub proof fn lemma_after_last(front: Seq<char>, c: char, back: Seq<char>)
    requires
        !back.contains(c),
    ensures
        after_last(front.push(c) + back, c) == back,
    decreases front.len(),
{
    let s = front.push(c) + back;
    lemma_first_index(s, c);
    let i = first_index(s, c);
    assert(s[front.len() as int] == c);
    assert(s.contains(c));
    if i < front.len() {
        let rest = front.skip(i + 1);
        assert(s.skip(i + 1) =~= rest.push(c) + back);
        assert(after_last(s, c) == after_last(s.skip(i + 1), c));
        lemma_after_last(rest, c, back);
    } else {
        assert(i == front.len());
        assert(s.skip(i + 1) =~= back);
        lemma_first_index(back, c);
        assert(after_last(back, c) == back);
        assert(after_last(s, c) == after_last(s.skip(i + 1), c));
    }
}

/// A number that is written without leading zeros is written as the library writes it.
pub proof fn lemma_digits_round_trip(s: Seq<char>)
    requires
        s.len() > 0,
        all_digits(s),
        s.len() == 1 || s[0] != '0',
    ensures
        decimal(digits_value(s)) == s,
        s[0] != '0' ==> digits_value(s) > 0,
    decreases s.len(),
{
    let front = s.drop_last();
    let last = s.last();
    assert(is_digit(s[s.len() - 1]));
    let d = (last as nat - '0' as nat) as nat;
    assert(digit_char(d) == last);
    if s.len() == 1 {
        assert(front =~= Seq::<char>::empty());
        assert(digits_value(front) == 0);
        assert(decimal(digits_value(s)) =~= s);
    } else {
        assert forall|i: int| 0 <= i < front.len() implies is_digit(#[trigger] front[i]) by {
            assert(is_digit(s[i]));
        }
        assert(front[0] == s[0]);
        lemma_digits_round_trip(front);
        let v = digits_value(front);
        assert(digits_value(s) == v * 10 + d);
        assert((v * 10 + d) / 10 == v && (v * 10 + d) % 10 == d);
        assert(front.push(last) =~= s);
    }
}

} // verus!
