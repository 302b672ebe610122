//! Text as sequences of characters: searching, counting, and decimal numbers.

use vstd::prelude::*;
use vstd::utf8::*;

verus! {

/// Appends a character.
///
/// Claims of `String::push` that the string afterwards holds what it held before,
/// and the character at its end.
pub assume_specification[ String::push ](s: &mut String, c: char)
    ensures
        final(s)@ == old(s)@.push(c),
;

/// How often `c` occurs in `s`.
pub open spec fn occurrences(s: Seq<char>, c: char) -> nat
    decreases s.len(),
{
    if s.len() == 0 {
        0
    } else {
        occurrences(s.drop_last(), c) + (if s.last() == c {
            1nat
        } else {
            0
        })
    }
}

/// Where `pattern` first occurs in `s`, from position `from` on.
pub open spec fn first_occurrence(s: Seq<char>, pattern: Seq<char>, from: int) -> Option<int>
    decreases s.len() + 1 - from,
{
    if from + pattern.len() > s.len() {
        None
    } else if s.subrange(from, from + pattern.len()) == pattern {
        Some(from)
    } else {
        first_occurrence(s, pattern, from + 1)
    }
}

/// Whether `pattern` occurs in `s`.
pub open spec fn occurs(s: Seq<char>, pattern: Seq<char>) -> bool {
    first_occurrence(s, pattern, 0) is Some
}

/// The digit for a number below ten.
pub open spec fn digit(v: nat) -> char {
    (48 + v) as char
}

/// A number in decimal notation.
pub open spec fn decimal(v: nat) -> Seq<char>
    decreases v,
{
    if v < 10 {
        seq![digit(v)]
    } else {
        decimal(v / 10).push(digit(v % 10))
    }
}

pub open spec fn is_digit(c: char) -> bool {
    '0' <= c <= '9'
}

/// Whether `s` consists of decimal digits.
pub open spec fn all_digits(s: Seq<char>) -> bool {
    forall|i: int| 0 <= i < s.len() ==> is_digit(#[trigger] s[i])
}

/// The number that some decimal digits stand for.
pub open spec fn decimal_value(s: Seq<char>) -> nat
    decreases s.len(),
{
    if s.len() == 0 {
        0
    } else {
        decimal_value(s.drop_last()) * 10 + (s.last() as nat - 48) as nat
    }
}

/// The digits of a number that may have a plus sign before them.
pub open spec fn without_plus(s: Seq<char>) -> Seq<char> {
    if s.len() > 0 && s[0] == '+' {
        s.skip(1)
    } else {
        s
    }
}

/// The 16-bit number that `s` stands for: decimal digits, at least one, with or
/// without a plus sign.
pub open spec fn parsed_u16(s: Seq<char>) -> Option<u16> {
    let digits = without_plus(s);
    if digits.len() > 0 && all_digits(digits) && decimal_value(digits) <= u16::MAX {
        Some(decimal_value(digits) as u16)
    } else {
        None
    }
}

/// Whether `c` has the Unicode property `White_Space`.
pub open spec fn is_whitespace(c: char) -> bool {
    let v = c as u32;
    ||| 0x9 <= v <= 0xd
    ||| v == 0x20
    ||| v == 0x85
    ||| v == 0xa0
    ||| v == 0x1680
    ||| 0x2000 <= v <= 0x200a
    ||| v == 0x2028
    ||| v == 0x2029
    ||| v == 0x202f
    ||| v == 0x205f
    ||| v == 0x3000
}

/// Whether `s` holds nothing but whitespace.
pub open spec fn is_blank(s: Seq<char>) -> bool {
    forall|i: int| 0 <= i < s.len() ==> is_whitespace(#[trigger] s[i])
}

pub open spec fn is_ascii_alphanumeric(c: char) -> bool {
    is_digit(c) || 'A' <= c <= 'Z' || 'a' <= c <= 'z'
}

/// The number of bytes of `c` in UTF-8.
pub open spec fn utf8_width(c: char) -> nat {
    if (c as u32) < 0x80 {
        1
    } else if (c as u32) < 0x800 {
        2
    } else if (c as u32) < 0x1_0000 {
        3
    } else {
        4
    }
}

/// How many characters of `s` the first `n` bytes of its UTF-8 form are; `None`
/// where there are not as many bytes, or where they end within a character.
pub open spec fn chars_in_bytes(s: Seq<char>, n: nat) -> Option<nat>
    decreases s.len(),
{
    if n == 0 {
        Some(0)
    } else if s.len() == 0 || utf8_width(s[0]) > n {
        None
    } else {
        match chars_in_bytes(s.skip(1), (n - utf8_width(s[0])) as nat) {
            Some(k) => Some(k + 1),
            None => None,
        }
    }
}

/// What occurs in two texts occurs as often in both together.
pub(crate) proof fn lemma_occurrences_add(a: Seq<char>, b: Seq<char>, c: char)
    ensures
        occurrences(a + b, c) == occurrences(a, c) + occurrences(b, c),
    decreases b.len(),
{
    if b.len() == 0 {
        assert(a + b =~= a);
    } else {
        lemma_occurrences_add(a, b.drop_last(), c);
        assert((a + b).drop_last() =~= a + b.drop_last());
    }
}

/// What occurs at all is somewhere.
pub(crate) proof fn lemma_occurs_somewhere(s: Seq<char>, c: char)
    ensures
        occurrences(s, c) > 0 <==> s.contains(c),
    decreases s.len(),
{
    if s.len() > 0 {
        lemma_occurs_somewhere(s.drop_last(), c);
        if s.last() == c {
            assert(s[s.len() - 1] == c);
        } else if s.contains(c) {
            let i = choose|i: int| 0 <= i < s.len() && s[i] == c;
            assert(s.drop_last()[i] == c);
        } else if s.drop_last().contains(c) {
            let i = choose|i: int| 0 <= i < s.len() - 1 && s.drop_last()[i] == c;
            assert(s[i] == c);
        }
    }
}

/// The characters of `s`.
pub(crate) fn chars_of(s: &str) -> (r: Vec<char>)
    ensures
        r@ == s@,
{
    let mut r: Vec<char> = Vec::new();
    for c in it: s.chars()
        invariant
            it.seq() == s@,
            r@ == s@.take(it.index() as int),
    {
        r.push(c);
        assert(r@ =~= s@.take(it.index() + 1));
    }
    assert(s@.take(s@.len() as int) =~= s@);
    r
}

/// The string of some characters.
pub(crate) fn string_of(chars: &[char]) -> (r: String)
    ensures
        r@ == chars@,
{
    let mut r: String = String::new();
    let mut i: usize = 0;
    while i < chars.len()
        invariant
            i <= chars@.len(),
            r@ == chars@.take(i as int),
        decreases chars@.len() - i,
    {
        r.push(chars[i]);
        assert(r@ =~= chars@.take(i + 1));
        i = i + 1;
    }
    assert(r@ =~= chars@);
    r
}

/// The string of the characters from `from` up to `to`.
pub(crate) fn substring(chars: &[char], from: usize, to: usize) -> (r: String)
    requires
        from <= to <= chars@.len(),
    ensures
        r@ == chars@.subrange(from as int, to as int),
{
    string_of(vstd::slice::slice_subrange(chars, from, to))
}

pub(crate) fn count_char(chars: &[char], c: char) -> (r: usize)
    ensures
        r == occurrences(chars@, c),
        r <= chars@.len(),
{
    let mut r: usize = 0;
    let mut i: usize = 0;
    while i < chars.len()
        invariant
            i <= chars@.len(),
            r == occurrences(chars@.take(i as int), c),
            r <= i,
        decreases chars@.len() - i,
    {
        assert(chars@.take(i + 1).drop_last() =~= chars@.take(i as int));
        if chars[i] == c {
            r = r + 1;
        }
        i = i + 1;
    }
    assert(chars@.take(i as int) =~= chars@);
    r
}

pub(crate) fn find_char(chars: &[char], c: char) -> (r: Option<usize>)
    ensures
        match r {
            Some(i) => i < chars@.len() && chars@.index_of_first(c) == Some(i as int),
            None => chars@.index_of_first(c) is None,
        },
{
    proof {
        chars@.index_of_first_ensures(c);
    }
    let mut i: usize = 0;
    while i < chars.len()
        invariant
            i <= chars@.len(),
            forall|j: int| 0 <= j < i ==> chars@[j] != c,
            match chars@.index_of_first(c) {
                Some(index) => 0 <= index < chars@.len() && chars@[index] == c && forall|j: int|
                    0 <= j < index < chars@.len() ==> chars@[j] != c,
                None => !chars@.contains(c),
            },
        decreases chars@.len() - i,
    {
        if chars[i] == c {
            return Some(i);
        }
        i = i + 1;
    }
    None
}

pub(crate) fn find_last_char(chars: &[char], c: char) -> (r: Option<usize>)
    ensures
        match r {
            Some(i) => i < chars@.len() && chars@.index_of_last(c) == Some(i as int),
            None => chars@.index_of_last(c) is None,
        },
{
    proof {
        chars@.index_of_last_ensures(c);
    }
    let mut i: usize = chars.len();
    while i > 0
        invariant
            i <= chars@.len(),
            forall|j: int| i <= j < chars@.len() ==> chars@[j] != c,
            match chars@.index_of_last(c) {
                Some(index) => 0 <= index < chars@.len() && chars@[index] == c && forall|j: int|
                    0 <= index < j < chars@.len() ==> chars@[j] != c,
                None => !chars@.contains(c),
            },
        decreases i,
    {
        i = i - 1;
        if chars[i] == c {
            return Some(i);
        }
    }
    None
}

fn matches_at(chars: &[char], pattern: &[char], at: usize) -> (r: bool)
    requires
        at + pattern@.len() <= chars@.len(),
    ensures
        r == (chars@.subrange(at as int, at + pattern@.len()) == pattern@),
{
    let end: usize = chars.len();
    let mut i: usize = 0;
    while i < pattern.len()
        invariant
            i <= pattern@.len(),
            at + pattern@.len() <= chars@.len() == end,
            forall|j: int| 0 <= j < i ==> chars@[at + j] == pattern@[j],
        decreases pattern@.len() - i,
    {
        if chars[at + i] != pattern[i] {
            assert(chars@.subrange(at as int, at + pattern@.len())[i as int] != pattern@[i as int]);
            return false;
        }
        i = i + 1;
    }
    assert(chars@.subrange(at as int, at + pattern@.len()) =~= pattern@);
    true
}

pub(crate) fn find_text(chars: &[char], pattern: &[char]) -> (r: Option<usize>)
    ensures
        match r {
            Some(i) => i + pattern@.len() <= chars@.len() && first_occurrence(
                chars@,
                pattern@,
                0,
            ) == Some(i as int),
            None => first_occurrence(chars@, pattern@, 0) is None,
        },
{
    if pattern.len() > chars.len() {
        return None;
    }
    let last: usize = chars.len() - pattern.len();
    let mut at: usize = 0;
    loop
        invariant
            at <= last,
            last == chars@.len() - pattern@.len(),
            first_occurrence(chars@, pattern@, 0) == first_occurrence(
                chars@,
                pattern@,
                at as int,
            ),
        decreases last - at,
    {
        if matches_at(chars, pattern, at) {
            return Some(at);
        }
        if at == last {
            assert(first_occurrence(chars@, pattern@, at + 1) is None);
            return None;
        }
        at = at + 1;
    }
}

fn digit_char(v: u64) -> (r: char)
    requires
        v < 10,
    ensures
        r == digit(v as nat),
{
    (48 + v as u8) as char
}

/// A number in decimal notation.
pub(crate) fn decimal_string(v: u64) -> (r: String)
    ensures
        r@ == decimal(v as nat),
    decreases v,
{
    if v < 10 {
        let mut r: String = String::new();
        r.push(digit_char(v));
        assert(r@ =~= decimal(v as nat));
        r
    } else {
        let mut r: String = decimal_string(v / 10);
        r.push(digit_char(v % 10));
        r
    }
}

proof fn lemma_value_grows(s: Seq<char>, k: int)
    requires
        0 <= k <= s.len(),
    ensures
        decimal_value(s.take(k)) <= decimal_value(s),
    decreases s.len() - k,
{
    if k < s.len() {
        lemma_value_grows(s, k + 1);
        assert(s.take(k + 1).drop_last() =~= s.take(k));
    } else {
        assert(s.take(k) =~= s);
    }
}

pub(crate) fn parse_u16(chars: &[char]) -> (r: Option<u16>)
    ensures
        r == parsed_u16(chars@),
{
    let start: usize = if chars.len() > 0 && chars[0] == '+' {
        1
    } else {
        0
    };
    let ghost digits = without_plus(chars@);
    assert(digits =~= chars@.skip(start as int));
    if chars.len() == start {
        return None;
    }
    let mut value: u32 = 0;
    let mut i: usize = start;
    while i < chars.len()
        invariant
            start <= i <= chars@.len(),
            digits == chars@.skip(start as int),
            digits == without_plus(chars@),
            value <= u16::MAX,
            value == decimal_value(digits.take(i - start)),
            forall|j: int| 0 <= j < i - start ==> is_digit(#[trigger] digits[j]),
        decreases chars@.len() - i,
    {
        let c: char = chars[i];
        let ghost k = i - start;
        assert(c == digits[k]);
        assert(digits.take(k + 1).drop_last() =~= digits.take(k));
        if !('0' <= c && c <= '9') {
            assert(!is_digit(digits[k]));
            return None;
        }
        value = value * 10 + (c as u32 - 48);
        if value > 65_535 {
            proof {
                lemma_value_grows(digits, k + 1);
            }
            return None;
        }
        i = i + 1;
    }
    assert(digits.take(digits.len() as int) =~= digits);
    Some(value as u16)
}

/// A 16-bit number reads back from its decimal notation.
pub proof fn decimal_round_trip(v: nat)
    ensures
        all_digits(decimal(v)),
        decimal(v).len() > 0,
        decimal_value(decimal(v)) == v,
        v <= u16::MAX ==> parsed_u16(decimal(v)) == Some(v as u16),
    decreases v,
{
    if v < 10 {
        assert(decimal(v).drop_last() =~= Seq::empty());
        assert(decimal_value(decimal(v).drop_last()) == 0);
    } else {
        decimal_round_trip(v / 10);
        assert(decimal(v).drop_last() =~= decimal(v / 10));
    }
    assert(decimal(v)[0] != '+');
}

pub(crate) fn blank(chars: &[char]) -> (r: bool)
    ensures
        r == is_blank(chars@),
{
    let mut i: usize = 0;
    while i < chars.len()
        invariant
            i <= chars@.len(),
            forall|j: int| 0 <= j < i ==> is_whitespace(#[trigger] chars@[j]),
        decreases chars@.len() - i,
    {
        if !whitespace(chars[i]) {
            return false;
        }
        i = i + 1;
    }
    true
}

fn whitespace(c: char) -> (r: bool)
    ensures
        r == is_whitespace(c),
{
    let v: u32 = c as u32;
    0x9 <= v && v <= 0xd || v == 0x20 || v == 0x85 || v == 0xa0 || v == 0x1680 || 0x2000 <= v && v
        <= 0x200a || v == 0x2028 || v == 0x2029 || v == 0x202f || v == 0x205f || v == 0x3000
}

pub(crate) fn ascii_alphanumeric(c: char) -> (r: bool)
    ensures
        r == is_ascii_alphanumeric(c),
{
    '0' <= c && c <= '9' || 'A' <= c && c <= 'Z' || 'a' <= c && c <= 'z'
}

fn char_width(c: char) -> (r: usize)
    ensures
        r == utf8_width(c),
        1 <= r <= 4,
{
    let v: u32 = c as u32;
    if v < 0x80 {
        1
    } else if v < 0x800 {
        2
    } else if v < 0x1_0000 {
        3
    } else {
        4
    }
}

/// How many characters from `from` on the first `n` bytes of the UTF-8 form are.
pub(crate) fn chars_within(chars: &[char], from: usize, n: usize) -> (r: Option<usize>)
    requires
        from <= chars@.len(),
    ensures
        match r {
            Some(k) => from + k <= chars@.len() && chars_in_bytes(
                chars@.skip(from as int),
                n as nat,
            ) == Some(k as nat),
            None => chars_in_bytes(chars@.skip(from as int), n as nat) is None,
        },
    decreases chars@.len() - from,
{
    if n == 0 {
        return Some(0);
    }
    if from == chars.len() {
        return None;
    }
    let w: usize = char_width(chars[from]);
    if w > n {
        return None;
    }
    assert(chars@.skip(from as int).skip(1) =~= chars@.skip(from + 1));
    match chars_within(chars, from + 1, n - w) {
        Some(k) => Some(k + 1),
        None => None,
    }
}

/// The first `n` bytes of the UTF-8 form of `s` are `k` whole characters just where
/// the UTF-8 form of the first `k` characters has `n` bytes.
pub proof fn bytes_of_characters(s: Seq<char>, n: nat, k: nat)
    ensures
        chars_in_bytes(s, n) == Some(k) <==> k <= s.len() && encode_utf8(s.take(k as int)).len()
            == n,
    decreases s.len(),
{
    if k > 0 && s.len() > 0 {
        let w = utf8_width(s[0]);
        if w <= n {
            bytes_of_characters(s.skip(1), (n - w) as nat, (k - 1) as nat);
        }
        if k <= s.len() {
            let front = s.take(k as int);
            assert(front.drop_first() =~= s.skip(1).take(k - 1));
            char_is_scalar(s[0]);
            assert(encode_scalar(front[0] as u32).len() == w);
            assert(encode_utf8(front).len() == w + encode_utf8(front.drop_first()).len());
        }
    } else if k == 0 {
        assert(encode_utf8(s.take(0)).len() == 0);
        assert(chars_in_bytes(s, n) == Some(0nat) <==> n == 0);
    }
}

/// Each further character counts by itself, so that nothing occurs where it is not, and
/// what occurs once stands in just one place.
pub proof fn counting_characters(s: Seq<char>, t: Seq<char>, c: char, d: char)
    ensures
        occurrences(Seq::empty(), c) == 0,
        occurrences(s.push(d), c) == occurrences(s, c) + (if c == d {
            1int
        } else {
            0
        }),
        occurrences(s + t, c) == occurrences(s, c) + occurrences(t, c),
        occurrences(s, c) == 0 <==> !s.contains(c),
{
    assert(s.push(d).drop_last() =~= s);
    lemma_occurrences_add(s, t, c);
    lemma_occurs_somewhere(s, c);
}

/// The first occurrence of a pattern is a place where it stands, with none before it;
/// where there is none, it stands nowhere.
pub proof fn first_occurrences(s: Seq<char>, pattern: Seq<char>)
    ensures
        match first_occurrence(s, pattern, 0) {
            Some(i) => {
                &&& 0 <= i <= s.len() - pattern.len()
                &&& s.subrange(i, i + pattern.len()) == pattern
                &&& forall|j: int|
                    0 <= j < i ==> #[trigger] s.subrange(j, j + pattern.len()) != pattern
            },
            None => forall|j: int|
                0 <= j <= s.len() - pattern.len() ==> #[trigger] s.subrange(j, j + pattern.len())
                    != pattern,
        },
        occurs(s, pattern) <==> exists|j: int|
            0 <= j <= s.len() - pattern.len() && #[trigger] s.subrange(j, j + pattern.len())
                == pattern,
{
    lemma_first(s, pattern, 0);
}

proof fn lemma_first(s: Seq<char>, pattern: Seq<char>, from: int)
    requires
        0 <= from,
    ensures
        match first_occurrence(s, pattern, from) {
            Some(i) => {
                &&& from <= i <= s.len() - pattern.len()
                &&& s.subrange(i, i + pattern.len()) == pattern
                &&& forall|j: int|
                    from <= j < i ==> #[trigger] s.subrange(j, j + pattern.len()) != pattern
            },
            None => forall|j: int|
                from <= j <= s.len() - pattern.len() ==> #[trigger] s.subrange(
                    j,
                    j + pattern.len(),
                ) != pattern,
        },
    decreases s.len() + 1 - from,
{
    if from + pattern.len() <= s.len() && s.subrange(from, from + pattern.len()) != pattern {
        lemma_first(s, pattern, from + 1);
    }
}

/// Numbers are written with their digits in order, none of them in vain.
pub proof fn digits_of_a_number(v: nat, d: nat)
    requires
        d < 10,
    ensures
        v > 0 ==> decimal(10 * v + d) == decimal(v).push(('0' as nat + d) as char),
        decimal(d) == seq![('0' as nat + d) as char],
{
    assert((10 * v + d) / 10 == v && (10 * v + d) % 10 == d);
}

/// A port is what its digits say, at most 65535; a plus sign before it says nothing.
/// Nothing else is a port.
pub proof fn ports(s: Seq<char>, c: char)
    ensures
        decimal_value(Seq::empty()) == 0,
        '0' <= c <= '9' ==> decimal_value(s.push(c)) == 10 * decimal_value(s) + (c as int
            - '0' as int),
        (s.len() > 0 && forall|i: int| 0 <= i < s.len() ==> '0' <= #[trigger] s[i] <= '9') ==> {
            &&& decimal_value(s) <= 65535 ==> parsed_u16(s) == Some(decimal_value(s) as u16)
            &&& decimal_value(s) > 65535 ==> parsed_u16(s) is None
            &&& parsed_u16(seq!['+'] + s) == parsed_u16(s)
        },
        parsed_u16(Seq::empty()) is None,
        parsed_u16(seq!['+']) is None,
        (exists|i: int| 0 <= i < s.len() && !('0' <= #[trigger] s[i] <= '9') && (i > 0 || s[i]
            != '+')) ==> parsed_u16(s) is None,
{
    assert(s.push(c).drop_last() =~= s);
    assert((seq!['+'] + s).skip(1) =~= s);
    assert(seq!['+'].skip(1) =~= Seq::empty());
    if s.len() > 0 && forall|i: int| 0 <= i < s.len() ==> '0' <= #[trigger] s[i] <= '9' {
        assert(all_digits(s));
    }
    if exists|i: int| 0 <= i < s.len() && !('0' <= #[trigger] s[i] <= '9') && (i > 0 || s[i]
        != '+') {
        let i = choose|i: int|
            0 <= i < s.len() && !('0' <= #[trigger] s[i] <= '9') && (i > 0 || s[i] != '+');
        let digits = without_plus(s);
        if s[0] == '+' {
            assert(digits[i - 1] == s[i]);
        } else {
            assert(digits[i] == s[i]);
        }
        assert(!all_digits(digits));
    }
}

/// The characters that count as space, and the letters and digits.
pub proof fn kinds_of_characters(c: char)
    ensures
        is_whitespace(c) <==> c == '\t' || c == '\n' || c == '\u{b}' || c == '\u{c}' || c == '\r'
            || c == ' ' || c == '\u{85}' || c == '\u{a0}' || c == '\u{1680}' || '\u{2000}' <= c
            <= '\u{200a}' || c == '\u{2028}' || c == '\u{2029}' || c == '\u{202f}' || c
            == '\u{205f}' || c == '\u{3000}',
        is_ascii_alphanumeric(c) <==> '0' <= c <= '9' || 'A' <= c <= 'Z' || 'a' <= c <= 'z',
{
}

/// A text is blank where no character of it is anything but space.
pub proof fn blank_texts(s: Seq<char>, c: char)
    ensures
        is_blank(Seq::empty()),
        is_blank(s.push(c)) <==> is_blank(s) && is_whitespace(c),
{
    if is_blank(s.push(c)) {
        assert(s.push(c)[s.len() as int] == c);
        assert forall|i: int| 0 <= i < s.len() implies is_whitespace(#[trigger] s[i]) by {
            assert(s.push(c)[i] == s[i]);
        }
    }
}

} // verus!
