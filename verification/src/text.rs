//! Text primitives over sequences of characters: whitespace, tokens,
//! prefixes, and decimal numbers.

use vstd::prelude::*;

verus! {

/// The characters that separate tokens: those with the Unicode property
/// `White_Space`.
pub open spec fn is_space(c: char) -> bool {
    let u = c as u32;
    ||| 0x09 <= u <= 0x0D
    ||| u == 0x20
    ||| u == 0x85
    ||| u == 0xA0
    ||| u == 0x1680
    ||| 0x2000 <= u <= 0x200A
    ||| u == 0x2028
    ||| u == 0x2029
    ||| u == 0x202F
    ||| u == 0x205F
    ||| u == 0x3000
}

pub fn is_whitespace(c: char) -> (b: bool)
    ensures
        b == is_space(c),
{
    let u: u32 = c as u32;
    (0x09 <= u && u <= 0x0D) || u == 0x20 || u == 0x85 || u == 0xA0 || u == 0x1680 || (0x2000 <= u
        && u <= 0x200A) || u == 0x2028 || u == 0x2029 || u == 0x202F || u == 0x205F || u == 0x3000
}

/// The characters of `s`, in order.
pub fn to_chars(s: &str) -> (v: Vec<char>)
    ensures
        v@ == s@,
{
    let mut v: Vec<char> = Vec::new();
    let chars = s.chars();
    for c in it: chars
        invariant
            it.seq() == s@,
            v@ == it.seq().take(it.index()),
    {
        v.push(c);
    }
    v
}

/// The index of the first character at or after `i` that is not whitespace,
/// or the length of `s` when there is none.
pub open spec fn skip_spaces(s: Seq<char>, i: int) -> int
    decreases s.len() - i,
{
    if 0 <= i < s.len() && is_space(s[i]) {
        skip_spaces(s, i + 1)
    } else {
        i
    }
}

/// The index of the first whitespace character at or after `i`, or the
/// length of `s` when there is none.
pub open spec fn token_end(s: Seq<char>, i: int) -> int
    decreases s.len() - i,
{
    if 0 <= i < s.len() && !is_space(s[i]) {
        token_end(s, i + 1)
    } else {
        i
    }
}

/// The maximal runs of non-whitespace characters of `s` that start at or
/// after `i`, from left to right.
pub open spec fn tokens_from(s: Seq<char>, i: int) -> Seq<Seq<char>>
    decreases s.len() - i,
{
    let a = skip_spaces(s, i);
    let b = token_end(s, a);
    if 0 <= i <= a < b <= s.len() {
        seq![s.subrange(a, b)] + tokens_from(s, b)
    } else {
        Seq::empty()
    }
}

/// The whitespace-separated tokens of `s`.
pub open spec fn tokens(s: Seq<char>) -> Seq<Seq<char>> {
    tokens_from(s, 0)
}

/// `skip_spaces` passes over whitespace alone and stops at the first
/// character that is none.
pub proof fn lemma_skip_spaces(s: Seq<char>, i: int)
    requires
        0 <= i <= s.len(),
    ensures
        i <= skip_spaces(s, i) <= s.len(),
        forall|k: int| i <= k < skip_spaces(s, i) ==> is_space(s[k]),
        skip_spaces(s, i) < s.len() ==> !is_space(s[skip_spaces(s, i)]),
    decreases s.len() - i,
{
    if i < s.len() && is_space(s[i]) {
        lemma_skip_spaces(s, i + 1);
    }
}

/// `token_end` passes over characters that are no whitespace and stops at
/// the first that is.
pub proof fn lemma_token_end(s: Seq<char>, i: int)
    requires
        0 <= i <= s.len(),
    ensures
        i <= token_end(s, i) <= s.len(),
        forall|k: int| i <= k < token_end(s, i) ==> !is_space(s[k]),
        token_end(s, i) < s.len() ==> is_space(s[token_end(s, i)]),
        i < s.len() && !is_space(s[i]) ==> i < token_end(s, i),
    decreases s.len() - i,
{
    if i < s.len() && !is_space(s[i]) {
        lemma_token_end(s, i + 1);
    }
}

/// Every token holds at least one character and no whitespace.
pub proof fn lemma_tokens_are_words(s: Seq<char>, i: int)
    requires
        0 <= i <= s.len(),
    ensures
        forall|k: int|
            0 <= k < tokens_from(s, i).len() ==> (#[trigger] tokens_from(s, i)[k]).len() > 0
                && forall|j: int|
                0 <= j < tokens_from(s, i)[k].len() ==> !is_space(tokens_from(s, i)[k][j]),
    decreases s.len() - i,
{
    let a = skip_spaces(s, i);
    lemma_skip_spaces(s, i);
    lemma_token_end(s, a);
    let b = token_end(s, a);
    if a < b {
        lemma_tokens_are_words(s, b);
        let first = s.subrange(a, b);
        let rest = tokens_from(s, b);
        assert forall|k: int| 0 <= k < tokens_from(s, i).len() implies (#[trigger] tokens_from(
            s,
            i,
        )[k]).len() > 0 && forall|j: int|
            0 <= j < tokens_from(s, i)[k].len() ==> !is_space(tokens_from(s, i)[k][j]) by {
            if k == 0 {
                assert(tokens_from(s, i)[0] == first);
            } else {
                assert(tokens_from(s, i)[k] == rest[k - 1]);
            }
        }
    }
}

/// Splits `line` at whitespace, as `str::split_whitespace` does: the tokens
/// are the maximal runs of characters that are not whitespace.
pub fn split_whitespace(line: &str) -> (parts: Vec<String>)
    ensures
        parts.deep_view() == tokens(line@),
{
    let chars = to_chars(line);
    let n = chars.len();
    let mut parts: Vec<String> = Vec::new();
    let mut i: usize = 0;
    while i < n
        invariant
            n == chars.len(),
            chars@ == line@,
            i <= n,
            parts.deep_view() + tokens_from(line@, i as int) == tokens(line@),
        decreases n - i,
    {
        let ghost i0 = i as int;
        while i < n && is_whitespace(chars[i])
            invariant
                n == chars.len(),
                chars@ == line@,
                i0 <= i <= n,
                skip_spaces(line@, i as int) == skip_spaces(line@, i0),
            decreases n - i,
        {
            i += 1;
        }
        let start = i;
        while i < n && !is_whitespace(chars[i])
            invariant
                n == chars.len(),
                chars@ == line@,
                start <= i <= n,
                token_end(line@, i as int) == token_end(line@, start as int),
            decreases n - i,
        {
            i += 1;
        }
        if start < i {
            let token = line.substring_char(start, i).to_owned();
            let ghost before = parts.deep_view();
            parts.push(token);
            assert(parts.deep_view() == before + seq![line@.subrange(start as int, i as int)]);
        }
    }
    parts
}

/// Whether two texts hold the same characters.
pub fn text_eq(a: &str, b: &str) -> (r: bool)
    ensures
        r == (a@ == b@),
{
    let x = to_chars(a);
    let y = to_chars(b);
    if x.len() != y.len() {
        return false;
    }
    let mut i: usize = 0;
    while i < x.len()
        invariant
            x@ == a@,
            y@ == b@,
            x.len() == y.len(),
            i <= x.len(),
            forall|k: int| 0 <= k < i ==> x@[k] == y@[k],
        decreases x.len() - i,
    {
        if x[i] != y[i] {
            assert(a@[i as int] != b@[i as int]);
            return false;
        }
        i += 1;
    }
    assert(x@ =~= y@);
    true
}

/// Whether `needle` stands in `s` at index `at`.
pub open spec fn occurs_at(s: Seq<char>, needle: Seq<char>, at: int) -> bool {
    0 <= at && at + needle.len() <= s.len() && s.subrange(at, at + needle.len()) =~= needle
}

fn matches_at(chars: &Vec<char>, needle: &Vec<char>, at: usize) -> (r: bool)
    ensures
        r == occurs_at(chars@, needle@, at as int),
{
    let m = needle.len();
    if at > chars.len() || m > chars.len() - at {
        return false;
    }
    let mut k: usize = 0;
    while k < m
        invariant
            m == needle.len(),
            at + m <= chars.len(),
            k <= m,
            forall|j: int| 0 <= j < k ==> chars@[at + j] == needle@[j],
        decreases m - k,
    {
        if chars[at + k] != needle[k] {
            assert(chars@.subrange(at as int, at + m)[k as int] != needle@[k as int]);
            return false;
        }
        k += 1;
    }
    assert(chars@.subrange(at as int, at + m) =~= needle@);
    true
}

/// Whether `line` begins with `prefix`.
pub fn starts_with(line: &str, prefix: &str) -> (r: bool)
    ensures
        r == prefix@.is_prefix_of(line@),
{
    let chars = to_chars(line);
    let needle = to_chars(prefix);
    matches_at(&chars, &needle, 0)
}

/// The least index at or after `from` where `needle` stands in `s`.
pub open spec fn find_from(s: Seq<char>, needle: Seq<char>, from: int) -> Option<int>
    decreases s.len() - from,
{
    if from < 0 || from + needle.len() > s.len() {
        None
    } else if occurs_at(s, needle, from) {
        Some(from)
    } else if from < s.len() {
        find_from(s, needle, from + 1)
    } else {
        None
    }
}

/// The index of the first occurrence of `needle` in `s`.
pub open spec fn find(s: Seq<char>, needle: Seq<char>) -> Option<int> {
    find_from(s, needle, 0)
}

/// `find_from` returns the least index of an occurrence, and `None` exactly
/// when there is no occurrence at or after `from`.
pub proof fn lemma_find_from(s: Seq<char>, needle: Seq<char>, from: int)
    requires
        0 <= from,
    ensures
        match find_from(s, needle, from) {
            Some(i) => from <= i && occurs_at(s, needle, i) && forall|j: int|
                from <= j < i ==> !occurs_at(s, needle, j),
            None => forall|j: int| from <= j ==> !occurs_at(s, needle, j),
        },
    decreases s.len() - from,
{
    if from + needle.len() <= s.len() && !occurs_at(s, needle, from) && from < s.len() {
        lemma_find_from(s, needle, from + 1);
    }
}

/// The character index of the first occurrence of `needle` in `text`.
pub fn find_text(text: &str, needle: &str) -> (r: Option<usize>)
    ensures
        match r {
            Some(i) => find(text@, needle@) == Some(i as int),
            None => find(text@, needle@) is None,
        },
{
    let chars = to_chars(text);
    let pat = to_chars(needle);
    let n = chars.len();
    let m = pat.len();
    if m > n {
        return None;
    }
    let last = n - m;
    let mut i: usize = 0;
    loop
        invariant
            n == chars.len(),
            m == pat.len(),
            last == n - m,
            chars@ == text@,
            pat@ == needle@,
            i <= last,
            find_from(text@, needle@, i as int) == find(text@, needle@),
        decreases last - i,
    {
        if matches_at(&chars, &pat, i) {
            return Some(i);
        }
        if i == last {
            assert(find_from(text@, needle@, i + 1) is None);
            return None;
        }
        i += 1;
    }
}

pub open spec fn is_digit(c: char) -> bool {
    0x30 <= c as u32 <= 0x39
}

pub open spec fn digit_value(c: char) -> nat {
    if is_digit(c) {
        (c as u32 - 0x30) as nat
    } else {
        0
    }
}

pub open spec fn all_digits(s: Seq<char>) -> bool {
    forall|i: int| 0 <= i < s.len() ==> is_digit(#[trigger] s[i])
}

/// The number that the digits of `s` write in base ten.
pub open spec fn decimal_value(s: Seq<char>) -> nat
    decreases s.len(),
{
    if s.len() == 0 {
        0
    } else {
        decimal_value(s.drop_last()) * 10 + digit_value(s.last())
    }
}

/// A prefix never writes a greater number than the whole.
pub proof fn lemma_decimal_prefix(s: Seq<char>, k: int)
    requires
        0 <= k <= s.len(),
    ensures
        decimal_value(s.take(k)) <= decimal_value(s),
    decreases s.len(),
{
    if k == s.len() {
        assert(s.take(k) =~= s);
    } else {
        assert(s.drop_last().take(k) =~= s.take(k));
        lemma_decimal_prefix(s.drop_last(), k);
    }
}

/// What `s` denotes as an unsigned decimal: one or more digits after an
/// optional `+`, with a value of at most `max`. Anything else denotes
/// nothing.
pub open spec fn parse_unsigned(s: Seq<char>, max: u64) -> Option<u64> {
    let digits = if s.len() > 0 && s[0] == '+' {
        s.subrange(1, s.len() as int)
    } else {
        s
    };
    if digits.len() > 0 && all_digits(digits) && decimal_value(digits) <= max {
        Some(decimal_value(digits) as u64)
    } else {
        None
    }
}

/// What `s` denotes as a signed 32-bit decimal: one or more digits after an
/// optional `+` or `-`, with a value that fits. Anything else denotes
/// nothing.
pub open spec fn parse_signed(s: Seq<char>) -> Option<i32> {
    let signed = s.len() > 0 && (s[0] == '+' || s[0] == '-');
    let digits = if signed {
        s.subrange(1, s.len() as int)
    } else {
        s
    };
    let magnitude = decimal_value(digits);
    let value = if s.len() > 0 && s[0] == '-' {
        -magnitude
    } else {
        magnitude as int
    };
    if digits.len() > 0 && all_digits(digits) && i32::MIN <= value <= i32::MAX {
        Some(value as i32)
    } else {
        None
    }
}

/// The value of the digits `chars[from..]`, when there is at least one
/// character, all are digits and the value is at most `max`.
fn parse_digits(chars: &Vec<char>, from: usize, max: u64) -> (r: Option<u64>)
    requires
        from <= chars.len(),
    ensures
        ({
            let digits = chars@.subrange(from as int, chars.len() as int);
            r == if digits.len() > 0 && all_digits(digits) && decimal_value(digits) <= max {
                Some(decimal_value(digits) as u64)
            } else {
                None
            }
        }),
{
    let n = chars.len();
    let ghost digits = chars@.subrange(from as int, n as int);
    if from >= n {
        return None;
    }
    let mut acc: u64 = 0;
    let mut i: usize = from;
    while i < n
        invariant
            n == chars.len(),
            from <= i <= n,
            digits == chars@.subrange(from as int, n as int),
            all_digits(digits.take(i - from)),
            acc == decimal_value(digits.take(i - from)),
            acc <= max,
        decreases n - i,
    {
        let u: u32 = chars[i] as u32;
        if u < 0x30 || u > 0x39 {
            assert(!is_digit(digits[i - from]));
            return None;
        }
        let d: u64 = (u - 0x30) as u64;
        proof {
            let next = digits.take(i - from + 1);
            assert(next.drop_last() =~= digits.take(i - from));
            assert(next.last() == chars@[i as int]);
            assert(decimal_value(next) == acc * 10 + d);
            lemma_decimal_prefix(digits, i - from + 1);
        }
        if d > max || acc > (max - d) / 10 {
            return None;
        }
        acc = acc * 10 + d;
        i += 1;
    }
    assert(digits.take(n - from) =~= digits);
    Some(acc)
}

/// Reads an unsigned decimal of at most `max`, as `str::parse` does for the
/// unsigned integer type whose largest value is `max`.
pub fn parse_number(text: &str, max: u64) -> (r: Option<u64>)
    ensures
        r == parse_unsigned(text@, max),
{
    let chars = to_chars(text);
    if chars.len() > 0 && chars[0] == '+' {
        parse_digits(&chars, 1, max)
    } else {
        assert(chars@.subrange(0, chars.len() as int) =~= chars@);
        parse_digits(&chars, 0, max)
    }
}

pub fn parse_u64(text: &str) -> (r: Option<u64>)
    ensures
        r == parse_unsigned(text@, u64::MAX),
{
    parse_number(text, u64::MAX)
}

pub fn parse_u32(text: &str) -> (r: Option<u32>)
    ensures
        r == match parse_unsigned(text@, u32::MAX as u64) {
            Some(v) => Some(v as u32),
            None => None,
        },
{
    match parse_number(text, 0xFFFF_FFFF) {
        Some(v) => Some(v as u32),
        None => None,
    }
}

pub fn parse_usize(text: &str) -> (r: Option<usize>)
    ensures
        r == match parse_unsigned(text@, usize::MAX as u64) {
            Some(v) => Some(v as usize),
            None => None,
        },
{
    match parse_number(text, usize::MAX as u64) {
        Some(v) => Some(v as usize),
        None => None,
    }
}

/// Reads a signed decimal, as `str::parse::<i32>` does.
pub fn parse_i32(text: &str) -> (r: Option<i32>)
    ensures
        r == parse_signed(text@),
{
    let chars = to_chars(text);
    if chars.len() > 0 && chars[0] == '-' {
        match parse_digits(&chars, 1, 0x8000_0000) {
            Some(m) => {
                if m == 0x8000_0000 {
                    Some(i32::MIN)
                } else {
                    Some(-(m as i32))
                }
            },
            None => None,
        }
    } else if chars.len() > 0 && chars[0] == '+' {
        match parse_digits(&chars, 1, 0x7FFF_FFFF) {
            Some(m) => Some(m as i32),
            None => None,
        }
    } else {
        assert(chars@.subrange(0, chars.len() as int) =~= chars@);
        match parse_digits(&chars, 0, 0x7FFF_FFFF) {
            Some(m) => Some(m as i32),
            None => None,
        }
    }
}

pub open spec fn digit_char(d: nat) -> char {
    if d == 0 {
        '0'
    } else if d == 1 {
        '1'
    } else if d == 2 {
        '2'
    } else if d == 3 {
        '3'
    } else if d == 4 {
        '4'
    } else if d == 5 {
        '5'
    } else if d == 6 {
        '6'
    } else if d == 7 {
        '7'
    } else if d == 8 {
        '8'
    } else {
        '9'
    }
}

/// The digits that write `n` in base ten, without leading zeros.
pub open spec fn decimal_digits(n: nat) -> Seq<char>
    decreases n,
{
    if n < 10 {
        seq![digit_char(n)]
    } else {
        decimal_digits(n / 10).push(digit_char(n % 10))
    }
}

/// What is written can be read back: the digits of `n` are digits, there
/// is at least one, and they denote `n` under any bound that `n` meets.
pub proof fn lemma_digits_parse_back(n: nat, max: u64)
    requires
        n <= max,
    ensures
        decimal_digits(n).len() > 0,
        all_digits(decimal_digits(n)),
        decimal_value(decimal_digits(n)) == n,
        parse_unsigned(decimal_digits(n), max) == Some(n as u64),
    decreases n,
{
    let d = decimal_digits(n);
    let unit = digit_char(n % 10);
    assert(is_digit(unit) && digit_value(unit) == n % 10);
    if n >= 10 {
        lemma_digits_parse_back(n / 10, max);
        assert(d.drop_last() =~= decimal_digits(n / 10));
        assert(d.last() == unit);
        assert(decimal_value(d) == decimal_value(d.drop_last()) * 10 + digit_value(d.last()));
    } else {
        assert(d.drop_last() =~= Seq::<char>::empty());
        assert(d.last() == unit);
        assert(decimal_value(d.drop_last()) == 0);
        assert(decimal_value(d) == decimal_value(d.drop_last()) * 10 + digit_value(d.last()));
    }
    assert(is_digit(d[0]));
}

fn digit_text(d: u64) -> (t: &'static str)
    requires
        d < 10,
    ensures
        t@ == seq![digit_char(d as nat)],
{
    proof {
        reveal_strlit("0");
        reveal_strlit("1");
        reveal_strlit("2");
        reveal_strlit("3");
        reveal_strlit("4");
        reveal_strlit("5");
        reveal_strlit("6");
        reveal_strlit("7");
        reveal_strlit("8");
        reveal_strlit("9");
    }
    let t = if d == 0 {
        "0"
    } else if d == 1 {
        "1"
    } else if d == 2 {
        "2"
    } else if d == 3 {
        "3"
    } else if d == 4 {
        "4"
    } else if d == 5 {
        "5"
    } else if d == 6 {
        "6"
    } else if d == 7 {
        "7"
    } else if d == 8 {
        "8"
    } else {
        "9"
    };
    assert(t@ =~= seq![digit_char(d as nat)]);
    t
}

/// Appends `n` in base ten to `out`.
pub fn push_decimal(out: &mut String, n: u64)
    ensures
        final(out)@ == old(out)@ + decimal_digits(n as nat),
    decreases n,
{
    if n >= 10 {
        push_decimal(out, n / 10);
    }
    out.append(digit_text(n % 10));
    assert(final(out)@ =~= old(out)@ + decimal_digits(n as nat));
}

/// `n` in base ten, as `to_string` writes an unsigned integer.
pub fn render_decimal(n: u64) -> (s: String)
    ensures
        s@ == decimal_digits(n as nat),
{
    let mut s = String::new();
    push_decimal(&mut s, n);
    assert(s@ =~= decimal_digits(n as nat));
    s
}

} // verus!
