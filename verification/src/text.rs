//! Character and string helpers shared by the lexer, the parser and the
//! module-name rules.
use vstd::prelude::*;

verus! {

// ---------------------------------------------------------------------------
// Trusted bridges to std (each holds one std function).
// ---------------------------------------------------------------------------

/// `str::chars` collected into a vector: the characters of `s`, in order.
/// A `str` is the UTF-8 encoding of these characters and, like every
/// allocation, holds at most `isize::MAX` bytes.
#[verifier::external_body]
pub fn chars_of(s: &str) -> (r: Vec<char>)
    ensures
        r@ == s@,
        spec_utf8_len_seq(r@) <= isize::MAX,
{
    s.chars().collect()
}

/// `String::from_iter` over characters: the string made of exactly `v`.
#[verifier::external_body]
pub fn string_from_chars(v: &[char]) -> (r: String)
    ensures
        r@ == v@,
{
    v.iter().collect()
}

/// `<str as PartialEq>::eq`: two string slices are equal iff they hold the
/// same characters.
#[verifier::external_body]
pub fn str_eq(a: &str, b: &str) -> (r: bool)
    ensures
        r == (a@ == b@),
{
    a == b
}

/// What `char::is_alphabetic` answers (the Unicode `Alphabetic` property).
pub uninterp spec fn unicode_alphabetic(c: char) -> bool;

/// What `char::is_numeric` answers (the Unicode `Numeric_Type` property).
pub uninterp spec fn unicode_numeric(c: char) -> bool;

/// `char::is_alphabetic`; the result is named, not restated, but for an
/// ASCII character it is the ASCII letters (as the documentation says).
#[verifier::external_body]
pub fn char_is_alphabetic(c: char) -> (r: bool)
    ensures
        r == unicode_alphabetic(c),
        c <= '\x7f' ==> (r <==> (('a' <= c && c <= 'z') || ('A' <= c && c <= 'Z'))),
{
    c.is_alphabetic()
}

/// `char::is_numeric`; the result is named, not restated, but for an ASCII
/// character it is the ASCII digits (as the documentation says).
#[verifier::external_body]
pub fn char_is_numeric(c: char) -> (r: bool)
    ensures
        r == unicode_numeric(c),
        c <= '\x7f' ==> (r <==> ('0' <= c && c <= '9')),
{
    c.is_numeric()
}

// ---------------------------------------------------------------------------
// Verified helpers.
// ---------------------------------------------------------------------------

/// Unicode `White_Space` (the set `char::is_whitespace` tests).
pub open spec fn spec_is_whitespace(c: char) -> bool {
    let u = c as u32;
    (0x9 <= u && u <= 0xd) || u == 0x20 || u == 0x85 || u == 0xa0 || u == 0x1680 || (0x2000 <= u
        && u <= 0x200a) || u == 0x2028 || u == 0x2029 || u == 0x202f || u == 0x205f || u == 0x3000
}

pub fn is_whitespace(c: char) -> (r: bool)
    ensures
        r == spec_is_whitespace(c),
{
    let u = c as u32;
    (0x9 <= u && u <= 0xd) || u == 0x20 || u == 0x85 || u == 0xa0 || u == 0x1680 || (0x2000 <= u
        && u <= 0x200a) || u == 0x2028 || u == 0x2029 || u == 0x202f || u == 0x205f || u == 0x3000
}

pub open spec fn spec_is_ascii_digit(c: char) -> bool {
    '0' <= c && c <= '9'
}

pub fn is_ascii_digit(c: char) -> (r: bool)
    ensures
        r == spec_is_ascii_digit(c),
{
    '0' <= c && c <= '9'
}

/// Number of bytes in the UTF-8 encoding of `c`.
pub open spec fn spec_utf8_len(c: char) -> nat {
    let u = c as u32;
    if u < 0x80 {
        1
    } else if u < 0x800 {
        2
    } else if u < 0x10000 {
        3
    } else {
        4
    }
}

pub fn utf8_len(c: char) -> (r: usize)
    ensures
        r == spec_utf8_len(c),
        1 <= r <= 4,
{
    let u = c as u32;
    if u < 0x80 {
        1
    } else if u < 0x800 {
        2
    } else if u < 0x10000 {
        3
    } else {
        4
    }
}

/// Number of UTF-16 code units of a character (`char::len_utf16`).
pub open spec fn spec_utf16_len(c: char) -> nat {
    if (c as u32) < 0x10000 {
        1
    } else {
        2
    }
}

pub fn utf16_len(c: char) -> (r: usize)
    ensures
        r == spec_utf16_len(c),
{
    if (c as u32) < 0x10000 {
        1
    } else {
        2
    }
}

/// Number of bytes in the UTF-8 encoding of a character sequence.
pub open spec fn spec_utf8_len_seq(s: Seq<char>) -> nat
    decreases s.len(),
{
    if s.len() == 0 {
        0
    } else {
        spec_utf8_len_seq(s.drop_last()) + spec_utf8_len(s.last())
    }
}

/// `s` followed by `t`, as a fresh string.
pub fn concat2(a: &str, b: &str) -> (r: String)
    ensures
        r@ == a@ + b@,
{
    let mut s = String::from_str(a);
    s.append(b);
    s
}

pub fn concat3(a: &str, b: &str, c: &str) -> (r: String)
    ensures
        r@ == a@ + b@ + c@,
{
    let mut s = String::from_str(a);
    s.append(b);
    s.append(c);
    s
}

pub fn concat4(a: &str, b: &str, c: &str, d: &str) -> (r: String)
    ensures
        r@ == a@ + b@ + c@ + d@,
{
    let mut s = String::from_str(a);
    s.append(b);
    s.append(c);
    s.append(d);
    s
}

pub fn concat5(a: &str, b: &str, c: &str, d: &str, e: &str) -> (r: String)
    ensures
        r@ == a@ + b@ + c@ + d@ + e@,
{
    let mut s = String::from_str(a);
    s.append(b);
    s.append(c);
    s.append(d);
    s.append(e);
    s
}

/// A single character as a string.
pub fn char_string(c: char) -> (r: String)
    ensures
        r@ == seq![c],
{
    let v: Vec<char> = vec![c];
    string_from_chars(v.as_slice())
}

/// Whether the last character of `s` is `c`.
pub fn ends_with_char(s: &str, c: char) -> (r: bool)
    ensures
        r == (s@.len() > 0 && s@.last() == c),
{
    let n = s.unicode_len();
    n > 0 && s.get_char(n - 1) == c
}

/// Whether `c` occurs in `s`.
pub fn contains_char(s: &str, c: char) -> (r: bool)
    ensures
        r == s@.contains(c),
{
    let v = chars_of(s);
    let mut i: usize = 0;
    while i < v.len()
        invariant
            v@ == s@,
            i <= v@.len(),
            forall|j: int| 0 <= j < i ==> v@[j] != c,
        decreases v.len() - i,
    {
        if v[i] == c {
            assert(s@[i as int] == c);
            return true;
        }
        i = i + 1;
    }
    false
}

/// Whether every character of `s` is an ASCII digit.
pub fn all_ascii_digits(s: &str) -> (r: bool)
    ensures
        r == (forall|j: int| 0 <= j < s@.len() ==> spec_is_ascii_digit(#[trigger] s@[j])),
{
    let v = chars_of(s);
    let mut i: usize = 0;
    while i < v.len()
        invariant
            v@ == s@,
            i <= v@.len(),
            forall|j: int| 0 <= j < i ==> spec_is_ascii_digit(#[trigger] v@[j]),
        decreases v.len() - i,
    {
        if !is_ascii_digit(v[i]) {
            assert(!spec_is_ascii_digit(s@[i as int]));
            return false;
        }
        i = i + 1;
    }
    true
}

/// The value of a sequence of decimal digits.
pub open spec fn decimal_value(s: Seq<char>) -> nat
    decreases s.len(),
{
    if s.len() == 0 {
        0
    } else {
        decimal_value(s.drop_last()) * 10 + ((s.last() as u32 - '0' as u32) as nat)
    }
}

/// Text without one leading `+`, if it has one.
pub open spec fn strip_plus(s: Seq<char>) -> Seq<char> {
    if s.len() > 0 && s[0] == '+' {
        s.drop_first()
    } else {
        s
    }
}

pub open spec fn all_digits(d: Seq<char>) -> bool {
    forall|j: int| 0 <= j < d.len() ==> spec_is_ascii_digit(#[trigger] d[j])
}

/// The digits of an unsigned decimal literal as `str::parse` reads it: an
/// optional leading `+`, then at least one ASCII digit.
pub open spec fn unsigned_digits(s: Seq<char>) -> Option<Seq<char>> {
    if strip_plus(s).len() > 0 && all_digits(strip_plus(s)) {
        Some(strip_plus(s))
    } else {
        None
    }
}

/// The number `str::parse::<T>` gives for an unsigned type whose largest
/// value is `max`: `None` on a malformed or too large literal.
pub open spec fn spec_parse_unsigned(s: Seq<char>, max: nat) -> Option<nat> {
    match unsigned_digits(s) {
        Some(d) => if decimal_value(d) <= max {
            Some(decimal_value(d))
        } else {
            None
        },
        None => None,
    }
}

proof fn lemma_decimal_value_step(s: Seq<char>, i: int)
    requires
        0 <= i < s.len(),
    ensures
        decimal_value(s.take(i + 1)) == decimal_value(s.take(i)) * 10 + ((s[i] as u32
            - '0' as u32) as nat),
{
    assert(s.take(i + 1).drop_last() =~= s.take(i));
}

proof fn lemma_decimal_value_monotone(s: Seq<char>, i: int, j: int)
    requires
        0 <= i <= j <= s.len(),
        forall|k: int| 0 <= k < s.len() ==> spec_is_ascii_digit(#[trigger] s[k]),
    ensures
        decimal_value(s.take(i)) <= decimal_value(s.take(j)),
    decreases j - i,
{
    if i < j {
        lemma_decimal_value_monotone(s, i, j - 1);
        lemma_decimal_value_step(s, j - 1);
    }
}

/// `str::parse::<u64>` on decimal text.
pub fn parse_u64(s: &str) -> (r: Option<u64>)
    ensures
        r matches Some(v) ==> spec_parse_unsigned(s@, u64::MAX as nat) == Some(v as nat),
        r is None ==> spec_parse_unsigned(s@, u64::MAX as nat) is None,
{
    let v = chars_of(s);
    let start: usize = if v.len() > 0 && v[0] == '+' {
        1
    } else {
        0
    };
    let ghost d = strip_plus(s@);
    assert(d =~= v@.subrange(start as int, v@.len() as int));
    if start >= v.len() {
        return None;
    }
    let mut i: usize = start;
    let mut acc: u64 = 0;
    while i < v.len()
        invariant
            v@ == s@,
            start <= i <= v@.len(),
            d =~= v@.subrange(start as int, v@.len() as int),
            d == strip_plus(s@),
            forall|k: int| start <= k < i ==> spec_is_ascii_digit(#[trigger] v@[k]),
            acc as nat == decimal_value(d.take(i - start)),
        decreases v.len() - i,
    {
        let c = v[i];
        if !is_ascii_digit(c) {
            assert(d[i - start] == v@[i as int]);
            assert(!spec_is_ascii_digit(d[i - start]));
            return None;
        }
        let digit = (c as u32 - '0' as u32) as u64;
        proof {
            lemma_decimal_value_step(d, i - start);
        }
        if acc > (u64::MAX - digit) / 10 {
            proof {
                assert(d[i - start] == v@[i as int]);
                assert((acc as nat) * 10 + digit as nat > u64::MAX as nat) by (nonlinear_arith)
                    requires
                        acc > (u64::MAX - digit) / 10,
                        digit <= 9,
                ;
                assert(decimal_value(d.take(i - start + 1)) > u64::MAX as nat);
                if all_digits(d) {
                    lemma_decimal_value_monotone(d, i - start + 1, d.len() as int);
                    assert(d.take(d.len() as int) =~= d);
                    assert(decimal_value(d) > u64::MAX as nat);
                }
            }
            return None;
        }
        proof {
            assert((acc as nat) * 10 + digit as nat <= u64::MAX as nat) by (nonlinear_arith)
                requires
                    acc <= (u64::MAX - digit) / 10,
                    digit <= 9,
            ;
        }
        acc = acc * 10 + digit;
        i = i + 1;
    }
    assert(d.take(d.len() as int) =~= d);
    Some(acc)
}

/// `str::parse::<u16>` on decimal text.
pub fn parse_u16(s: &str) -> (r: Option<u16>)
    ensures
        r matches Some(v) ==> spec_parse_unsigned(s@, u16::MAX as nat) == Some(v as nat),
        r is None ==> spec_parse_unsigned(s@, u16::MAX as nat) is None,
{
    match parse_u64(s) {
        Some(v) => {
            if v <= 65535 {
                Some(v as u16)
            } else {
                None
            }
        },
        None => {
            proof {
                match unsigned_digits(s@) {
                    Some(d) => {
                        assert(decimal_value(d) > u64::MAX as nat);
                    },
                    None => {},
                }
            }
            None
        },
    }
}


/// The UTF-8 length of a prefix is at most that of the whole sequence, and
/// grows by one character's length per step.
pub proof fn lemma_utf8_len_prefix(s: Seq<char>, i: int)
    requires
        0 <= i < s.len(),
    ensures
        spec_utf8_len_seq(s.take(i + 1)) == spec_utf8_len_seq(s.take(i)) + spec_utf8_len(s[i]),
        spec_utf8_len_seq(s.take(i + 1)) <= spec_utf8_len_seq(s),
    decreases s.len() - i,
{
    assert(s.take(i + 1).drop_last() == s.take(i));
    if i + 1 < s.len() {
        lemma_utf8_len_prefix(s, i + 1);
    } else {
        assert(s.take(i + 1) == s);
    }
}


/// Every character takes at least one byte.
pub proof fn lemma_utf8_len_at_least_count(s: Seq<char>)
    ensures
        s.len() <= spec_utf8_len_seq(s),
    decreases s.len(),
{
    if s.len() > 0 {
        lemma_utf8_len_at_least_count(s.drop_last());
    }
}


/// Prefix UTF-8 lengths grow strictly with the prefix.
pub proof fn lemma_utf8_len_monotone(s: Seq<char>, i: int, j: int)
    requires
        0 <= i < j <= s.len(),
    ensures
        spec_utf8_len_seq(s.take(i)) < spec_utf8_len_seq(s.take(j)),
    decreases j - i,
{
    lemma_utf8_len_prefix(s, j - 1);
    if i < j - 1 {
        lemma_utf8_len_monotone(s, i, j - 1);
    }
}

/// The byte length of the UTF-8 encoding of `chars`.
pub fn utf8_total(chars: &Vec<char>) -> (r: usize)
    requires
        spec_utf8_len_seq(chars@) <= isize::MAX,
    ensures
        r == spec_utf8_len_seq(chars@),
{
    let mut byte: usize = 0;
    let mut i: usize = 0;
    while i < chars.len()
        invariant
            spec_utf8_len_seq(chars@) <= isize::MAX,
            i <= chars@.len(),
            byte == spec_utf8_len_seq(chars@.take(i as int)),
        decreases chars.len() - i,
    {
        proof {
            lemma_utf8_len_prefix(chars@, i as int);
        }
        byte = byte + utf8_len(chars[i]);
        i = i + 1;
    }
    proof {
        assert(chars@.take(chars@.len() as int) == chars@);
    }
    byte
}

/// The character index at byte offset `offset` of the UTF-8 encoding of
/// `chars`; `None` when `offset` is not a character boundary.
pub fn char_index_of_byte(chars: &Vec<char>, offset: usize) -> (r: Option<usize>)
    requires
        spec_utf8_len_seq(chars@) <= isize::MAX,
    ensures
        r matches Some(k) ==> k <= chars@.len() && spec_utf8_len_seq(chars@.take(k as int)) == offset,
        r is None ==> forall|k: int| 0 <= k <= chars@.len() ==> spec_utf8_len_seq(#[trigger] chars@.take(k)) != offset,
{
    let mut byte: usize = 0;
    let mut i: usize = 0;
    while i < chars.len() && byte < offset
        invariant
            spec_utf8_len_seq(chars@) <= isize::MAX,
            i <= chars@.len(),
            byte == spec_utf8_len_seq(chars@.take(i as int)),
            forall|k: int| 0 <= k < i ==> spec_utf8_len_seq(#[trigger] chars@.take(k)) < offset,
        decreases chars.len() - i,
    {
        proof {
            lemma_utf8_len_prefix(chars@, i as int);
        }
        byte = byte + utf8_len(chars[i]);
        i = i + 1;
    }
    if byte == offset {
        Some(i)
    } else {
        proof {
            assert forall|k: int| 0 <= k <= chars@.len() implies spec_utf8_len_seq(#[trigger] chars@.take(k)) != offset by {
                if k > i {
                    lemma_utf8_len_monotone(chars@, i as int, k);
                }
            };
        }
        None
    }
}


/// The decimal digit character of `d` (for `d < 10`).
pub open spec fn digit_char(d: nat) -> char {
    if d == 0 {
        '0'
    } else if d == 1 {
        '1'
    } else if d == 2 {
        '2'
    } else if d == 3 {
        '3'
    } else if d == 4 {
        '4'
    } else if d == 5 {
        '5'
    } else if d == 6 {
        '6'
    } else if d == 7 {
        '7'
    } else if d == 8 {
        '8'
    } else {
        '9'
    }
}

/// The decimal text of `n` (no sign, no leading zeros).
pub open spec fn decimal_text(n: nat) -> Seq<char>
    decreases n,
{
    if n < 10 {
        seq![digit_char(n)]
    } else {
        decimal_text(n / 10).push(digit_char(n % 10))
    }
}

fn digit(d: u64) -> (r: char)
    requires
        d < 10,
    ensures
        r == digit_char(d as nat),
{
    if d == 0 {
        '0'
    } else if d == 1 {
        '1'
    } else if d == 2 {
        '2'
    } else if d == 3 {
        '3'
    } else if d == 4 {
        '4'
    } else if d == 5 {
        '5'
    } else if d == 6 {
        '6'
    } else if d == 7 {
        '7'
    } else if d == 8 {
        '8'
    } else {
        '9'
    }
}

/// The decimal text of `n` (what `u64`'s `Display` writes).
pub fn decimal_string(n: u64) -> (r: String)
    ensures
        r@ == decimal_text(n as nat),
    decreases n,
{
    if n < 10 {
        char_string(digit(n))
    } else {
        let mut s = decimal_string(n / 10);
        let last = char_string(digit(n % 10));
        s.append(last.as_str());
        s
    }
}

} // verus!
