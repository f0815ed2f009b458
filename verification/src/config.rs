use vstd::prelude::*;
use vstd::string::StrSliceExecFns;

use crate::text::{decimal, digit_char};

verus! {

/// The value of the decimal digit `c`, or `None` if `c` is no ASCII digit.
pub open spec fn digit_value(c: char) -> Option<nat> {
    if c == '0' {
        Some(0)
    } else if c == '1' {
        Some(1)
    } else if c == '2' {
        Some(2)
    } else if c == '3' {
        Some(3)
    } else if c == '4' {
        Some(4)
    } else if c == '5' {
        Some(5)
    } else if c == '6' {
        Some(6)
    } else if c == '7' {
        Some(7)
    } else if c == '8' {
        Some(8)
    } else if c == '9' {
        Some(9)
    } else {
        None
    }
}

pub open spec fn is_ascii_digit(c: char) -> bool {
    digit_value(c) is Some
}

/// The number written by the decimal digits `s`.
pub open spec fn digits_value(s: Seq<char>) -> nat
    decreases s.len(),
{
    if s.len() == 0 {
        0
    } else {
        digits_value(s.drop_last()) * 10 + digit_value(s.last()).unwrap_or(0)
    }
}

/// `s` without the one `+` sign it may start with.
pub open spec fn unsigned_digits(s: Seq<char>) -> Seq<char> {
    if s.len() > 0 && s[0] == '+' {
        s.drop_first()
    } else {
        s
    }
}

/// Every character of `s` is a decimal digit.
pub open spec fn all_digits(s: Seq<char>) -> bool {
    forall|i: int| 0 <= i < s.len() ==> is_ascii_digit(#[trigger] s[i])
}

/// The number that `s` writes when it is an optional `+` followed by one or
/// more decimal digits whose value is at most `max`; `None` otherwise.
pub open spec fn parsed_number(s: Seq<char>, max: nat) -> Option<nat> {
    let digits = unsigned_digits(s);
    if digits.len() > 0 && all_digits(digits) && digits_value(digits) <= max {
        Some(digits_value(digits))
    } else {
        None
    }
}

/// What parsing `s` as a `usize` gives: an optional `+` followed by one or
/// more decimal digits whose value fits in a `usize`; anything else fails.
pub open spec fn parsed_usize(s: Seq<char>) -> Option<usize> {
    match parsed_number(s, usize::MAX as nat) {
        Some(n) => Some(n as usize),
        None => None,
    }
}

/// What parsing `s` as a `u64` gives, by the same rule.
pub open spec fn parsed_u64(s: Seq<char>) -> Option<u64> {
    match parsed_number(s, u64::MAX as nat) {
        Some(n) => Some(n as u64),
        None => None,
    }
}

/// The value of the decimal digit `c` as a `u64`, or `None` if `c` is no
/// ASCII digit.
fn digit_of(c: char) -> (r: Option<u64>)
    ensures
        match digit_value(c) {
            Some(v) => r == Some(v as u64),
            None => r is None,
        },
{
    match c {
        '0' => Some(0),
        '1' => Some(1),
        '2' => Some(2),
        '3' => Some(3),
        '4' => Some(4),
        '5' => Some(5),
        '6' => Some(6),
        '7' => Some(7),
        '8' => Some(8),
        '9' => Some(9),
        _ => None,
    }
}

proof fn lemma_digits_value_step(s: Seq<char>, n: int)
    requires
        0 <= n < s.len(),
    ensures
        digits_value(s.take(n + 1)) == digits_value(s.take(n)) * 10 + digit_value(s[n]).unwrap_or(0),
{
    assert(s.take(n + 1).drop_last() =~= s.take(n));
}

/// A prefix of a digit string never has a larger value than the whole.
proof fn lemma_digits_value_prefix(s: Seq<char>, n: int)
    requires
        0 <= n <= s.len(),
    ensures
        digits_value(s.take(n)) <= digits_value(s),
    decreases s.len() - n,
{
    if n < s.len() {
        lemma_digits_value_prefix(s, n + 1);
        lemma_digits_value_step(s, n);
    } else {
        assert(s.take(n) =~= s);
    }
}

/// Reads `text` the way `str::parse` reads an unsigned integer type whose
/// largest value is `max`: an optional `+`, then one or more decimal digits
/// whose value is at most `max`.
fn parse_number(text: &str, max: u64) -> (r: Option<u64>)
    ensures
        match parsed_number(text@, max as nat) {
            Some(n) => r == Some(n as u64),
            None => r is None,
        },
{
    let len = text.unicode_len();
    let mut start: usize = 0;
    if len > 0 && text.get_char(0) == '+' {
        start = 1;
    }
    if start == len {
        return None;
    }
    let ghost digits = text@.skip(start as int);
    proof {
        if text@.len() > 0 && text@[0] == '+' {
            assert(digits =~= text@.drop_first());
        } else {
            assert(digits =~= text@);
        }
        assert(digits.take(0) =~= Seq::<char>::empty());
    }
    let mut acc: u64 = 0;
    let mut i: usize = start;
    while i < len
        invariant
            start <= i <= len,
            start < len,
            len == text@.len(),
            digits == text@.skip(start as int),
            digits == unsigned_digits(text@),
            forall|k: int| 0 <= k < i - start ==> is_ascii_digit(#[trigger] digits[k]),
            acc == digits_value(digits.take(i - start)),
            acc <= max,
        decreases len - i,
    {
        let c = text.get_char(i);
        assert(digits[i - start] == c);
        let d = match digit_of(c) {
            Some(d) => d,
            None => {
                proof {
                    assert(!is_ascii_digit(digits[i - start]));
                    assert(i - start < digits.len());
                }
                return None;
            },
        };
        proof {
            lemma_digits_value_step(digits, i - start);
        }
        let next = match acc.checked_mul(10) {
            Some(m) => m.checked_add(d),
            None => None,
        };
        match next {
            Some(v) if v <= max => {
                acc = v;
            },
            _ => {
                proof {
                    lemma_digits_value_prefix(digits, i - start + 1);
                }
                return None;
            },
        }
        i = i + 1;
    }
    proof {
        assert(digits.take(i - start) =~= digits);
    }
    Some(acc)
}

/// Reads `text` as a `usize` the way `str::parse::<usize>` does.
fn parse_usize(text: &str) -> (r: Option<usize>)
    ensures
        r == parsed_usize(text@),
{
    match parse_number(text, usize::MAX as u64) {
        Some(n) => Some(n as usize),
        None => None,
    }
}

/// Reads `text` as a `u64` the way `str::parse::<u64>` does.
pub fn parse_u64(text: &str) -> (r: Option<u64>)
    ensures
        r == parsed_u64(text@),
{
    parse_number(text, u64::MAX)
}

/// `c` is one of the characters `0` to `9`, by its code point.
pub open spec fn is_digit_code(c: char) -> bool {
    48 <= (c as u32) <= 57
}

/// Every character of `s` is one of `0` to `9`, by its code point.
pub open spec fn digit_codes(s: Seq<char>) -> bool {
    forall|i: int| 0 <= i < s.len() ==> is_digit_code(#[trigger] s[i])
}

proof fn lemma_digit_code(c: char)
    ensures
        is_ascii_digit(c) <==> is_digit_code(c),
        is_digit_code(c) ==> digit_value(c) == Some(((c as u32) - 48) as nat),
{
}

proof fn lemma_digit_codes(s: Seq<char>)
    ensures
        all_digits(s) <==> digit_codes(s),
{
    assert forall|i: int| 0 <= i < s.len() implies (is_ascii_digit(#[trigger] s[i]) <==> is_digit_code(s[i])) by {
        lemma_digit_code(s[i]);
    }
}

/// Law: a single digit reads as its own value, zero included.
pub proof fn lemma_parse_single_digit(c: char)
    requires
        is_digit_code(c),
    ensures
        parsed_u64(seq![c]) == Some(((c as u32) - 48) as u64),
        parsed_usize(seq![c]) == Some(((c as u32) - 48) as usize),
{
    lemma_digit_code(c);
    lemma_digit_codes(seq![c]);
    let s = seq![c];
    assert(s[0] == c);
    assert(digit_codes(s));
    assert(all_digits(s));
    assert(unsigned_digits(s) == s);
    assert(s.drop_last() =~= Seq::<char>::empty());
    assert(digits_value(Seq::<char>::empty()) == 0);
    assert(s.last() == c);
    assert(digit_value(c).unwrap_or(0) == (c as u32) - 48);
    assert(digits_value(s) == (c as u32) - 48);
}

/// Law: appending a digit to a digit string multiplies what it reads as by
/// ten and adds the digit, and the result is refused exactly when it does
/// not fit the type.
pub proof fn lemma_parse_append_digit(s: Seq<char>, c: char)
    requires
        s.len() > 0,
        digit_codes(s),
        is_digit_code(c),
    ensures
        parsed_u64(s.push(c)) == match parsed_u64(s) {
            Some(n) => if n * 10 + ((c as u32) - 48) <= u64::MAX {
                Some((n * 10 + ((c as u32) - 48)) as u64)
            } else {
                None
            },
            None => None,
        },
        parsed_usize(s.push(c)) == match parsed_usize(s) {
            Some(n) => if n * 10 + ((c as u32) - 48) <= usize::MAX {
                Some((n * 10 + ((c as u32) - 48)) as usize)
            } else {
                None
            },
            None => None,
        },
{
    let t = s.push(c);
    lemma_digit_code(c);
    lemma_digit_code(s[0]);
    lemma_digit_codes(s);
    lemma_digit_codes(t);
    assert(t[0] == s[0]);
    assert(unsigned_digits(s) == s);
    assert(unsigned_digits(t) == t);
    assert(t.drop_last() =~= s);
    assert(t.last() == c);
    assert(digits_value(t) == digits_value(s) * 10 + ((c as u32) - 48));
}

/// Law: a `+` sign in front of a digit string changes nothing, and a sign
/// alone, or nothing at all, reads as no number.
pub proof fn lemma_parse_plus_sign(s: Seq<char>)
    requires
        s.len() > 0,
        digit_codes(s),
    ensures
        parsed_u64(seq!['+'] + s) == parsed_u64(s),
        parsed_usize(seq!['+'] + s) == parsed_usize(s),
        parsed_u64(seq!['+']) is None,
        parsed_usize(seq!['+']) is None,
        parsed_u64(Seq::<char>::empty()) is None,
        parsed_usize(Seq::<char>::empty()) is None,
{
    let t = seq!['+'] + s;
    lemma_digit_code(s[0]);
    assert(t.drop_first() =~= s);
    assert(unsigned_digits(s) == s);
    assert(unsigned_digits(seq!['+']) =~= Seq::<char>::empty());
}

/// Law: a character other than `0` to `9` anywhere but in a leading `+`
/// sign makes the text read as no number.
pub proof fn lemma_parse_rejects_non_digit(s: Seq<char>, i: int)
    requires
        0 <= i < s.len(),
        !is_digit_code(s[i]),
        !(i == 0 && s[0] == '+'),
    ensures
        parsed_u64(s) is None,
        parsed_usize(s) is None,
{
    lemma_digit_code(s[i]);
    let d = unsigned_digits(s);
    if s.len() > 0 && s[0] == '+' {
        assert(d[i - 1] == s[i]);
        assert(!is_ascii_digit(d[i - 1]));
    } else {
        assert(!is_ascii_digit(d[i]));
    }
}

proof fn lemma_digit_char_code(d: nat)
    ensures
        is_digit_code(digit_char(d)),
        (digit_char(d) as u32) - 48 == d % 10,
{
}

proof fn lemma_decimal_digits(n: nat)
    ensures
        decimal(n).len() > 0,
        digit_codes(decimal(n)),
        all_digits(decimal(n)),
        digits_value(decimal(n)) == n,
        n > 0 ==> decimal(n)[0] != '0',
    decreases n,
{
    lemma_digit_char_code(n);
    lemma_digit_code(digit_char(n));
    if n < 10 {
        let s = decimal(n);
        assert(s =~= seq![digit_char(n)]);
        assert(s[0] == digit_char(n));
        assert(s.drop_last() =~= Seq::<char>::empty());
        assert(digits_value(Seq::<char>::empty()) == 0);
        assert(s.last() == digit_char(n));
    } else {
        lemma_decimal_digits(n / 10);
        let t = decimal(n / 10);
        let c = digit_char(n % 10);
        lemma_digit_char_code(n % 10);
        lemma_digit_code(c);
        let s = decimal(n);
        assert(s == t.push(c));
        assert(s.drop_last() =~= t);
        assert(s.last() == c);
        assert(s[0] == t[0]);
        assert forall|i: int| 0 <= i < s.len() implies is_digit_code(#[trigger] s[i]) by {
            if i < t.len() {
                assert(s[i] == t[i]);
            }
        }
    }
    lemma_digit_codes(decimal(n));
}

/// Law: what the library prints as a decimal number reads back as that
/// number: it is one or more digits, without a leading zero unless the
/// number is zero, and parsing it gives the number again.
pub proof fn lemma_decimal_reads_back(n: u64)
    ensures
        decimal(n as nat).len() > 0,
        digit_codes(decimal(n as nat)),
        n > 0 ==> decimal(n as nat)[0] != '0',
        n == 0 ==> decimal(n as nat) == seq!['0'],
        parsed_u64(decimal(n as nat)) == Some(n),
{
    lemma_decimal_digits(n as nat);
    let s = decimal(n as nat);
    lemma_digit_code(s[0]);
    assert(unsigned_digits(s) == s);
    if n == 0 {
        assert(s =~= seq!['0']);
    }
}

/// The value of a numeric setting: `raw` parsed as a `usize` when it is
/// present and well formed, `default` otherwise.
pub fn usize_setting(raw: Option<&str>, default: usize) -> (v: usize)
    ensures
        v == match raw {
            Some(t) => match parsed_usize(t@) {
                Some(n) => n,
                None => default,
            },
            None => default,
        },
{
    match raw {
        Some(t) => match parse_usize(t) {
            Some(n) => n,
            None => default,
        },
        None => default,
    }
}

} // verus!
