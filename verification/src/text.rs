//! Small verified string helpers: equality of string slices and decimal
//! rendering of integers.
use vstd::prelude::*;

verus! {

/// Whether two string slices hold the same characters.
pub fn str_eq(a: &str, b: &str) -> (same: bool)
    ensures
        same == (a@ == b@),
{
    a.to_owned() == b.to_owned()
}

/// The decimal digit character for `d` (`0 <= d < 10`).
pub open spec fn digit_char(d: int) -> char {
    if d == 0 {
        '0'
    } else if d == 1 {
        '1'
    } else if d == 2 {
        '2'
    } else if d == 3 {
        '3'
    } else if d == 4 {
        '4'
    } else if d == 5 {
        '5'
    } else if d == 6 {
        '6'
    } else if d == 7 {
        '7'
    } else if d == 8 {
        '8'
    } else {
        '9'
    }
}

/// Decimal digits of a natural number, most significant first, no leading zeros.
pub open spec fn nat_decimal(n: nat) -> Seq<char>
    decreases n,
{
    if n < 10 {
        seq![digit_char(n as int)]
    } else {
        nat_decimal(n / 10).push(digit_char((n % 10) as int))
    }
}

/// Decimal rendering of an integer, with a leading `-` for negative values.
pub open spec fn int_decimal(n: int) -> Seq<char> {
    if n < 0 {
        seq!['-'] + nat_decimal((-n) as nat)
    } else {
        nat_decimal(n as nat)
    }
}

fn digit_str(d: u64) -> (s: &'static str)
    requires
        d < 10,
    ensures
        s@ == seq![digit_char(d as int)],
{
    proof {
        reveal_strlit("0");
        reveal_strlit("1");
        reveal_strlit("2");
        reveal_strlit("3");
        reveal_strlit("4");
        reveal_strlit("5");
        reveal_strlit("6");
        reveal_strlit("7");
        reveal_strlit("8");
        reveal_strlit("9");
    }
    if d == 0 {
        "0"
    } else if d == 1 {
        "1"
    } else if d == 2 {
        "2"
    } else if d == 3 {
        "3"
    } else if d == 4 {
        "4"
    } else if d == 5 {
        "5"
    } else if d == 6 {
        "6"
    } else if d == 7 {
        "7"
    } else if d == 8 {
        "8"
    } else {
        "9"
    }
}

/// Decimal rendering of a natural number.
pub fn nat_to_string(n: u64) -> (s: String)
    ensures
        s@ == nat_decimal(n as nat),
    decreases n,
{
    if n < 10 {
        String::from_str(digit_str(n))
    } else {
        let mut s = nat_to_string(n / 10);
        s.append(digit_str(n % 10));
        s
    }
}

/// Decimal rendering of an integer.
pub fn int_to_string(n: i64) -> (s: String)
    ensures
        s@ == int_decimal(n as int),
{
    if n < 0 {
        let magnitude: u64 = if n == i64::MIN {
            9223372036854775808u64
        } else {
            (-n) as u64
        };
        let mut s = String::from_str("-");
        let digits = nat_to_string(magnitude);
        proof {
            reveal_strlit("-");
        }
        s.append(digits.as_str());
        s
    } else {
        nat_to_string(n as u64)
    }
}


/// Whether `c` is white space in the Unicode sense that Rust's `trim` uses.
pub open spec fn is_white_space(c: char) -> bool {
    let u = c as u32;
    (9 <= u <= 13) || u == 32 || u == 0x85 || u == 0xA0 || u == 0x1680 || (0x2000 <= u <= 0x200A)
        || u == 0x2028 || u == 0x2029 || u == 0x202F || u == 0x205F || u == 0x3000
}

/// How many white-space characters `s` starts with.
pub open spec fn leading_space(s: Seq<char>) -> nat
    decreases s.len(),
{
    if s.len() > 0 && is_white_space(s[0]) {
        1 + leading_space(s.drop_first())
    } else {
        0
    }
}

/// How many white-space characters `s` ends with.
pub open spec fn trailing_space(s: Seq<char>) -> nat
    decreases s.len(),
{
    if s.len() > 0 && is_white_space(s.last()) {
        1 + trailing_space(s.drop_last())
    } else {
        0
    }
}

/// `s` without leading and trailing white space.
pub open spec fn trimmed(s: Seq<char>) -> Seq<char> {
    let t = s.skip(leading_space(s) as int);
    t.take(t.len() - trailing_space(t))
}

/// Whether `c` is a decimal digit.
pub open spec fn is_digit(c: char) -> bool {
    48 <= (c as u32) <= 57
}

/// The value of a string of decimal digits.
pub open spec fn decimal_value(s: Seq<char>) -> int
    decreases s.len(),
{
    if s.len() == 0 {
        0
    } else {
        decimal_value(s.drop_last()) * 10 + ((s.last() as u32) - 48)
    }
}

/// Whether every character of `s` is a decimal digit.
pub open spec fn all_digits(s: Seq<char>) -> bool {
    forall|i: int| 0 <= i < s.len() ==> is_digit(#[trigger] s[i])
}

/// `s` without its leading `+` or `-` sign, if it has one.
pub open spec fn unsigned_part(s: Seq<char>) -> Seq<char> {
    if s.len() > 0 && (s[0] == '+' || s[0] == '-') {
        s.drop_first()
    } else {
        s
    }
}

/// The `i32` that `s` spells in decimal, with an optional `+` or `-` sign, as
/// Rust's `str::parse` reads it; `None` where `s` is no such number or the
/// number does not fit.
pub open spec fn parse_i32(s: Seq<char>) -> Option<i32> {
    let digits = unsigned_part(s);
    let v = if s.len() > 0 && s[0] == '-' { -decimal_value(digits) } else { decimal_value(digits) };
    if s.len() == 0 || digits.len() == 0 || !all_digits(digits) {
        None
    } else if i32::MIN <= v <= i32::MAX {
        Some(v as i32)
    } else {
        None
    }
}

proof fn lemma_leading_space(s: Seq<char>, k: int)
    requires
        0 <= k <= s.len(),
        forall|i: int| 0 <= i < k ==> is_white_space(#[trigger] s[i]),
        k == s.len() || !is_white_space(s[k]),
    ensures
        leading_space(s) == k,
    decreases k,
{
    if k > 0 {
        lemma_leading_space(s.drop_first(), k - 1);
    }
}

proof fn lemma_trailing_space(s: Seq<char>, k: int)
    requires
        0 <= k <= s.len(),
        forall|i: int| s.len() - k <= i < s.len() ==> is_white_space(#[trigger] s[i]),
        k == s.len() || !is_white_space(s[s.len() - k - 1]),
    ensures
        trailing_space(s) == k,
    decreases k,
{
    if k > 0 {
        lemma_trailing_space(s.drop_last(), k - 1);
    }
}

/// The decimal value of `s`, capped at `cap`.
spec fn capped(v: int, cap: int) -> int {
    if v < cap { v } else { cap }
}

proof fn lemma_decimal_nonneg(s: Seq<char>)
    requires
        forall|i: int| 0 <= i < s.len() ==> is_digit(#[trigger] s[i]),
    ensures
        decimal_value(s) >= 0,
    decreases s.len(),
{
    if s.len() > 0 {
        lemma_decimal_nonneg(s.drop_last());
    }
}

fn is_white_space_exec(c: char) -> (w: bool)
    ensures
        w == is_white_space(c),
{
    let u = c as u32;
    (9 <= u && u <= 13) || u == 32 || u == 0x85 || u == 0xA0 || u == 0x1680 || (0x2000 <= u && u <= 0x200A)
        || u == 0x2028 || u == 0x2029 || u == 0x202F || u == 0x205F || u == 0x3000
}

/// Reads an `i32` from `text` with white space around it trimmed, as
/// `text.trim().parse::<i32>()` does.
pub fn parse_trimmed_i32(text: &str) -> (value: Option<i32>)
    ensures
        value == parse_i32(trimmed(text@)),
{
    let n = text.unicode_len();
    let ghost s = text@;
    let mut a: usize = 0;
    while a < n && is_white_space_exec(text.get_char(a))
        invariant
            s == text@,
            n == s.len(),
            a <= n,
            forall|i: int| 0 <= i < a ==> is_white_space(#[trigger] s[i]),
        decreases n - a,
    {
        a += 1;
    }
    proof {
        lemma_leading_space(s, a as int);
    }
    let ghost t = s.skip(a as int);
    let mut b: usize = n;
    while b > a && is_white_space_exec(text.get_char(b - 1))
        invariant
            s == text@,
            n == s.len(),
            a <= b <= n,
            t == s.skip(a as int),
            forall|i: int| b <= i < n ==> is_white_space(#[trigger] s[i]),
        decreases b - a,
    {
        b -= 1;
    }
    proof {
        assert forall|i: int| t.len() - (n - b) <= i < t.len() implies is_white_space(#[trigger] t[i]) by {
            assert(t[i] == s[a + i]);
        }
        if b > a {
            assert(t[t.len() - (n - b) - 1] == s[b - 1]);
        }
        lemma_trailing_space(t, (n - b) as int);
    }
    let ghost u = trimmed(s);
    proof {
        assert(u =~= s.subrange(a as int, b as int));
    }
    if a == b {
        return None;
    }
    let first = text.get_char(a);
    let negative = first == '-';
    let signed = first == '+' || first == '-';
    let start = if signed { a + 1 } else { a };
    let ghost digits = if signed { u.drop_first() } else { u };
    proof {
        assert(digits =~= s.subrange(start as int, b as int));
    }
    if start == b {
        return None;
    }
    let cap: i64 = 2147483649;
    let mut acc: i64 = 0;
    let mut k: usize = start;
    while k < b
        invariant
            s == text@,
            u == s.subrange(a as int, b as int),
            u == trimmed(s),
            a < b,
            first == s[a as int],
            signed == (first == '+' || first == '-'),
            negative == (first == '-'),
            digits == (if signed { u.drop_first() } else { u }),
            start <= k <= b,
            b <= n,
            n == s.len(),
            digits == s.subrange(start as int, b as int),
            forall|i: int| start <= i < k ==> is_digit(#[trigger] s[i]),
            0 <= acc <= cap,
            cap == 2147483649,
            acc == capped(decimal_value(s.subrange(start as int, k as int)), cap as int),
        decreases b - k,
    {
        let c = text.get_char(k);
        let code = c as u32;
        if code < 48 || code > 57 {
            proof {
                assert(digits[k - start] == c);
                assert(!is_digit(digits[k - start]));
                assert(u[0] == first);
            }
            return None;
        }
        let ghost prefix = s.subrange(start as int, k as int);
        let ghost next = s.subrange(start as int, k + 1);
        proof {
            assert(next.drop_last() =~= prefix);
            assert(next.last() == c);
            assert forall|i: int| 0 <= i < prefix.len() implies is_digit(#[trigger] prefix[i]) by {
                assert(prefix[i] == s[start + i]);
            }
            lemma_decimal_nonneg(prefix);
        }
        let d = (code - 48) as i64;
        let grown = acc * 10 + d;
        acc = if grown < cap { grown } else { cap };
        k += 1;
    }
    proof {
        assert forall|i: int| 0 <= i < digits.len() implies is_digit(#[trigger] digits[i]) by {
            assert(digits[i] == s[start + i]);
        }
        lemma_decimal_nonneg(digits);
        assert(s.subrange(start as int, k as int) =~= digits);
    }
    if negative {
        if acc <= 2147483648 {
            Some((-acc) as i32)
        } else {
            None
        }
    } else {
        if acc <= 2147483647 {
            Some(acc as i32)
        } else {
            None
        }
    }
}

} // verus!
