//! Texts: comparison, search, and decimal numbers.

use vstd::prelude::*;

verus! {

/// Whether two string slices hold the same characters.
pub fn str_eq(a: &str, b: &str) -> (r: bool)
    ensures
        r == (a@ == b@),
{
    let x = a.to_owned();
    let y = b.to_owned();
    x == y
}

/// The characters of a string, one by one.
pub fn chars_of(s: &str) -> (v: Vec<char>)
    ensures
        v@ == s@,
{
    let mut v: Vec<char> = Vec::new();
    for c in it: s.chars()
        invariant
            v@ == it.seq().take(it.index() as int),
    {
        v.push(c);
    }
    v
}

/// Whether `prefix` is a prefix of `s`, character by character.
pub fn starts_with(s: &str, prefix: &str) -> (r: bool)
    ensures
        r == prefix@.is_prefix_of(s@),
{
    let a = chars_of(s);
    let p = chars_of(prefix);
    if p.len() > a.len() {
        return false;
    }
    let mut i: usize = 0;
    while i < p.len()
        invariant
            i <= p.len() <= a.len(),
            a@ == s@,
            p@ == prefix@,
            forall|k: int| 0 <= k < i ==> p@[k] == a@[k],
        decreases p.len() - i,
    {
        if p[i] != a[i] {
            assert(a@.subrange(0, p@.len() as int)[i as int] != p@[i as int]);
            return false;
        }
        i += 1;
    }
    assert(p@ =~= a@.subrange(0, p@.len() as int));
    true
}

/// `needle` occurs in `s` at offset `at`.
pub open spec fn occurs_at(s: Seq<char>, needle: Seq<char>, at: int) -> bool {
    0 <= at && at + needle.len() <= s.len() && s.subrange(at, at + needle.len()) == needle
}

/// `needle` occurs somewhere in `s`.
pub open spec fn occurs_in(s: Seq<char>, needle: Seq<char>) -> bool {
    exists|at: int| occurs_at(s, needle, at)
}

fn matches_at(a: &Vec<char>, n: &Vec<char>, at: usize) -> (r: bool)
    requires
        at + n.len() <= a.len(),
    ensures
        r == occurs_at(a@, n@, at as int),
{
    let mut j: usize = 0;
    while j < n.len()
        invariant
            j <= n.len(),
            at + n.len() <= a.len(),
            forall|k: int| 0 <= k < j ==> a@[at + k] == n@[k],
        decreases n.len() - j,
    {
        if a[at + j] != n[j] {
            assert(a@.subrange(at as int, at + n.len())[j as int] != n@[j as int]);
            return false;
        }
        j += 1;
    }
    assert(a@.subrange(at as int, at + n.len()) =~= n@);
    true
}

/// Whether `needle` occurs somewhere in `s`.
pub fn contains(s: &str, needle: &str) -> (r: bool)
    ensures
        r == occurs_in(s@, needle@),
{
    let a = chars_of(s);
    let n = chars_of(needle);
    if n.len() > a.len() {
        return false;
    }
    let last: usize = a.len() - n.len();
    let mut at: usize = 0;
    loop
        invariant
            last == a.len() - n.len(),
            at <= last,
            a@ == s@,
            n@ == needle@,
            forall|k: int| 0 <= k < at ==> !occurs_at(a@, n@, k),
        decreases last - at,
    {
        if matches_at(&a, &n, at) {
            assert(occurs_at(a@, n@, at as int));
            return true;
        }
        if at == last {
            return false;
        }
        at += 1;
    }
}

/// Whether a character is an ASCII decimal digit.
pub open spec fn is_digit(c: char) -> bool {
    '0' <= c <= '9'
}

/// The number a decimal digit stands for.
pub open spec fn digit_value(c: char) -> int {
    c as int - '0' as int
}

/// Whether every character is a decimal digit.
pub open spec fn all_digits(s: Seq<char>) -> bool {
    forall|i: int| 0 <= i < s.len() ==> is_digit(#[trigger] s[i])
}

/// The number that a run of decimal digits writes, most significant first.
pub open spec fn decimal_value(s: Seq<char>) -> nat
    decreases s.len(),
{
    if s.len() == 0 {
        0
    } else {
        (decimal_value(s.drop_last()) * 10 + digit_value(s.last())) as nat
    }
}

/// The integer that a text writes: an optional sign and at least one digit.
pub open spec fn signed_decimal(s: Seq<char>) -> Option<int> {
    if s.len() > 0 && (s[0] == '-' || s[0] == '+') {
        let digits = s.skip(1);
        if digits.len() > 0 && all_digits(digits) {
            if s[0] == '-' {
                Some(-(decimal_value(digits) as int))
            } else {
                Some(decimal_value(digits) as int)
            }
        } else {
            None
        }
    } else if s.len() > 0 && all_digits(s) {
        Some(decimal_value(s) as int)
    } else {
        None
    }
}

/// The signed 64-bit integer that a text writes, if it writes one that fits.
pub open spec fn decimal_i64(s: Seq<char>) -> Option<i64> {
    match signed_decimal(s) {
        Some(v) => if i64::MIN <= v <= i64::MAX {
            Some(v as i64)
        } else {
            None
        },
        None => None,
    }
}

proof fn lemma_decimal_value_grows(s: Seq<char>, k: int)
    requires
        0 <= k <= s.len(),
        all_digits(s),
    ensures
        decimal_value(s.take(k)) <= decimal_value(s),
    decreases s.len() - k,
{
    if k < s.len() {
        let t = s.take(k + 1);
        assert(t.drop_last() =~= s.take(k));
        assert(is_digit(s[k]));
        assert(t.last() == s[k]);
        assert(decimal_value(t) >= decimal_value(s.take(k))) by (nonlinear_arith)
            requires
                decimal_value(t) == decimal_value(s.take(k)) * 10 + digit_value(s[k]),
                digit_value(s[k]) >= 0,
        ;
        lemma_decimal_value_grows(s, k + 1);
    } else {
        assert(s.take(k) =~= s);
    }
}

/// Reads a signed decimal integer: an optional `+` or `-`, then digits only.
/// `None` where the text is no such number or the number does not fit.
pub fn parse_i64(s: &str) -> (r: Option<i64>)
    ensures
        r == decimal_i64(s@),
{
    let a = chars_of(s);
    if a.len() == 0 {
        return None;
    }
    let negative = a[0] == '-';
    let start: usize = if a[0] == '-' || a[0] == '+' {
        1
    } else {
        0
    };
    if start == a.len() {
        assert(a@.skip(1).len() == 0);
        return None;
    }
    let ghost digits = a@.skip(start as int);
    assert(start == 0 ==> digits =~= a@);
    let limit: u128 = 9223372036854775808;
    let mut acc: u128 = 0;
    let mut i: usize = start;
    while i < a.len()
        invariant
            start <= i <= a.len(),
            a@ == s@,
            start == 0 || (start == 1 && (a@[0] == '-' || a@[0] == '+')),
            start == 0 ==> a@[0] != '-' && a@[0] != '+',
            start == 0 ==> digits =~= a@,
            digits == a@.skip(start as int),
            forall|k: int| 0 <= k < i - start ==> is_digit(#[trigger] digits[k]),
            acc == decimal_value(digits.take(i - start)),
            acc <= limit,
            limit == 9223372036854775808,
        decreases a.len() - i,
    {
        let c = a[i];
        if c < '0' || c > '9' {
            assert(!is_digit(digits[i - start]));
            return None;
        }
        let d: u128 = (c as u32 - 48) as u128;
        proof {
            let t = digits.take(i - start + 1);
            assert(t.drop_last() =~= digits.take(i - start));
            assert(t.last() == c);
            assert(is_digit(c));
            assert(digit_value(c) == d);
            assert(decimal_value(t) == decimal_value(t.drop_last()) * 10 + digit_value(t.last()));
        }
        acc = acc * 10 + d;
        i += 1;
        if acc > limit {
            proof {
                if all_digits(digits) {
                    lemma_decimal_value_grows(digits, i - start);
                }
            }
            return None;
        }
    }
    proof {
        assert(digits.take(i - start) =~= digits);
        assert(all_digits(digits));
    }
    if negative {
        if acc == limit {
            Some(i64::MIN)
        } else {
            Some(-(acc as i64))
        }
    } else if acc == limit {
        None
    } else {
        Some(acc as i64)
    }
}

/// The character that writes a digit below ten.
pub open spec fn digit_char(d: nat) -> char {
    if d == 0 {
        '0'
    } else if d == 1 {
        '1'
    } else if d == 2 {
        '2'
    } else if d == 3 {
        '3'
    } else if d == 4 {
        '4'
    } else if d == 5 {
        '5'
    } else if d == 6 {
        '6'
    } else if d == 7 {
        '7'
    } else if d == 8 {
        '8'
    } else {
        '9'
    }
}

/// A number in decimal, without sign or padding.
pub open spec fn decimal_text(n: nat) -> Seq<char>
    decreases n,
{
    if n < 10 {
        seq![digit_char(n)]
    } else {
        decimal_text(n / 10).push(digit_char(n % 10))
    }
}

/// A number written in decimal reads back as itself.
pub proof fn lemma_decimal_round_trip(n: nat)
    ensures
        decimal_text(n).len() > 0,
        all_digits(decimal_text(n)),
        decimal_value(decimal_text(n)) == n,
    decreases n,
{
    let t = decimal_text(n);
    if n < 10 {
        assert(t.drop_last() =~= Seq::<char>::empty());
        assert(decimal_value(t.drop_last()) == 0);
        assert(digit_value(digit_char(n)) == n);
    } else {
        lemma_decimal_round_trip(n / 10);
        let head = decimal_text(n / 10);
        assert(t.drop_last() =~= head);
        assert(t.last() == digit_char(n % 10));
        assert(digit_value(digit_char(n % 10)) == n % 10);
        assert forall|i: int| 0 <= i < t.len() implies is_digit(#[trigger] t[i]) by {
            if i < head.len() {
                assert(t[i] == head[i]);
            }
        }
    }
}

fn digit_str(d: u64) -> (r: &'static str)
    requires
        d < 10,
    ensures
        r@ == seq![digit_char(d as nat)],
{
    proof {
        reveal_strlit("0");
        reveal_strlit("1");
        reveal_strlit("2");
        reveal_strlit("3");
        reveal_strlit("4");
        reveal_strlit("5");
        reveal_strlit("6");
        reveal_strlit("7");
        reveal_strlit("8");
        reveal_strlit("9");
    }
    let r = if d == 0 {
        "0"
    } else if d == 1 {
        "1"
    } else if d == 2 {
        "2"
    } else if d == 3 {
        "3"
    } else if d == 4 {
        "4"
    } else if d == 5 {
        "5"
    } else if d == 6 {
        "6"
    } else if d == 7 {
        "7"
    } else if d == 8 {
        "8"
    } else {
        "9"
    };
    assert(r@ =~= seq![digit_char(d as nat)]);
    r
}

/// Writes a number in decimal.
pub fn u64_to_string(n: u64) -> (r: String)
    ensures
        r@ == decimal_text(n as nat),
    decreases n,
{
    if n < 10 {
        String::from_str(digit_str(n))
    } else {
        let mut r = u64_to_string(n / 10);
        r.append(digit_str(n % 10));
        assert(r@ =~= decimal_text(n as nat));
        r
    }
}

/// Two texts, one after the other.
pub fn joined(a: &str, b: &str) -> (r: String)
    ensures
        r@ == a@ + b@,
{
    let mut r = String::from_str(a);
    r.append(b);
    r
}

} // verus!
