//! Text primitives: prefixes, decimal numbers and booleans, on `str` and `String`.

use vstd::prelude::*;
use vstd::string::*;

verus! {

/// `s` begins with `p`.
pub open spec fn has_prefix(s: Seq<char>, p: Seq<char>) -> bool {
    p.len() <= s.len() && s.take(p.len() as int) == p
}

/// `s` with every leading copy of `p` removed.
pub open spec fn trimmed(s: Seq<char>, p: Seq<char>) -> Seq<char>
    decreases s.len(),
{
    if p.len() > 0 && has_prefix(s, p) {
        trimmed(s.skip(p.len() as int), p)
    } else {
        s
    }
}

/// The decimal digit that stands for `d`.
pub open spec fn digit_char(d: nat) -> char {
    (('0' as u32 + d) as u32) as char
}

/// The shortest decimal text of `n`.
pub open spec fn decimal(n: nat) -> Seq<char>
    decreases n,
{
    if n < 10 {
        seq![digit_char(n)]
    } else {
        decimal(n / 10).push(digit_char(n % 10))
    }
}

/// The text of a boolean.
pub open spec fn bool_text(b: bool) -> Seq<char> {
    if b {
        "true"@
    } else {
        "false"@
    }
}

/// Why a text is no unsigned number.
pub enum NumberError {
    Empty,
    InvalidDigit,
    Overflow,
}

/// What reading the first `n` characters of `digits` gives: their value, or what is wrong with
/// the first of them that is no digit or takes the value past `max`.
pub open spec fn read_digits(digits: Seq<char>, n: nat, max: nat) -> Result<nat, NumberError>
    decreases n,
{
    if n == 0 {
        Ok(0)
    } else {
        match read_digits(digits, (n - 1) as nat, max) {
            Err(e) => Err(e),
            Ok(v) => {
                let c = digits[n - 1];
                if !('0' <= c <= '9') {
                    Err(NumberError::InvalidDigit)
                } else if v * 10 + (c as u32 - '0' as u32) > max {
                    Err(NumberError::Overflow)
                } else {
                    Ok((v * 10 + (c as u32 - '0' as u32)) as nat)
                }
            },
        }
    }
}

/// The unsigned number, at most `max`, that `s` is the text of: digits, after at most one `+`.
pub open spec fn number_of(s: Seq<char>, max: nat) -> Result<nat, NumberError> {
    if s.len() == 0 {
        Err(NumberError::Empty)
    } else if s.len() == 1 && s[0] == '+' {
        Err(NumberError::InvalidDigit)
    } else if s[0] == '+' {
        read_digits(s.skip(1), (s.len() - 1) as nat, max)
    } else {
        read_digits(s, s.len(), max)
    }
}

/// The boolean that `s` is the text of.
pub open spec fn bool_of(s: Seq<char>) -> Option<bool> {
    if s == "true"@ {
        Some(true)
    } else if s == "false"@ {
        Some(false)
    } else {
        None
    }
}

/// The characters of `s`.
pub(crate) fn chars_of(s: &str) -> (cs: Vec<char>)
    ensures
        cs@ == s@,
{
    let mut cs: Vec<char> = Vec::new();
    for c in it: s.chars()
        invariant
            it.seq() == s@,
            cs@ == s@.take(it.index() as int),
    {
        cs.push(c);
    }
    cs
}

/// `a` and `b` are the same text.
pub fn same_text(a: &str, b: &str) -> (r: bool)
    ensures
        r == (a@ == b@),
{
    let x: Vec<char> = chars_of(a);
    let y: Vec<char> = chars_of(b);
    if x.len() != y.len() {
        return false;
    }
    for i in 0..x.len()
        invariant
            x@ == a@,
            y@ == b@,
            x.len() == y.len(),
            forall|j: int| 0 <= j < i ==> x@[j] == y@[j],
    {
        if x[i] != y[i] {
            return false;
        }
    }
    assert(a@ =~= b@);
    true
}

/// What follows `p` in `s`, if `s` begins with `p`.
pub fn strip_prefix<'a>(s: &'a str, p: &str) -> (r: Option<&'a str>)
    ensures
        r is Some <==> has_prefix(s@, p@),
        r matches Some(rest) ==> rest@ == s@.skip(p@.len() as int),
{
    let x: Vec<char> = chars_of(s);
    let y: Vec<char> = chars_of(p);
    if y.len() > x.len() {
        return None;
    }
    for i in 0..y.len()
        invariant
            x@ == s@,
            y@ == p@,
            y.len() <= x.len(),
            forall|j: int| 0 <= j < i ==> x@[j] == y@[j],
    {
        if x[i] != y[i] {
            assert(s@.take(p@.len() as int)[i as int] != p@[i as int]);
            return None;
        }
    }
    assert(s@.take(p@.len() as int) =~= p@);
    Some(s.substring_char(y.len(), x.len()))
}

/// `s` without its leading copies of `p`.
pub fn trim_start_matches<'a>(s: &'a str, p: &str) -> (r: &'a str)
    ensures
        r@ == trimmed(s@, p@),
{
    proof {
        reveal_strlit("");
    }
    if same_text(p, "") {
        return s;
    }
    assert(p@.len() > 0) by {
        if p@.len() == 0 {
            assert(p@ =~= ""@);
        }
    }
    let mut rest: &'a str = s;
    loop
        invariant
            p@.len() > 0,
            trimmed(rest@, p@) == trimmed(s@, p@),
        decreases rest@.len(),
    {
        match strip_prefix(rest, p) {
            Some(next) => {
                rest = next;
            },
            None => {
                return rest;
            },
        }
    }
}

/// The text of one decimal digit.
fn digit_text(d: usize) -> (r: &'static str)
    requires
        d < 10,
    ensures
        r@ == seq![digit_char(d as nat)],
{
    proof {
        reveal_strlit("0");
        reveal_strlit("1");
        reveal_strlit("2");
        reveal_strlit("3");
        reveal_strlit("4");
        reveal_strlit("5");
        reveal_strlit("6");
        reveal_strlit("7");
        reveal_strlit("8");
        reveal_strlit("9");
    }
    let r: &'static str = match d {
        0 => "0",
        1 => "1",
        2 => "2",
        3 => "3",
        4 => "4",
        5 => "5",
        6 => "6",
        7 => "7",
        8 => "8",
        _ => "9",
    };
    assert(r@ =~= seq![digit_char(d as nat)]);
    r
}

/// The decimal text of `n`.
pub fn number_text(n: usize) -> (r: String)
    ensures
        r@ == decimal(n as nat),
    decreases n,
{
    if n < 10 {
        digit_text(n).to_owned()
    } else {
        let mut r: String = number_text(n / 10);
        r.append(digit_text(n % 10));
        assert(r@ =~= decimal(n as nat));
        r
    }
}

/// The text of `b`: `true` or `false`.
pub fn flag_text(b: bool) -> (r: &'static str)
    ensures
        r@ == bool_text(b),
{
    if b {
        "true"
    } else {
        "false"
    }
}

/// Reads an unsigned number: decimal digits, after at most one `+`, with a value that fits.
pub fn parse_number(s: &str) -> (r: Result<usize, NumberError>)
    ensures
        match number_of(s@, usize::MAX as nat) {
            Ok(v) => r == Ok::<usize, NumberError>(v as usize) && v <= usize::MAX,
            Err(e) => r == Err::<usize, NumberError>(e),
        },
{
    let cs: Vec<char> = chars_of(s);
    if cs.len() == 0 {
        return Err(NumberError::Empty);
    }
    if cs.len() == 1 && cs[0] == '+' {
        return Err(NumberError::InvalidDigit);
    }
    let start: usize = if cs[0] == '+' { 1 } else { 0 };
    let ghost digits: Seq<char> = if start == 1 { s@.skip(1) } else { s@ };
    let mut v: usize = 0;
    for i in start..cs.len()
        invariant
            cs@ == s@,
            start <= 1,
            start <= cs.len(),
            digits == (if start == 1 { s@.skip(1) } else { s@ }),
            number_of(s@, usize::MAX as nat) == read_digits(
                digits,
                digits.len(),
                usize::MAX as nat,
            ),
            digits.len() == cs.len() - start,
            read_digits(digits, (i - start) as nat, usize::MAX as nat) == Ok::<nat, NumberError>(
                v as nat,
            ),
    {
        let c: char = cs[i];
        assert(c == digits[i - start]);
        if !('0' <= c && c <= '9') {
            proof {
                lemma_digits_error_stays(
                    digits,
                    (i - start + 1) as nat,
                    digits.len(),
                    usize::MAX as nat,
                );
            }
            return Err(NumberError::InvalidDigit);
        }
        let d: usize = (c as u32 - '0' as u32) as usize;
        if v > (usize::MAX - d) / 10 {
            proof {
                lemma_digits_error_stays(
                    digits,
                    (i - start + 1) as nat,
                    digits.len(),
                    usize::MAX as nat,
                );
            }
            return Err(NumberError::Overflow);
        }
        v = v * 10 + d;
    }
    Ok(v)
}

/// An error that `n` characters give stays when `m` of them are read.
proof fn lemma_digits_error_stays(digits: Seq<char>, n: nat, m: nat, max: nat)
    requires
        n <= m,
        read_digits(digits, n, max) is Err,
    ensures
        read_digits(digits, m, max) == read_digits(digits, n, max),
    decreases m,
{
    if n < m {
        lemma_digits_error_stays(digits, n, (m - 1) as nat, max);
    }
}

/// Reads a boolean: `true` or `false`, nothing else.
pub fn parse_flag(s: &str) -> (r: Option<bool>)
    ensures
        r == bool_of(s@),
{
    if same_text(s, "true") {
        Some(true)
    } else if same_text(s, "false") {
        Some(false)
    } else {
        None
    }
}

/// Reading the decimal text of a number gives that number back.
pub proof fn decimal_reads_back(n: nat, max: nat)
    requires
        n <= max,
    ensures
        number_of(decimal(n), max) == Ok::<nat, NumberError>(n),
{
    lemma_decimal_digits(n);
    assert(decimal(n).take(decimal(n).len() as int) =~= decimal(n));
    lemma_decimal_reads(n, decimal(n), max);
}

/// A decimal text is not empty and holds digits alone.
pub proof fn lemma_decimal_digits(n: nat)
    ensures
        decimal(n).len() > 0,
        forall|i: int| 0 <= i < decimal(n).len() ==> '0' <= #[trigger] decimal(n)[i] <= '9',
    decreases n,
{
    if n >= 10 {
        lemma_decimal_digits(n / 10);
    }
}

/// The digits of `n` at the start of `s` read as `n`.
proof fn lemma_decimal_reads(n: nat, s: Seq<char>, max: nat)
    requires
        n <= max,
        has_prefix(s, decimal(n)),
    ensures
        read_digits(s, decimal(n).len(), max) == Ok::<nat, NumberError>(n),
    decreases n,
{
    reveal_with_fuel(read_digits, 2);
    let d = decimal(n);
    assert forall|i: int| 0 <= i < d.len() implies s[i] == d[i] by {
        assert(s.take(d.len() as int)[i] == d[i]);
    }
    if n >= 10 {
        let q = decimal(n / 10);
        assert(s.take(q.len() as int) =~= q);
        lemma_decimal_reads(n / 10, s, max);
        assert(d.last() == digit_char(n % 10));
    }
}

/// Reading the text of a boolean gives that boolean back.
pub proof fn flag_reads_back(b: bool)
    ensures
        bool_of(bool_text(b)) == Some(b),
{
    reveal_strlit("true");
    reveal_strlit("false");
    assert("true"@.len() != "false"@.len());
}

/// A text begins with another where it is that text and something behind it, and only there.
pub proof fn prefix_is_what_comes_first(s: Seq<char>, p: Seq<char>, rest: Seq<char>)
    ensures
        has_prefix(p + rest, p),
        has_prefix(s, p) ==> s == p + s.skip(p.len() as int),
{
    assert((p + rest).take(p.len() as int) =~= p);
    if has_prefix(s, p) {
        assert(s =~= s.take(p.len() as int) + s.skip(p.len() as int));
    }
}

/// Trimming takes one copy after the other, and nothing from a text that does not begin with one.
pub proof fn trimming_takes_leading_copies(p: Seq<char>, rest: Seq<char>)
    ensures
        p.len() > 0 ==> trimmed(p + rest, p) == trimmed(rest, p),
        !has_prefix(rest, p) ==> trimmed(rest, p) == rest,
        p.len() == 0 ==> trimmed(rest, p) == rest,
{
    prefix_is_what_comes_first(p + rest, p, rest);
    assert((p + rest).skip(p.len() as int) =~= rest);
}

/// One digit stands for each number below ten, and a digit behind a number makes ten of each one.
pub proof fn decimal_is_positional(m: nat, d: nat)
    requires
        d < 10,
    ensures
        decimal(d).len() == 1,
        decimal(d)[0] as u32 == '0' as u32 + d,
        m > 0 ==> decimal(10 * m + d) == decimal(m) + decimal(d),
{
    if m > 0 {
        let n = 10 * m + d;
        assert(n / 10 == m && n % 10 == d);
        assert(decimal(n) =~= decimal(m) + decimal(d));
    }
}

/// A text of one character is read as the digit that it is.
pub proof fn one_digit_is_read(c: char, max: nat)
    ensures
        number_of(seq![c], max) == (if !('0' <= c <= '9') {
            Err::<nat, NumberError>(NumberError::InvalidDigit)
        } else if c as u32 - '0' as u32 > max {
            Err(NumberError::Overflow)
        } else {
            Ok((c as u32 - '0' as u32) as nat)
        }),
{
    reveal_with_fuel(read_digits, 2);
}

/// One more character behind a number is one more digit: the number is ten times what it was and
/// that digit, unless the character is no digit or the number does not fit. What was wrong stays.
pub proof fn one_more_digit_is_read(s: Seq<char>, c: char, max: nat)
    requires
        s.len() > 0,
        s != seq!['+'],
    ensures
        number_of(s.push(c), max) == match number_of(s, max) {
            Err(e) => Err::<nat, NumberError>(e),
            Ok(v) => if !('0' <= c <= '9') {
                Err(NumberError::InvalidDigit)
            } else if 10 * v + (c as u32 - '0' as u32) > max {
                Err(NumberError::Overflow)
            } else {
                Ok((10 * v + (c as u32 - '0' as u32)) as nat)
            },
        },
{
    let t = s.push(c);
    if s.len() == 1 {
        if s[0] == '+' {
            assert(s =~= seq!['+']);
        }
    }
    if s[0] == '+' {
        lemma_same_digits(s.skip(1), t.skip(1), (s.len() - 1) as nat, max);
    } else {
        lemma_same_digits(s, t, s.len(), max);
    }
}

/// The same characters read as the same number.
proof fn lemma_same_digits(s: Seq<char>, t: Seq<char>, n: nat, max: nat)
    requires
        n <= s.len(),
        n <= t.len(),
        forall|i: int| 0 <= i < n ==> s[i] == t[i],
    ensures
        read_digits(s, n, max) == read_digits(t, n, max),
    decreases n,
{
    if n > 0 {
        lemma_same_digits(s, t, (n - 1) as nat, max);
    }
}

/// An empty text is no number; one `+` before a number changes nothing, a second is no digit.
pub proof fn sign_is_read_once(s: Seq<char>, max: nat)
    ensures
        number_of(Seq::empty(), max) == Err::<nat, NumberError>(NumberError::Empty),
        s.len() > 0 && s[0] != '+' ==> number_of(seq!['+'] + s, max) == number_of(s, max),
        s.len() > 0 && s[0] == '+' ==> number_of(seq!['+'] + s, max) == Err::<nat, NumberError>(
            NumberError::InvalidDigit,
        ),
{
    let t = seq!['+'] + s;
    assert(t.skip(1) =~= s);
    if s.len() > 0 && s[0] == '+' {
        reveal_with_fuel(read_digits, 2);
        assert(read_digits(s, 1, max) is Err);
        lemma_digits_error_stays(s, 1, s.len(), max);
    }
}

/// Booleans are written as `true` and `false`, and read from those two texts alone.
pub proof fn booleans_are_words(s: Seq<char>)
    ensures
        bool_text(true) == "true"@,
        bool_text(false) == "false"@,
        bool_of(s) == Some(true) <==> s == "true"@,
        bool_of(s) == Some(false) <==> s == "false"@,
{
    flag_reads_back(true);
    flag_reads_back(false);
}

} // verus!
