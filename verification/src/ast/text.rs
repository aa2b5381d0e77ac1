//! Characters and text: character classes, building strings, decimal numbers.
use vstd::prelude::*;

verus! {

/// Whether `c` has the Unicode `Alphabetic` property, as `char::is_alphabetic`
/// reports it.
pub uninterp spec fn alphabetic(c: char) -> bool;

/// Whether `c` is alphabetic or numeric in the Unicode sense, as
/// `char::is_alphanumeric` reports it.
pub uninterp spec fn alphanumeric(c: char) -> bool;

/// An ASCII character.
pub open spec fn is_ascii_char(c: char) -> bool {
    c <= '\x7f'
}

/// An ASCII letter, 'a' to 'z' or 'A' to 'Z'.
pub open spec fn is_ascii_letter(c: char) -> bool {
    ('a' <= c && c <= 'z') || ('A' <= c && c <= 'Z')
}

/// A letter: among ASCII characters the ASCII letters, elsewhere what
/// Unicode's `Alphabetic` table says.
pub open spec fn is_letter(c: char) -> bool {
    if is_ascii_char(c) {
        is_ascii_letter(c)
    } else {
        alphabetic(c)
    }
}

/// A letter or a digit: among ASCII characters the ASCII letters and digits,
/// elsewhere what Unicode's tables say.
pub open spec fn is_letter_or_digit(c: char) -> bool {
    if is_ascii_char(c) {
        is_ascii_letter(c) || is_digit_char(c)
    } else {
        alphanumeric(c)
    }
}

/// Calls `char::is_alphabetic`, which tells whether `c` has the Unicode
/// `Alphabetic` property. The contract names the answer as a function of `c`
/// and states it for ASCII characters, where the alphabetic ones are exactly
/// the letters; beyond ASCII it leaves Unicode's table unstated.
#[verifier::external_body]
pub(crate) fn is_alphabetic(c: char) -> (res: bool)
    ensures
        res == alphabetic(c),
        is_ascii_char(c) ==> (res <==> is_ascii_letter(c)),
{
    c.is_alphabetic()
}

/// Calls `char::is_alphanumeric`, which holds exactly where `is_alphabetic`
/// or `is_numeric` does. The contract names the answer as a function of `c`,
/// says that every alphabetic character is alphanumeric, and states the
/// answer for ASCII characters, where the alphanumeric ones are exactly the
/// letters and the digits; beyond ASCII it leaves Unicode's tables unstated.
#[verifier::external_body]
pub(crate) fn is_alphanumeric(c: char) -> (res: bool)
    ensures
        res == alphanumeric(c),
        alphabetic(c) ==> res,
        is_ascii_char(c) ==> (res <==> (is_ascii_letter(c) || is_digit_char(c))),
{
    c.is_alphanumeric()
}

/// Calls `String::push`, which appends `c` to the end of `s`.
#[verifier::external_body]
pub(crate) fn push_char(s: &mut String, c: char)
    ensures
        final(s)@ == old(s)@.push(c),
{
    s.push(c)
}

/// An ASCII decimal digit, '0' to '9'.
pub open spec fn is_digit_char(c: char) -> bool {
    '0' <= c && c <= '9'
}

/// Whether `c` is an ASCII decimal digit (as `char::is_ascii_digit`).
pub fn is_digit(c: char) -> (res: bool)
    ensures
        res == is_digit_char(c),
{
    '0' <= c && c <= '9'
}

/// The value of a decimal digit character.
pub open spec fn digit_value(c: char) -> int {
    (c as int) - ('0' as int)
}

/// The number that a run of decimal digits denotes.
pub open spec fn digits_value(s: Seq<char>) -> int
    decreases s.len(),
{
    if s.len() == 0 {
        0
    } else {
        digits_value(s.drop_last()) * 10 + digit_value(s.last())
    }
}

/// Every character of `s` is a decimal digit.
pub open spec fn all_digits(s: Seq<char>) -> bool {
    forall|i: int| 0 <= i < s.len() ==> is_digit_char(#[trigger] s[i])
}

/// The value of a run of digits is never negative, and never smaller than
/// the value of any of its prefixes.
pub proof fn lemma_digits_value_grows(s: Seq<char>, k: int)
    requires
        all_digits(s),
        0 <= k <= s.len(),
    ensures
        0 <= digits_value(s.take(k)) <= digits_value(s),
    decreases s.len(),
{
    if s.len() > 0 {
        let p = s.drop_last();
        assert(all_digits(p)) by {
            assert forall|i: int| 0 <= i < p.len() implies is_digit_char(#[trigger] p[i]) by {
                assert(p[i] == s[i]);
            }
        }
        if k == s.len() {
            assert(s.take(k) == s);
            lemma_digits_value_grows(p, p.len() as int);
            assert(p.take(p.len() as int) == p);
        } else {
            lemma_digits_value_grows(p, k);
            assert(p.take(k) == s.take(k));
            lemma_digits_value_grows(p, p.len() as int);
            assert(p.take(p.len() as int) == p);
        }
        assert(is_digit_char(s[s.len() - 1]));
    } else {
        assert(s.take(k) == s);
    }
}

/// The value of the digits `v[from..to]`, or `None` where it exceeds
/// `i64::MAX` (as `str::parse::<i64>` on such a run).
pub fn parse_digits(v: &Vec<char>, from: usize, to: usize) -> (res: Option<i64>)
    requires
        from <= to <= v.len(),
        all_digits(v@.subrange(from as int, to as int)),
    ensures
        match res {
            Some(x) => x as int == digits_value(v@.subrange(from as int, to as int)),
            None => digits_value(v@.subrange(from as int, to as int)) > i64::MAX,
        },
{
    let ghost s = v@.subrange(from as int, to as int);
    let mut acc: i64 = 0;
    let mut i = from;
    while i < to
        invariant
            from <= i <= to <= v.len(),
            s == v@.subrange(from as int, to as int),
            all_digits(s),
            0 <= acc,
            acc as int == digits_value(s.take(i - from)),
        decreases to - i,
    {
        let c = v[i];
        assert(c == s[i - from]);
        assert(s.take(i - from + 1).drop_last() == s.take(i - from));
        let d = (c as u32 - '0' as u32) as i64;
        assert(d == digit_value(c));
        if acc > (i64::MAX - d) / 10 {
            proof {
                lemma_digits_value_grows(s, i - from + 1);
                assert(acc * 10 + d > i64::MAX) by (nonlinear_arith)
                    requires
                        acc > (i64::MAX - d) / 10,
                        0 <= d <= 9,
                ;
            }
            return None;
        }
        proof {
            assert(acc * 10 + d <= i64::MAX) by (nonlinear_arith)
                requires
                    acc <= (i64::MAX - d) / 10,
                    0 <= d <= 9,
                    0 <= acc,
            ;
        }
        acc = acc * 10 + d;
        i = i + 1;
    }
    assert(s.take(to - from) == s);
    Some(acc)
}

/// The character of a decimal digit value.
pub open spec fn digit_char(d: int) -> char {
    if d == 0 {
        '0'
    } else if d == 1 {
        '1'
    } else if d == 2 {
        '2'
    } else if d == 3 {
        '3'
    } else if d == 4 {
        '4'
    } else if d == 5 {
        '5'
    } else if d == 6 {
        '6'
    } else if d == 7 {
        '7'
    } else if d == 8 {
        '8'
    } else {
        '9'
    }
}

/// The decimal text of a natural number, without leading zeros.
pub open spec fn decimal(n: nat) -> Seq<char>
    decreases n,
{
    if n < 10 {
        seq![digit_char(n as int)]
    } else {
        decimal(n / 10) + seq![digit_char((n % 10) as int)]
    }
}

fn digit_to_char(d: usize) -> (c: char)
    requires
        d < 10,
    ensures
        c == digit_char(d as int),
{
    if d == 0 {
        '0'
    } else if d == 1 {
        '1'
    } else if d == 2 {
        '2'
    } else if d == 3 {
        '3'
    } else if d == 4 {
        '4'
    } else if d == 5 {
        '5'
    } else if d == 6 {
        '6'
    } else if d == 7 {
        '7'
    } else if d == 8 {
        '8'
    } else {
        '9'
    }
}

/// Appends the decimal text of `n` to `s`.
pub fn push_decimal(s: &mut String, n: usize)
    ensures
        final(s)@ == old(s)@ + decimal(n as nat),
    decreases n,
{
    if n < 10 {
        push_char(s, digit_to_char(n));
    } else {
        push_decimal(s, n / 10);
        push_char(s, digit_to_char(n % 10));
    }
}

/// A string holding the characters `v[from..to]`.
pub fn chars_to_string(v: &Vec<char>, from: usize, to: usize) -> (res: String)
    requires
        from <= to <= v.len(),
    ensures
        res@ == v@.subrange(from as int, to as int),
{
    let mut res = String::new();
    let mut i = from;
    while i < to
        invariant
            from <= i <= to <= v.len(),
            res@ == v@.subrange(from as int, i as int),
        decreases to - i,
    {
        push_char(&mut res, v[i]);
        assert(v@.subrange(from as int, i + 1) == v@.subrange(from as int, i as int).push(v@[i as int]));
        i = i + 1;
    }
    res
}

/// Whether `v[from..to]` holds exactly the characters of `key`.
pub fn chars_equal(v: &Vec<char>, from: usize, to: usize, key: &Vec<char>) -> (res: bool)
    requires
        from <= to <= v.len(),
    ensures
        res == (v@.subrange(from as int, to as int) == key@),
{
    if to - from != key.len() {
        return false;
    }
    let mut i: usize = 0;
    while i < key.len()
        invariant
            from <= to <= v.len(),
            to - from == key.len(),
            0 <= i <= key.len(),
            forall|k: int| 0 <= k < i ==> v@[from + k] == key@[k],
        decreases key.len() - i,
    {
        if v[from + i] != key[i] {
            assert(v@.subrange(from as int, to as int)[i as int] != key@[i as int]);
            return false;
        }
        i = i + 1;
    }
    assert(v@.subrange(from as int, to as int) =~= key@);
    true
}

proof fn lemma_digit_char_value(d: int)
    requires
        0 <= d < 10,
    ensures
        digit_value(digit_char(d)) == d,
        is_digit_char(digit_char(d)),
{
    assert(('0' as int) == 48);
    assert(('9' as int) == 57);
    if d == 0 {
    } else if d == 1 {
        assert(('1' as int) == 49);
    } else if d == 2 {
        assert(('2' as int) == 50);
    } else if d == 3 {
        assert(('3' as int) == 51);
    } else if d == 4 {
        assert(('4' as int) == 52);
    } else if d == 5 {
        assert(('5' as int) == 53);
    } else if d == 6 {
        assert(('6' as int) == 54);
    } else if d == 7 {
        assert(('7' as int) == 55);
    } else if d == 8 {
        assert(('8' as int) == 56);
    }
}

/// Writing a number in decimal and reading the digits back gives the number:
/// the text is all digits, and it has no leading zero (it starts with `0`
/// only for zero itself, which is the one digit `0`).
pub proof fn law_decimal_round_trip(n: nat)
    ensures
        all_digits(decimal(n)),
        digits_value(decimal(n)) == n,
        decimal(n).len() >= 1,
        decimal(n)[0] == '0' <==> n == 0,
        n == 0 ==> decimal(n) == seq!['0'],
    decreases n,
{
    let t = decimal(n);
    if n < 10 {
        assert(t.drop_last() =~= Seq::<char>::empty());
        lemma_digit_char_value(n as int);
        assert(digits_value(t.drop_last()) == 0);
        assert(t.last() == digit_char(n as int));
        assert forall|i: int| 0 <= i < t.len() implies is_digit_char(#[trigger] t[i]) by {
            assert(i == 0);
        }
    } else {
        let q = n / 10;
        let r = (n % 10) as int;
        law_decimal_round_trip(q);
        lemma_digit_char_value(r);
        let p = decimal(q);
        assert(t == p + seq![digit_char(r)]);
        assert(t.drop_last() =~= p);
        assert(t[0] == p[0]);
        assert forall|i: int| 0 <= i < t.len() implies is_digit_char(#[trigger] t[i]) by {
            if i < p.len() {
                assert(t[i] == p[i]);
            } else {
                assert(t[i] == digit_char(r));
            }
        }
        assert(t.last() == digit_char(r));
        assert(digits_value(t) == digits_value(p) * 10 + r);
        assert(q * 10 + r == n);
    }
}

} // verus!
