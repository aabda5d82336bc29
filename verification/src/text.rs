use vstd::prelude::*;
use vstd::utf8::encode_utf8;

verus! {

/// Number of bytes of the UTF-8 encoding of `s`: what `str::len` gives for
/// the same text.
pub open spec fn utf8_len(s: Seq<char>) -> int {
    encode_utf8(s).len() as int
}

/// Every character takes one to four bytes in UTF-8, and exactly one when it
/// is ASCII.
pub proof fn lemma_utf8_len(s: Seq<char>)
    ensures
        s.len() <= utf8_len(s) <= 4 * s.len(),
        (forall|i: int| 0 <= i < s.len() ==> (#[trigger] s[i]) as u32 <= 0x7f) ==> utf8_len(s) == s.len(),
    decreases s.len(),
{
    if s.len() > 0 {
        lemma_utf8_len(s.drop_first());
        assert(encode_utf8(s) == vstd::utf8::encode_scalar(s[0] as u32) + encode_utf8(s.drop_first()));
        if forall|i: int| 0 <= i < s.len() ==> (#[trigger] s[i]) as u32 <= 0x7f {
            assert(s[0] as u32 <= 0x7f);
            assert forall|i: int| 0 <= i < s.drop_first().len() implies (#[trigger] s.drop_first()[i]) as u32 <= 0x7f by {
                assert(s.drop_first()[i] == s[i + 1]);
            }
        }
    }
}

/// The characters of a string, in order.
pub fn chars_of(s: &str) -> (r: Vec<char>)
    ensures
        r@ == s@,
{
    let mut r: Vec<char> = Vec::new();
    for c in it: s.chars()
        invariant
            it.seq() == s@,
            r@ == s@.take(it.index() as int),
    {
        r.push(c);
        proof {
            assert(s@.take(it.index() + 1) =~= s@.take(it.index() as int).push(c));
        }
    }
    proof {
        assert(s@.take(s@.len() as int) =~= s@);
    }
    r
}

/// The decimal digit for `d`, from 0 to 9.
pub open spec fn digit_char(d: int) -> char {
    if d == 0 {
        '0'
    } else if d == 1 {
        '1'
    } else if d == 2 {
        '2'
    } else if d == 3 {
        '3'
    } else if d == 4 {
        '4'
    } else if d == 5 {
        '5'
    } else if d == 6 {
        '6'
    } else if d == 7 {
        '7'
    } else if d == 8 {
        '8'
    } else {
        '9'
    }
}

/// The value of a decimal digit character (0 for any other character).
pub open spec fn digit_value(c: char) -> int {
    if c == '1' {
        1
    } else if c == '2' {
        2
    } else if c == '3' {
        3
    } else if c == '4' {
        4
    } else if c == '5' {
        5
    } else if c == '6' {
        6
    } else if c == '7' {
        7
    } else if c == '8' {
        8
    } else if c == '9' {
        9
    } else {
        0
    }
}

/// `n` written in decimal, with no leading zero: what `format!("{}", n)`
/// gives.
pub open spec fn decimal(n: nat) -> Seq<char>
    decreases n,
{
    if n < 10 {
        seq![digit_char(n as int)]
    } else {
        decimal(n / 10).push(digit_char(n as int % 10))
    }
}

/// The number that a string of decimal digits stands for.
pub open spec fn decimal_value(s: Seq<char>) -> int
    decreases s.len(),
{
    if s.len() == 0 {
        0
    } else {
        10 * decimal_value(s.drop_last()) + digit_value(s.last())
    }
}

/// Reading back the decimal digits of `n` gives `n`.
pub proof fn lemma_decimal_round_trip(n: nat)
    ensures
        decimal_value(decimal(n)) == n,
        decimal(n).len() >= 1,
    decreases n,
{
    if n >= 10 {
        lemma_decimal_round_trip(n / 10);
        assert(decimal(n).drop_last() =~= decimal(n / 10));
        assert(decimal(n).last() == digit_char(n as int % 10));
        assert(digit_value(digit_char(n as int % 10)) == n as int % 10);
        assert(n == 10 * (n / 10) + n % 10);
        assert(decimal_value(decimal(n)) == 10 * decimal_value(decimal(n).drop_last()) + digit_value(decimal(n).last()));
    } else {
        assert(digit_value(digit_char(n as int)) == n);
        assert(decimal(n).drop_last() =~= Seq::<char>::empty());
        assert(decimal_value(Seq::<char>::empty()) == 0);
        assert(decimal_value(decimal(n)) == 10 * decimal_value(decimal(n).drop_last()) + digit_value(decimal(n).last()));
    }
}

/// A number below 10 to the power `k` has at most `k` decimal digits.
pub proof fn lemma_decimal_len(n: nat, k: nat)
    requires
        k >= 1,
        n < vstd::arithmetic::power::pow(10, k),
    ensures
        decimal(n).len() <= k,
    decreases n,
{
    if n >= 10 {
        reveal(vstd::arithmetic::power::pow);
        if k == 1 {
            assert(vstd::arithmetic::power::pow(10, 1) == 10) by {
                reveal_with_fuel(vstd::arithmetic::power::pow, 2);
            }
        } else {
            assert(vstd::arithmetic::power::pow(10, k) == 10 * vstd::arithmetic::power::pow(10, (k - 1) as nat));
            lemma_decimal_len(n / 10, (k - 1) as nat);
        }
    }
}

/// A `u128` has at most 39 decimal digits.
pub proof fn lemma_u128_decimal_len(n: u128)
    ensures
        decimal(n as nat).len() <= 39,
{
    assert(vstd::arithmetic::power::pow(10, 39) > u128::MAX) by {
        reveal_with_fuel(vstd::arithmetic::power::pow, 40);
    }
    lemma_decimal_len(n as nat, 39);
}

/// The character of decimal digit `d`.
fn digit(d: u128) -> (c: char)
    requires
        d < 10,
    ensures
        c == digit_char(d as int),
{
    match d {
        0 => '0',
        1 => '1',
        2 => '2',
        3 => '3',
        4 => '4',
        5 => '5',
        6 => '6',
        7 => '7',
        8 => '8',
        _ => '9',
    }
}

/// `n` written in decimal.
pub fn decimal_chars(n: u128) -> (r: Vec<char>)
    ensures
        r@ == decimal(n as nat),
    decreases n,
{
    if n < 10 {
        let mut r: Vec<char> = Vec::new();
        r.push(digit(n));
        proof {
            assert(r@ =~= seq![digit_char(n as int)]);
        }
        r
    } else {
        let mut r = decimal_chars(n / 10);
        r.push(digit(n % 10));
        r
    }
}

} // verus!
