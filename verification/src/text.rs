//! Decimal text of integers, as it appears in cache keys and in messages.

use vstd::prelude::*;
use vstd::string::*;

verus! {

/// The character that writes the digit `d`.
pub open spec fn digit_char(d: int) -> char {
    if d == 0 {
        '0'
    } else if d == 1 {
        '1'
    } else if d == 2 {
        '2'
    } else if d == 3 {
        '3'
    } else if d == 4 {
        '4'
    } else if d == 5 {
        '5'
    } else if d == 6 {
        '6'
    } else if d == 7 {
        '7'
    } else if d == 8 {
        '8'
    } else {
        '9'
    }
}

/// Decimal digits of `n`, most significant first, without leading zeros.
pub open spec fn decimal_nat(n: nat) -> Seq<char>
    decreases n,
{
    if n < 10 {
        seq![digit_char(n as int)]
    } else {
        decimal_nat(n / 10).push(digit_char((n % 10) as int))
    }
}

/// Decimal text of `v`, with a leading minus sign when it is negative.
pub open spec fn decimal_int(v: int) -> Seq<char> {
    if v < 0 {
        seq!['-'] + decimal_nat((-v) as nat)
    } else {
        decimal_nat(v as nat)
    }
}

/// Decimal text of `n` in at least two digits, padded with a zero.
pub open spec fn two_digits(n: nat) -> Seq<char> {
    if n < 10 {
        seq!['0'] + decimal_nat(n)
    } else {
        decimal_nat(n)
    }
}

fn digit_str(d: u128) -> (s: &'static str)
    requires
        d < 10,
    ensures
        s@ == seq![digit_char(d as int)],
{
    proof {
        reveal_strlit("0");
        reveal_strlit("1");
        reveal_strlit("2");
        reveal_strlit("3");
        reveal_strlit("4");
        reveal_strlit("5");
        reveal_strlit("6");
        reveal_strlit("7");
        reveal_strlit("8");
        reveal_strlit("9");
    }
    let s = if d == 0 {
        "0"
    } else if d == 1 {
        "1"
    } else if d == 2 {
        "2"
    } else if d == 3 {
        "3"
    } else if d == 4 {
        "4"
    } else if d == 5 {
        "5"
    } else if d == 6 {
        "6"
    } else if d == 7 {
        "7"
    } else if d == 8 {
        "8"
    } else {
        "9"
    };
    s
}

/// Writes `n` in decimal.
pub fn fmt_u128(n: u128) -> (s: String)
    ensures
        s@ == decimal_nat(n as nat),
    decreases n,
{
    if n < 10 {
        String::from_str(digit_str(n))
    } else {
        let mut s = fmt_u128(n / 10);
        s.append(digit_str(n % 10));
        s
    }
}

/// Writes `n` in decimal.
pub fn fmt_u64(n: u64) -> (s: String)
    ensures
        s@ == decimal_nat(n as nat),
{
    fmt_u128(n as u128)
}

/// Writes `v` in decimal, with a minus sign when it is negative.
pub fn fmt_i32(v: i32) -> (s: String)
    ensures
        s@ == decimal_int(v as int),
{
    if v < 0 {
        proof {
            reveal_strlit("-");
        }
        let magnitude: u64 = (-(v as i64)) as u64;
        let digits = fmt_u64(magnitude);
        let s = String::from_str("-").concat(digits.as_str());
        s
    } else {
        fmt_u64(v as u64)
    }
}

/// Writes `n` in at least two decimal digits.
pub fn fmt_two_digits(n: u64) -> (s: String)
    ensures
        s@ == two_digits(n as nat),
{
    if n < 10 {
        proof {
            reveal_strlit("0");
        }
        let digits = fmt_u64(n);
        let s = String::from_str("0").concat(digits.as_str());
        s
    } else {
        fmt_u64(n)
    }
}

/// Whether `c` writes a digit.
pub open spec fn is_digit(c: char) -> bool {
    exists|d: int| 0 <= d < 10 && c == digit_char(d)
}

/// The digit that `c` writes.
pub open spec fn digit_value(c: char) -> int {
    choose|d: int| 0 <= d < 10 && c == digit_char(d)
}

/// The number that the digits `text` write.
pub open spec fn decimal_value(text: Seq<char>) -> nat
    decreases text.len(),
{
    if text.len() == 0 {
        0
    } else {
        (decimal_value(text.drop_last()) * 10 + digit_value(text.last())) as nat
    }
}

proof fn lemma_digit_value(d: int)
    requires
        0 <= d < 10,
    ensures
        is_digit(digit_char(d)),
        digit_value(digit_char(d)) == d,
{
}

/// The decimal text of a number is made of digits alone and writes that
/// number.
pub proof fn lemma_decimal_nat_reads_back(n: nat)
    ensures
        decimal_nat(n).len() >= 1,
        forall|i: int| 0 <= i < decimal_nat(n).len() ==> is_digit(#[trigger] decimal_nat(n)[i]),
        decimal_value(decimal_nat(n)) == n,
    decreases n,
{
    if n < 10 {
        lemma_digit_value(n as int);
        let text = decimal_nat(n);
        assert(text.drop_last() =~= Seq::<char>::empty());
        assert(decimal_value(text.drop_last()) == 0);
    } else {
        lemma_decimal_nat_reads_back(n / 10);
        lemma_digit_value((n % 10) as int);
        let text = decimal_nat(n);
        assert(text.drop_last() =~= decimal_nat(n / 10));
    }
}

/// Two numbers with the same decimal text are the same number.
pub proof fn lemma_decimal_int_is_injective(a: int, b: int)
    requires
        decimal_int(a) == decimal_int(b),
    ensures
        a == b,
{
    lemma_decimal_nat_reads_back(if a < 0 { (-a) as nat } else { a as nat });
    lemma_decimal_nat_reads_back(if b < 0 { (-b) as nat } else { b as nat });
    lemma_minus_is_no_digit();
    if a < 0 && b < 0 {
        let ta = decimal_nat((-a) as nat);
        let tb = decimal_nat((-b) as nat);
        assert(ta =~= decimal_int(a).drop_first());
        assert(tb =~= decimal_int(b).drop_first());
    } else if a < 0 {
        assert(is_digit(decimal_nat(b as nat)[0]));
    } else if b < 0 {
        assert(is_digit(decimal_nat(a as nat)[0]));
    }
}

proof fn lemma_minus_is_no_digit()
    ensures
        !is_digit('-'),
        !is_digit(','),
{
}

/// The decimal text of a number holds no comma.
pub proof fn lemma_decimal_int_has_no_comma(v: int)
    ensures
        decimal_int(v).len() >= 1,
        forall|i: int| 0 <= i < decimal_int(v).len() ==> #[trigger] decimal_int(v)[i] != ',',
{
    lemma_decimal_nat_reads_back(if v < 0 { (-v) as nat } else { v as nat });
    lemma_minus_is_no_digit();
    assert forall|i: int| 0 <= i < decimal_int(v).len() implies #[trigger] decimal_int(v)[i]
        != ',' by {
        if v < 0 {
            if i > 0 {
                assert(decimal_int(v)[i] == decimal_nat((-v) as nat)[i - 1]);
                assert(is_digit(decimal_nat((-v) as nat)[i - 1]));
            }
        } else {
            assert(is_digit(decimal_nat(v as nat)[i]));
        }
    }
}

} // verus!
