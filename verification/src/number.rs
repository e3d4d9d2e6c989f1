//! Whole numbers in decimal notation.

use vstd::prelude::*;

verus! {

/// Whether `c` is one of the ten ASCII digits.
pub open spec fn is_digit(c: char) -> bool {
    '0' <= c <= '9'
}

/// What a digit stands for.
pub open spec fn digit_value(c: char) -> nat {
    (c as int - '0' as int) as nat
}

/// The number that a row of digits stands for.
pub open spec fn digits_value(s: Seq<char>) -> nat
    decreases s.len(),
{
    if s.len() == 0 {
        0
    } else {
        digits_value(s.drop_last()) * 10 + digit_value(s.last())
    }
}

/// Whether `s` is a row of digits, of at least one.
pub open spec fn all_digits(s: Seq<char>) -> bool {
    s.len() > 0 && forall|i: int| 0 <= i < s.len() ==> is_digit(#[trigger] s[i])
}

/// The digits of `s` when it is read as a number: what follows one leading `+`,
/// or all of `s`.
pub open spec fn unsigned_digits(s: Seq<char>) -> Seq<char> {
    if s.len() > 0 && s[0] == '+' {
        s.skip(1)
    } else {
        s
    }
}

/// The number that `s` denotes: digits, after an optional `+`.
pub open spec fn number(s: Seq<char>) -> Option<nat> {
    if all_digits(unsigned_digits(s)) {
        Some(digits_value(unsigned_digits(s)))
    } else {
        None
    }
}

proof fn lemma_digits_value_grows(s: Seq<char>, n: int)
    requires
        0 <= n <= s.len(),
    ensures
        digits_value(s.take(n)) <= digits_value(s),
    decreases s.len() - n,
{
    if n < s.len() {
        lemma_digits_value_grows(s, n + 1);
        assert(s.take(n + 1).drop_last() =~= s.take(n));
    } else {
        assert(s.take(n) =~= s);
    }
}

/// Reads a number. `None` where `s` denotes none, or one that does not fit.
pub fn read_number(s: &[char]) -> (r: Option<usize>)
    ensures
        match r {
            Some(n) => number(s@) == Some(n as nat),
            None => number(s@) is None || number(s@)->0 > usize::MAX,
        },
{
    let n: usize = s.len();
    let start: usize = if n > 0 && s[0] == '+' { 1 } else { 0 };
    let ghost digits = unsigned_digits(s@);
    proof {
        assert(digits =~= s@.skip(start as int));
    }
    if start == n {
        return None;
    }
    let mut value: usize = 0;
    let mut i: usize = start;
    proof {
        assert(digits.take(0) =~= seq![]);
    }
    while i < n
        invariant
            n == s@.len(),
            start <= i <= n,
            start < n,
            digits == unsigned_digits(s@),
            digits == s@.skip(start as int),
            forall|k: int| 0 <= k < i - start ==> is_digit(#[trigger] digits[k]),
            value == digits_value(digits.take(i - start)),
        decreases n - i,
    {
        let c = s[i];
        assert(digits[i - start] == c);
        if !('0' <= c && c <= '9') {
            return None;
        }
        let d: usize = (c as u32 - '0' as u32) as usize;
        proof {
            assert(digits.take(i - start + 1).drop_last() =~= digits.take(i - start));
            lemma_digits_value_grows(digits, i - start + 1);
        }
        match value.checked_mul(10) {
            Some(tens) => match tens.checked_add(d) {
                Some(sum) => {
                    value = sum;
                },
                None => {
                    return None;
                },
            },
            None => {
                return None;
            },
        }
        i = i + 1;
    }
    proof {
        assert(digits.take(n - start) =~= digits);
    }
    Some(value)
}

/// The decimal notation of a number, without leading zeros.
pub open spec fn decimal(n: nat) -> Seq<char>
    decreases n,
{
    if n < 10 {
        seq![digit_char(n)]
    } else {
        decimal(n / 10).push(digit_char(n % 10))
    }
}

/// The digit for a number below ten.
pub open spec fn digit_char(d: nat) -> char {
    ('0' as nat + d) as char
}

/// Writes a number in decimal notation.
pub fn write_number(n: usize) -> (r: String)
    ensures
        r@ == decimal(n as nat),
    decreases n,
{
    let digit = ('0' as u8 + (n % 10) as u8) as char;
    let mut r = if n < 10 {
        String::new()
    } else {
        write_number(n / 10)
    };
    r.push(digit);
    proof {
        assert(digit == digit_char((n % 10) as nat));
        if n < 10 {
            assert(r@ =~= seq![digit_char(n as nat)]);
        }
    }
    r
}

/// Decimal notation is a row of digits and reads back as the number.
pub proof fn lemma_decimal_reads_back(n: nat)
    ensures
        all_digits(decimal(n)),
        digits_value(decimal(n)) == n,
        number(decimal(n)) == Some(n),
    decreases n,
{
    let s = decimal(n);
    if n < 10 {
        assert(s.drop_last() =~= seq![]);
        assert(digits_value(s.drop_last()) == 0);
    } else {
        lemma_decimal_reads_back(n / 10);
        assert(s.drop_last() =~= decimal(n / 10));
    }
    assert(is_digit(s[0]));
}

/// A single digit denotes its place among the ten.
pub proof fn law_digit_denotes_its_place(d: nat)
    requires
        d < 10,
    ensures
        number(seq!["0123456789"@[d as int]]) == Some(d),
{
    reveal_strlit("0123456789");
    let s = seq!["0123456789"@[d as int]];
    assert(s.drop_last() =~= seq![]);
    assert(digits_value(s.drop_last()) == 0);
    assert(unsigned_digits(s) == s);
    assert(is_digit(s[0]));
}

/// One digit more makes a number ten times as large and adds the digit.
pub proof fn law_digit_more_is_ten_times(s: Seq<char>, d: nat)
    requires
        number(s) is Some,
        d < 10,
    ensures
        number(s.push("0123456789"@[d as int])) == Some(number(s)->0 * 10 + d),
{
    reveal_strlit("0123456789");
    let c = "0123456789"@[d as int];
    let t = s.push(c);
    let digits = unsigned_digits(s);
    assert(unsigned_digits(t) =~= digits.push(c));
    assert(digits.push(c).drop_last() =~= digits);
    assert forall|i: int| 0 <= i < digits.len() + 1 implies is_digit(
        #[trigger] digits.push(c)[i],
    ) by {
        if i < digits.len() {
            assert(digits.push(c)[i] == digits[i]);
        }
    }
}

/// One plus sign in front of digits makes no difference.
pub proof fn law_leading_plus(s: Seq<char>)
    requires
        s.len() > 0,
        s[0] != '+',
    ensures
        number(seq!['+'] + s) == number(s),
{
    assert((seq!['+'] + s).skip(1) =~= s);
}

/// What holds anything but digits denotes no number, save for one plus sign in
/// front of at least one digit.
pub proof fn law_only_digits_denote(s: Seq<char>)
    ensures
        s.len() == 0 || s == seq!['+'] ==> number(s) is None,
        (exists|i: int|
            0 <= i < s.len() && !('0' <= #[trigger] s[i] <= '9') && !(i == 0 && s[i] == '+'))
            ==> number(s) is None,
{
    let digits = unsigned_digits(s);
    if s == seq!['+'] {
        assert(digits.len() == 0);
    }
    if exists|i: int|
        0 <= i < s.len() && !('0' <= #[trigger] s[i] <= '9') && !(i == 0 && s[i] == '+') {
        let i = choose|i: int|
            0 <= i < s.len() && !('0' <= #[trigger] s[i] <= '9') && !(i == 0 && s[i] == '+');
        if s[0] == '+' {
            assert(digits[i - 1] == s[i]);
        } else {
            assert(digits[i] == s[i]);
        }
    }
}

/// Decimal notation has no leading zero.
pub proof fn law_no_leading_zero(n: nat)
    requires
        n > 0,
    ensures
        decimal(n).len() > 0,
        decimal(n)[0] != '0',
    decreases n,
{
    if n >= 10 {
        law_no_leading_zero(n / 10);
    }
}

} // verus!
