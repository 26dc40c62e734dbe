//! Decimal numerals: how a count is written, how a written count is read,
//! and that reading gives back what was written.

use vstd::prelude::*;

verus! {

/// Whether `c` is one of the ten ASCII digits.
pub open spec fn is_digit(c: char) -> bool {
    '0' <= c <= '9'
}

/// The value of the digit `c`.
pub open spec fn digit_value(c: char) -> nat {
    (c as u32 - '0' as u32) as nat
}

/// The digit for a value below ten.
pub open spec fn digit_char(d: nat) -> char {
    (d + '0' as u32) as char
}

/// The decimal numeral of `n`, without sign or leading zeros.
pub open spec fn decimal(n: nat) -> Seq<char>
    decreases n,
{
    if n < 10 {
        seq![digit_char(n)]
    } else {
        decimal(n / 10).push(digit_char(n % 10))
    }
}

/// Whether `s` holds digits only.
pub open spec fn all_digits(s: Seq<char>) -> bool {
    forall|i: int| 0 <= i < s.len() ==> is_digit(#[trigger] s[i])
}

/// The value of a sequence of digits read as a decimal numeral.
pub open spec fn decimal_value(s: Seq<char>) -> nat
    decreases s.len(),
{
    if s.len() == 0 {
        0
    } else {
        decimal_value(s.drop_last()) * 10 + digit_value(s.last())
    }
}

/// How the count `n` is written: its decimal numeral, after a minus sign
/// if it is negative.
pub open spec fn written(n: int) -> Seq<char> {
    if n < 0 {
        seq!['-'] + decimal((-n) as nat)
    } else {
        decimal(n as nat)
    }
}

/// The count that the digits `digits` stand for: their value where there
/// is at least one digit, nothing else, and the value fits `i64`; zero
/// otherwise.
pub open spec fn digits_value(digits: Seq<char>) -> int {
    if digits.len() > 0 && all_digits(digits) && decimal_value(digits) <= i64::MAX {
        decimal_value(digits) as int
    } else {
        0
    }
}

/// The count that the text `t` stands for: the value of its digits, which
/// a plus sign may precede, where there is at least one digit, nothing
/// else, and the value fits `i64`; zero for every other text.
pub open spec fn count_value(t: Seq<char>) -> int {
    if t.len() > 0 && t[0] == '+' {
        digits_value(t.skip(1))
    } else {
        digits_value(t)
    }
}

/// A numeral is one digit or more, all of them digits, and its value is
/// the number it was made from.
pub proof fn lemma_decimal(n: nat)
    ensures
        decimal(n).len() > 0,
        all_digits(decimal(n)),
        decimal_value(decimal(n)) == n,
    decreases n,
{
    if n < 10 {
        assert(decimal(n).drop_last() =~= Seq::<char>::empty());
        assert(decimal_value(decimal(n)) == decimal_value(Seq::<char>::empty()) * 10 + digit_value(digit_char(n)));
    } else {
        lemma_decimal(n / 10);
        assert(decimal(n).drop_last() =~= decimal(n / 10));
    }
}

/// Reading a count that was written gives the count back, for every count
/// from zero to the largest.
pub proof fn lemma_count_round_trip(n: int)
    requires
        0 <= n <= i64::MAX,
    ensures
        count_value(written(n)) == n,
{
    lemma_decimal(n as nat);
}

/// A prefix of a digit sequence has a value no larger than the whole.
pub proof fn lemma_decimal_value_prefix(s: Seq<char>, k: int)
    requires
        0 <= k <= s.len(),
    ensures
        decimal_value(s.take(k)) <= decimal_value(s),
    decreases s.len() - k,
{
    if k < s.len() {
        lemma_decimal_value_prefix(s, k + 1);
        assert(s.take(k + 1).drop_last() =~= s.take(k));
    } else {
        assert(s.take(k) =~= s);
    }
}

/// The digits of `n`, most significant first.
pub fn decimal_digits(n: u64) -> (res: Vec<char>)
    ensures
        res@ == decimal(n as nat),
    decreases n,
{
    if n < 10 {
        let d: u8 = n as u8;
        let c: char = (48u8 + d) as char;
        let mut res: Vec<char> = Vec::new();
        res.push(c);
        assert(res@ =~= seq![digit_char(n as nat)]);
        res
    } else {
        let mut res = decimal_digits(n / 10);
        let d: u8 = (n % 10) as u8;
        let c: char = (48u8 + d) as char;
        res.push(c);
        res
    }
}

/// The count `n` written out.
pub fn write_count(n: i64) -> (res: Vec<char>)
    ensures
        res@ == written(n as int),
{
    if n < 0 {
        let magnitude: u64 = (-(n + 1)) as u64 + 1;
        let digits = decimal_digits(magnitude);
        let mut res: Vec<char> = Vec::new();
        res.push('-');
        let mut i: usize = 0;
        while i < digits.len()
            invariant
                i <= digits.len(),
                res@ == seq!['-'] + digits@.take(i as int),
            decreases digits.len() - i,
        {
            res.push(digits[i]);
            assert(res@ =~= seq!['-'] + digits@.take(i + 1));
            i += 1;
        }
        assert(digits@.take(digits.len() as int) =~= digits@);
        res
    } else {
        decimal_digits(n as u64)
    }
}

/// The count that the characters of `chars` from `from` up to `to` stand
/// for.
pub fn read_count(chars: &Vec<char>, from: usize, to: usize) -> (res: i64)
    requires
        from <= to <= chars.len(),
    ensures
        res == count_value(chars@.subrange(from as int, to as int)),
        res >= 0,
{
    let ghost text = chars@.subrange(from as int, to as int);
    let start: usize = if from < to && chars[from] == '+' {
        from + 1
    } else {
        from
    };
    let ghost digits = chars@.subrange(start as int, to as int);
    proof {
        if from < to && chars@[from as int] == '+' {
            assert(text[0] == '+');
            assert(text.skip(1) =~= digits);
        } else {
            assert(text.len() > 0 ==> text[0] == chars@[from as int]);
            assert(text =~= digits);
        }
    }
    if start == to {
        return 0;
    }
    let mut value: i64 = 0;
    let mut i: usize = start;
    proof {
        assert(digits.take(0) =~= Seq::<char>::empty());
    }
    while i < to
        invariant
            start <= i <= to <= chars.len(),
            from <= to,
            digits == chars@.subrange(start as int, to as int),
            count_value(chars@.subrange(from as int, to as int)) == digits_value(digits),
            all_digits(digits.take(i - start)),
            value == decimal_value(digits.take(i - start)),
            0 <= value,
        decreases to - i,
    {
        let c = chars[i];
        let ghost upto = digits.take(i - start + 1);
        proof {
            assert(upto.drop_last() =~= digits.take(i - start));
            assert(upto.last() == c);
            lemma_decimal_value_prefix(digits, i - start + 1);
        }
        if !('0' <= c && c <= '9') {
            assert(!is_digit(digits[i - start]));
            return 0;
        }
        let d: i64 = (c as u32 - '0' as u32) as i64;
        if value > (i64::MAX - d) / 10 {
            assert(decimal_value(upto) > i64::MAX);
            return 0;
        }
        value = value * 10 + d;
        assert(all_digits(upto)) by {
            assert forall|j: int| 0 <= j < upto.len() implies is_digit(#[trigger] upto[j]) by {
                if j < upto.len() - 1 {
                    assert(upto[j] == digits.take(i - start)[j]);
                }
            }
        }
        i += 1;
    }
    assert(digits.take(to - start) =~= digits);
    value
}

} // verus!
