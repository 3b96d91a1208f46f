//! Decimal text: the digit sequences that timestamps and messages are made of.
use vstd::prelude::*;

verus! {

/// The ASCII character of decimal digit `d`.
pub open spec fn digit_char(d: int) -> char {
    (d + 48) as char
}

/// Whether `c` is an ASCII decimal digit.
pub open spec fn is_digit(c: char) -> bool {
    '0' <= c <= '9'
}

/// Whether every character of `s` is an ASCII decimal digit.
pub open spec fn all_digits(s: Seq<char>) -> bool {
    forall|i: int| 0 <= i < s.len() ==> is_digit(#[trigger] s[i])
}

/// Shortest decimal representation of `n` (no leading zeros; `"0"` for zero).
pub open spec fn decimal(n: nat) -> Seq<char>
    decreases n,
{
    if n < 10 {
        seq![digit_char(n as int)]
    } else {
        decimal(n / 10).push(digit_char((n % 10) as int))
    }
}

/// `n` in decimal, left-padded with zeros to at least `width` characters.
pub open spec fn zero_padded(n: nat, width: nat) -> Seq<char> {
    let digits = decimal(n);
    if digits.len() < width {
        Seq::new((width - digits.len()) as nat, |i: int| '0') + digits
    } else {
        digits
    }
}

/// Numeric value of a sequence of decimal digits (zero for the empty sequence).
pub open spec fn digits_value(s: Seq<char>) -> int
    decreases s.len(),
{
    if s.len() == 0 {
        0
    } else {
        digits_value(s.drop_last()) * 10 + (s.last() as int - 48)
    }
}

/// The character of a decimal digit is its ASCII code, and a digit.
pub proof fn lemma_digit_char(d: int)
    requires
        0 <= d < 10,
    ensures
        digit_char(d) as int == d + 48,
        is_digit(digit_char(d)),
{
}

/// The decimal text of `n` is a non-empty digit sequence that reads back as `n`.
pub proof fn lemma_decimal_digits(n: nat)
    ensures
        all_digits(decimal(n)),
        1 <= decimal(n).len(),
        digits_value(decimal(n)) == n,
        n < 10 <==> decimal(n).len() == 1,
    decreases n,
{
    if n >= 10 {
        lemma_decimal_digits(n / 10);
        let s = decimal(n);
        lemma_digit_char((n % 10) as int);
        assert(s.drop_last() =~= decimal(n / 10));
        assert(s.last() == digit_char((n % 10) as int));
        assert(digits_value(s) == digits_value(decimal(n / 10)) * 10 + (n % 10));
        assert forall|i: int| 0 <= i < s.len() implies is_digit(#[trigger] s[i]) by {
            if i < s.len() - 1 {
                assert(s[i] == decimal(n / 10)[i]);
            }
        }
    } else {
        lemma_digit_char(n as int);
        assert(decimal(n).drop_last() =~= Seq::<char>::empty());
        assert(digits_value(Seq::<char>::empty()) == 0);
        assert(decimal(n).last() == digit_char(n as int));
    }
}

/// The one-character text of decimal digit `d`.
fn digit_text(d: u64) -> (text: &'static str)
    requires
        d < 10,
    ensures
        text@ == seq![digit_char(d as int)],
{
    proof {
        reveal_strlit("0");
        reveal_strlit("1");
        reveal_strlit("2");
        reveal_strlit("3");
        reveal_strlit("4");
        reveal_strlit("5");
        reveal_strlit("6");
        reveal_strlit("7");
        reveal_strlit("8");
        reveal_strlit("9");
    }
    match d {
        0 => "0",
        1 => "1",
        2 => "2",
        3 => "3",
        4 => "4",
        5 => "5",
        6 => "6",
        7 => "7",
        8 => "8",
        _ => "9",
    }
}

/// Appends the shortest decimal representation of `value`.
pub fn append_decimal(out: &mut String, value: u64)
    ensures
        final(out)@ == old(out)@ + decimal(value as nat),
    decreases value,
{
    if value >= 10 {
        append_decimal(out, value / 10);
    }
    out.append(digit_text(value % 10));
    proof {
        if value >= 10 {
            assert(decimal(value as nat) == decimal((value / 10) as nat).push(digit_char((value % 10) as int)));
        }
    }
}

/// Number of characters in the shortest decimal representation of `value`.
fn decimal_width(value: u64) -> (width: usize)
    ensures
        width == decimal(value as nat).len(),
        1 <= width <= 20,
    decreases value,
{
    if value >= 10 {
        let rest = decimal_width(value / 10);
        proof {
            assert(decimal(value as nat).len() == decimal((value / 10) as nat).len() + 1);
            assert(value / 10 < 10_000_000_000_000_000_000) by (nonlinear_arith)
                requires value <= u64::MAX;
            if rest == 20 {
                lemma_decimal_width_bound((value / 10) as nat);
            }
        }
        rest + 1
    } else {
        1
    }
}

/// `10^k`.
pub open spec fn power_of_ten(k: nat) -> nat
    decreases k,
{
    if k == 0 { 1 } else { 10 * power_of_ten((k - 1) as nat) }
}

/// A number with `k` decimal digits is at least `10^(k-1)`.
proof fn lemma_decimal_width_lower(n: nat)
    requires
        n >= 1,
    ensures
        power_of_ten((decimal(n).len() - 1) as nat) <= n,
    decreases n,
{
    if n >= 10 {
        lemma_decimal_width_lower(n / 10);
        lemma_decimal_digits(n / 10);
        let k = (decimal(n / 10).len() - 1) as nat;
        assert(decimal(n).len() == decimal(n / 10).len() + 1);
        assert(power_of_ten((k + 1) as nat) == 10 * power_of_ten(k));
        assert(10 * (n / 10) <= n);
    } else {
        assert(decimal(n).len() == 1);
        assert(power_of_ten(0) == 1);
    }
}

/// A number below `10^19` has at most 19 decimal digits.
proof fn lemma_decimal_width_bound(n: nat)
    requires
        n < 10_000_000_000_000_000_000,
    ensures
        decimal(n).len() <= 19,
{
    if n > 0 {
        lemma_decimal_width_lower(n);
        let k = (decimal(n).len() - 1) as nat;
        if k >= 19 {
            lemma_power_of_ten_monotone(19, k);
            reveal_with_fuel(power_of_ten, 20);
        }
    }
}

/// A number below `10^k` has at most `k` decimal digits.
pub proof fn lemma_decimal_width_below(n: nat, k: nat)
    requires
        1 <= k,
        n < power_of_ten(k),
    ensures
        decimal(n).len() <= k,
{
    if n > 0 {
        lemma_decimal_width_lower(n);
        let len = (decimal(n).len() - 1) as nat;
        if len >= k {
            lemma_power_of_ten_monotone(k, len);
        }
    } else {
        assert(decimal(n).len() == 1);
    }
}

/// Leading zeros do not change the value of a digit sequence.
pub proof fn lemma_leading_zeros(zeros: Seq<char>, s: Seq<char>)
    requires
        forall|i: int| 0 <= i < zeros.len() ==> zeros[i] == '0',
    ensures
        digits_value(zeros + s) == digits_value(s),
    decreases s.len() + zeros.len(),
{
    if s.len() == 0 {
        assert(zeros + s =~= zeros);
        if zeros.len() > 0 {
            lemma_leading_zeros(zeros.drop_last(), s);
            assert(zeros.drop_last() + s =~= zeros.drop_last());
            assert(zeros.last() == '0');
        }
    } else {
        lemma_leading_zeros(zeros, s.drop_last());
        assert((zeros + s).drop_last() =~= zeros + s.drop_last());
        assert((zeros + s).last() == s.last());
    }
}

/// Zero-padded numbers are digit sequences that read back as the number.
pub proof fn lemma_zero_padded(n: nat, width: nat)
    ensures
        all_digits(zero_padded(n, width)),
        digits_value(zero_padded(n, width)) == n,
        zero_padded(n, width).len() == if decimal(n).len() < width {
            width as int
        } else {
            decimal(n).len() as int
        },
{
    lemma_decimal_digits(n);
    let digits = decimal(n);
    if digits.len() < width {
        let zeros = Seq::new((width - digits.len()) as nat, |i: int| '0');
        lemma_leading_zeros(zeros, digits);
        let padded = zeros + digits;
        assert forall|i: int| 0 <= i < padded.len() implies is_digit(#[trigger] padded[i]) by {
            if i >= zeros.len() {
                assert(padded[i] == digits[i - zeros.len()]);
            }
        }
    }
}

/// Powers of ten grow with the exponent.
proof fn lemma_power_of_ten_monotone(a: nat, b: nat)
    requires
        a <= b,
    ensures
        power_of_ten(a) <= power_of_ten(b),
    decreases b - a,
{
    if a < b {
        lemma_power_of_ten_monotone(a, (b - 1) as nat);
    }
}

/// Appends `value` in decimal, left-padded with zeros to at least `width` characters.
pub fn append_zero_padded(out: &mut String, value: u64, width: usize)
    ensures
        final(out)@ == old(out)@ + zero_padded(value as nat, width as nat),
{
    let digits = decimal_width(value);
    let ghost start = out@;
    let mut padding: usize = 0;
    if digits < width {
        while padding < width - digits
            invariant
                digits < width,
                padding <= width - digits,
                out@ == start + Seq::new(padding as nat, |i: int| '0'),
            decreases width - digits - padding,
        {
            proof { reveal_strlit("0"); }
            out.append("0");
            padding += 1;
            proof {
                assert(out@ =~= start + Seq::new(padding as nat, |i: int| '0'));
            }
        }
    }
    append_decimal(out, value);
    proof {
        assert(out@ =~= start + zero_padded(value as nat, width as nat));
    }
}

/// The value of two digit sequences written one after the other: the first
/// shifted left by the length of the second.
pub proof fn lemma_digits_value_concat(a: Seq<char>, b: Seq<char>)
    ensures
        digits_value(a + b) == digits_value(a) * power_of_ten(b.len()) + digits_value(b),
    decreases b.len(),
{
    if b.len() == 0 {
        assert(a + b =~= a);
        assert(power_of_ten(b.len()) == 1);
        assert(digits_value(b) == 0);
    } else {
        lemma_digits_value_concat(a, b.drop_last());
        assert((a + b).drop_last() =~= a + b.drop_last());
        assert((a + b).last() == b.last());
        let p = power_of_ten(b.drop_last().len());
        assert(power_of_ten(b.len()) == 10 * p);
        assert((digits_value(a) * p + digits_value(b.drop_last())) * 10 == digits_value(a) * (10
            * p) + digits_value(b.drop_last()) * 10) by (nonlinear_arith);
        assert(digits_value(a + b) == digits_value((a + b).drop_last()) * 10 + ((a + b).last() as int
            - 48));
        assert(digits_value(b) == digits_value(b.drop_last()) * 10 + (b.last() as int - 48));
        assert(digits_value(a + b.drop_last()) == digits_value(a) * p + digits_value(b.drop_last()));
        assert(digits_value(a + b) == (digits_value(a) * p + digits_value(b.drop_last())) * 10 + (
        b.last() as int - 48));
    }
}

/// A sequence of `k` digits is worth less than `10^k`.
pub proof fn lemma_digits_value_below(s: Seq<char>)
    requires
        all_digits(s),
    ensures
        0 <= digits_value(s) < power_of_ten(s.len()),
    decreases s.len(),
{
    if s.len() > 0 {
        let rest = s.drop_last();
        assert(all_digits(rest)) by {
            assert forall|i: int| 0 <= i < rest.len() implies is_digit(#[trigger] rest[i]) by {
                assert(rest[i] == s[i]);
            }
        }
        lemma_digits_value_below(rest);
        assert(is_digit(s[s.len() - 1]));
        assert(digits_value(rest) * 10 + 9 < power_of_ten(rest.len()) * 10) by (nonlinear_arith)
            requires digits_value(rest) < power_of_ten(rest.len());
    }
}

} // verus!
