//! Decimal digit strings: the spec-level definition of a number's decimal
//! form, its value, and executable conversion used by the payload framing.
use vstd::prelude::*;

verus! {

/// A character that is a decimal digit.
pub open spec fn is_digit_char(c: char) -> bool {
    '0' <= c && c <= '9'
}

/// The digit character for a value below ten.
pub open spec fn digit_char(d: nat) -> char
    recommends
        d < 10,
{
    if d == 0 {
        '0'
    } else if d == 1 {
        '1'
    } else if d == 2 {
        '2'
    } else if d == 3 {
        '3'
    } else if d == 4 {
        '4'
    } else if d == 5 {
        '5'
    } else if d == 6 {
        '6'
    } else if d == 7 {
        '7'
    } else if d == 8 {
        '8'
    } else {
        '9'
    }
}

/// The numeric value of a digit character.
pub open spec fn digit_val(c: char) -> nat {
    ((c as int) - ('0' as int)) as nat
}

/// The canonical decimal form of a number: no leading zero except for zero
/// itself.
pub open spec fn dec_digits(n: nat) -> Seq<char>
    decreases n,
{
    if n < 10 {
        seq![digit_char(n)]
    } else {
        dec_digits(n / 10).push(digit_char(n % 10))
    }
}

/// The value of a string of digit characters, read most significant first.
pub open spec fn dec_value(s: Seq<char>) -> nat
    decreases s.len(),
{
    if s.len() == 0 {
        0
    } else {
        dec_value(s.drop_last()) * 10 + digit_val(s.last())
    }
}

pub proof fn lemma_digit_char_val(d: nat)
    requires
        d < 10,
    ensures
        is_digit_char(digit_char(d)),
        digit_val(digit_char(d)) == d,
{
}

/// Every character of a canonical decimal form is a digit.
pub proof fn lemma_dec_digits_are_digits(n: nat)
    ensures
        dec_digits(n).len() >= 1,
        forall|i: int| 0 <= i < dec_digits(n).len() ==> is_digit_char(#[trigger] dec_digits(n)[i]),
    decreases n,
{
    if n < 10 {
        lemma_digit_char_val(n);
    } else {
        lemma_dec_digits_are_digits(n / 10);
        lemma_digit_char_val(n % 10);
    }
}

/// Reading back the canonical decimal form of a number gives the number.
pub proof fn lemma_dec_value_of_digits(n: nat)
    ensures
        dec_value(dec_digits(n)) == n,
    decreases n,
{
    if n < 10 {
        lemma_digit_char_val(n);
        assert(dec_digits(n) == seq![digit_char(n)]);
        assert(dec_digits(n).drop_last() =~= Seq::<char>::empty());
        assert(dec_value(Seq::<char>::empty()) == 0);
        assert(dec_digits(n).last() == digit_char(n));
    } else {
        lemma_dec_value_of_digits(n / 10);
        lemma_digit_char_val(n % 10);
        vstd::arithmetic::div_mod::lemma_fundamental_div_mod(n as int, 10);
        assert(dec_digits(n).drop_last() =~= dec_digits(n / 10));
        assert(dec_digits(n).last() == digit_char(n % 10));
        assert(dec_value(dec_digits(n)) == (n / 10) * 10 + (n % 10));
    }
}

/// Powers of ten.
pub open spec fn pow10(m: nat) -> nat
    decreases m,
{
    if m == 0 {
        1
    } else {
        10 * pow10((m - 1) as nat)
    }
}

/// A run of zero characters.
pub open spec fn zeros(j: nat) -> Seq<char> {
    Seq::new(j, |i: int| '0')
}

/// A number below the `m`-th power of ten has at most `m` digits.
pub proof fn lemma_dec_digits_len(n: nat, m: nat)
    requires
        m >= 1,
        n < pow10(m),
    ensures
        dec_digits(n).len() <= m,
    decreases n,
{
    if n >= 10 {
        assert(pow10(m) == 10 * pow10((m - 1) as nat));
        assert(n / 10 < pow10((m - 1) as nat)) by {
            vstd::arithmetic::div_mod::lemma_fundamental_div_mod(n as int, 10);
        }
        assert((m - 1) as nat >= 1) by {
            if m == 1 {
                assert(pow10(0nat) == 1);
            }
        }
        lemma_dec_digits_len(n / 10, (m - 1) as nat);
    }
}

/// Leading zeros do not change the value of a digit string.
pub proof fn lemma_dec_value_leading_zeros(j: nat, s: Seq<char>)
    ensures
        dec_value(zeros(j) + s) == dec_value(s),
    decreases j + s.len(),
{
    if s.len() > 0 {
        assert((zeros(j) + s).drop_last() =~= zeros(j) + s.drop_last());
        assert((zeros(j) + s).last() == s.last());
        lemma_dec_value_leading_zeros(j, s.drop_last());
    } else if j > 0 {
        assert(zeros(j) + s =~= zeros(j));
        assert(zeros(j).drop_last() =~= zeros((j - 1) as nat));
        assert(zeros(j).last() == '0');
        lemma_dec_value_leading_zeros((j - 1) as nat, Seq::<char>::empty());
        assert(zeros((j - 1) as nat) + Seq::<char>::empty() =~= zeros((j - 1) as nat));
        assert(digit_val('0') == 0);
        assert(dec_value(s) == 0);
    } else {
        assert(zeros(0) + s =~= s);
    }
}

/// Addition on millisecond clocks that pins at the largest value instead
/// of wrapping.
pub open spec fn sat_add_spec(a: u64, b: u64) -> u64 {
    if a + b > u64::MAX {
        u64::MAX
    } else {
        (a + b) as u64
    }
}

/// Saturating addition on millisecond clocks.
pub fn sat_add(a: u64, b: u64) -> (r: u64)
    ensures
        r == sat_add_spec(a, b),
{
    if b > u64::MAX - a {
        u64::MAX
    } else {
        a + b
    }
}

/// A longer digit prefix never has a smaller value.
pub proof fn lemma_dec_value_monotone(s: Seq<char>, a: int, b: int)
    requires
        0 <= a <= b <= s.len(),
        forall|k: int| 0 <= k < b ==> is_digit_char(#[trigger] s[k]),
    ensures
        dec_value(s.subrange(0, a)) <= dec_value(s.subrange(0, b)),
    decreases b - a,
{
    if a < b {
        lemma_dec_value_monotone(s, a, b - 1);
        assert(s.subrange(0, b).drop_last() =~= s.subrange(0, b - 1));
        assert(s.subrange(0, b).last() == s[b - 1]);
        assert(dec_value(s.subrange(0, b)) == dec_value(s.subrange(0, b - 1)) * 10 + digit_val(
            s[b - 1],
        ));
    }
}

/// Appends the digit character for `d` to a string.
pub fn append_digit(s: &mut String, d: usize)
    requires
        d < 10,
    ensures
        final(s)@ == old(s)@.push(digit_char(d as nat)),
{
    let piece: &str = if d == 0 {
        "0"
    } else if d == 1 {
        "1"
    } else if d == 2 {
        "2"
    } else if d == 3 {
        "3"
    } else if d == 4 {
        "4"
    } else if d == 5 {
        "5"
    } else if d == 6 {
        "6"
    } else if d == 7 {
        "7"
    } else if d == 8 {
        "8"
    } else {
        "9"
    };
    proof {
        reveal_strlit("0");
        reveal_strlit("1");
        reveal_strlit("2");
        reveal_strlit("3");
        reveal_strlit("4");
        reveal_strlit("5");
        reveal_strlit("6");
        reveal_strlit("7");
        reveal_strlit("8");
        reveal_strlit("9");
    }
    s.append(piece);
    proof {
        assert(final(s)@ =~= old(s)@.push(digit_char(d as nat)));
    }
}

/// Renders a number in canonical decimal form.
pub fn usize_to_decimal(n: usize) -> (s: String)
    ensures
        s@ == dec_digits(n as nat),
    decreases n,
{
    if n < 10 {
        let mut s = String::new();
        append_digit(&mut s, n);
        proof {
            assert(s@ =~= dec_digits(n as nat));
        }
        s
    } else {
        let mut s = usize_to_decimal(n / 10);
        append_digit(&mut s, n % 10);
        s
    }
}

} // verus!
