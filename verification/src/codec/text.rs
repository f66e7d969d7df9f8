use vstd::prelude::*;
use vstd::string::*;

verus! {

/// The decimal digit character of `d`, for `d < 10`.
pub open spec fn digit_char(d: nat) -> char {
    if d == 0 { '0' } else if d == 1 { '1' } else if d == 2 { '2' } else if d == 3 { '3' }
    else if d == 4 { '4' } else if d == 5 { '5' } else if d == 6 { '6' } else if d == 7 { '7' }
    else if d == 8 { '8' } else { '9' }
}

/// The decimal text of `n`, without sign or leading zeros.
pub open spec fn decimal(n: nat) -> Seq<char>
    decreases n,
{
    if n < 10 {
        seq![digit_char(n)]
    } else {
        decimal(n / 10).push(digit_char(n % 10))
    }
}

/// The decimal text of a number below `10^k` has at most `k` digits.
pub proof fn lemma_decimal_len(n: nat, k: nat, bound: int)
    requires
        k >= 1,
        bound == vstd::arithmetic::power::pow(10, k),
        n < bound,
    ensures
        decimal(n).len() <= k,
    decreases k,
{
    vstd::arithmetic::power::lemma_pow_positive(10, k);
    if n >= 10 {
        let b1 = vstd::arithmetic::power::pow(10, (k - 1) as nat);
        vstd::arithmetic::power::lemma_pow_positive(10, (k - 1) as nat);
        if k == 1 {
            assert(vstd::arithmetic::power::pow(10, 1) == 10) by {
                vstd::arithmetic::power::lemma_pow1(10);
            }
        } else {
            assert(bound == 10 * b1) by {
                vstd::arithmetic::power::lemma_pow_adds(10, 1, (k - 1) as nat);
                vstd::arithmetic::power::lemma_pow1(10);
            }
            assert(n / 10 < b1) by {
                vstd::arithmetic::div_mod::lemma_fundamental_div_mod(n as int, 10);
            }
            lemma_decimal_len(n / 10, (k - 1) as nat, b1);
        }
    }
}

/// Every `u64` has at most 20 decimal digits.
pub proof fn lemma_u64_decimal_len(n: u64)
    ensures
        decimal(n as nat).len() <= 20,
{
    let bound = vstd::arithmetic::power::pow(10, 20);
    assert(bound == 100000000000000000000) by {
        reveal_with_fuel(vstd::arithmetic::power::pow, 21);
    }
    lemma_decimal_len(n as nat, 20, bound);
}

/// The text of one decimal digit.
fn digit_text(d: u64) -> (s: String)
    requires
        d < 10,
    ensures
        s@ == seq![digit_char(d as nat)],
{
    proof {
        reveal_strlit("0");
        reveal_strlit("1");
        reveal_strlit("2");
        reveal_strlit("3");
        reveal_strlit("4");
        reveal_strlit("5");
        reveal_strlit("6");
        reveal_strlit("7");
        reveal_strlit("8");
        reveal_strlit("9");
    }
    if d == 0 {
        String::from_str("0")
    } else if d == 1 {
        String::from_str("1")
    } else if d == 2 {
        String::from_str("2")
    } else if d == 3 {
        String::from_str("3")
    } else if d == 4 {
        String::from_str("4")
    } else if d == 5 {
        String::from_str("5")
    } else if d == 6 {
        String::from_str("6")
    } else if d == 7 {
        String::from_str("7")
    } else if d == 8 {
        String::from_str("8")
    } else {
        String::from_str("9")
    }
}

/// Renders an unsigned integer as decimal text, without sign, padding or leading zeros,
/// as `Display` writes it.
pub(crate) fn u64_to_decimal_string(n: u64) -> (s: String)
    ensures
        s@ == decimal(n as nat),
    decreases n,
{
    if n < 10 {
        digit_text(n)
    } else {
        let mut s = u64_to_decimal_string(n / 10);
        let last = digit_text(n % 10);
        s.append(last.as_str());
        s
    }
}

pub(crate) fn concat5(a: &str, n1: u64, b: &str, n2: u64, c: &str) -> (s: String)
    ensures
        s@ == a@ + decimal(n1 as nat) + b@ + decimal(n2 as nat) + c@,
{
    let mut s = String::from_str(a);
    let d1 = u64_to_decimal_string(n1);
    s.append(d1.as_str());
    s.append(b);
    let d2 = u64_to_decimal_string(n2);
    s.append(d2.as_str());
    s.append(c);
    s
}

} // verus!
