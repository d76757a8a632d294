//! Decimal numbers as written in size strings: an optional sign, digits,
//! and an optional fractional part after a `.`.

use vstd::prelude::*;
use vstd::arithmetic::div_mod::{
    lemma_div_denominator, lemma_fundamental_div_mod, lemma_fundamental_div_mod_converse,
    lemma_mod_bound,
};
use crate::format::{SizeError, TB};
use crate::text::{dec, digit_char, lemma_dec_chars};

verus! {

/// Whether `c` is an ASCII decimal digit.
pub open spec fn is_digit(c: char) -> bool {
    48 <= c as u32 && c as u32 <= 57
}

/// Whether every character of `s` is an ASCII decimal digit.
pub open spec fn all_digits(s: Seq<char>) -> bool {
    forall|i: int| 0 <= i < s.len() ==> is_digit(#[trigger] s[i])
}

/// `10` to the power `n`.
pub open spec fn pow10(n: nat) -> nat
    decreases n,
{
    if n == 0 {
        1
    } else {
        10 * pow10((n - 1) as nat)
    }
}

/// The value of the digit string `s`, read in base ten.
pub open spec fn digits_value(s: Seq<char>) -> nat
    decreases s.len(),
{
    if s.len() == 0 {
        0
    } else {
        digits_value(s.drop_last()) * 10 + ((s.last() as u32) - 48) as nat
    }
}

/// The number of digits that `s` starts with.
pub open spec fn lead_digits(s: Seq<char>) -> nat
    decreases s.len(),
{
    if s.len() > 0 && is_digit(s[0]) {
        1 + lead_digits(s.drop_first())
    } else {
        0
    }
}

/// Whether `s` starts with a `+` or `-` sign.
pub open spec fn has_sign(s: Seq<char>) -> bool {
    s.len() > 0 && (s[0] == '+' || s[0] == '-')
}

/// `s` without its sign.
pub open spec fn unsigned_part(s: Seq<char>) -> Seq<char> {
    if has_sign(s) {
        s.drop_first()
    } else {
        s
    }
}

/// The digits before the decimal point.
pub open spec fn int_digits(s: Seq<char>) -> Seq<char> {
    let b = unsigned_part(s);
    b.take(lead_digits(b) as int)
}

/// What follows the digits before the decimal point.
pub open spec fn after_int(s: Seq<char>) -> Seq<char> {
    let b = unsigned_part(s);
    b.skip(lead_digits(b) as int)
}

/// The digits after the decimal point.
pub open spec fn frac_digits(s: Seq<char>) -> Seq<char> {
    if after_int(s).len() > 0 {
        after_int(s).drop_first()
    } else {
        Seq::empty()
    }
}

/// Whether `s` is a decimal number: an optional sign, digits, and an
/// optional `.` followed by digits, with at least one digit in all.
pub open spec fn is_decimal(s: Seq<char>) -> bool {
    let a = after_int(s);
    &&& a.len() == 0 || (a[0] == '.' && all_digits(a.drop_first()))
    &&& int_digits(s).len() + frac_digits(s).len() > 0
}

/// Whether the decimal number `s` is below zero (`-0` is not).
pub open spec fn is_negative(s: Seq<char>) -> bool {
    &&& has_sign(s)
    &&& s[0] == '-'
    &&& digits_value(int_digits(s)) > 0 || digits_value(frac_digits(s)) > 0
}

/// `x` capped at the largest `u64`.
pub open spec fn saturate(x: nat) -> u64 {
    if x > u64::MAX {
        u64::MAX
    } else {
        x as u64
    }
}

/// The decimal number `s` times `mult`, rounded toward zero and capped at
/// the largest `u64`.
pub open spec fn scaled_value(s: Seq<char>, mult: nat) -> u64 {
    let f = frac_digits(s);
    saturate(digits_value(int_digits(s)) * mult + digits_value(f) * mult / pow10(f.len()))
}

/// What reading the decimal number `s` and multiplying it by `mult` gives.
pub open spec fn decimal_result(s: Seq<char>, mult: nat) -> Result<u64, SizeError> {
    if !is_decimal(s) {
        Err(SizeError::InvalidNumber)
    } else if is_negative(s) {
        Err(SizeError::NegativeValue)
    } else {
        Ok(scaled_value(s, mult))
    }
}


proof fn lemma_pow10_positive(n: nat)
    ensures
        pow10(n) > 0,
    decreases n,
{
    if n > 0 {
        lemma_pow10_positive((n - 1) as nat);
    }
}

pub(crate) proof fn lemma_lead_digits(b: Seq<char>, k: int)
    requires
        0 <= k <= b.len(),
        all_digits(b.take(k)),
        k == b.len() || !is_digit(b[k]),
    ensures
        lead_digits(b) == k,
    decreases k,
{
    if k > 0 {
        assert(is_digit(b.take(k)[0]));
        let t = b.drop_first();
        assert forall|i: int| 0 <= i < k - 1 implies is_digit(#[trigger] t.take(k - 1)[i]) by {
            assert(t.take(k - 1)[i] == b.take(k)[i + 1]);
        }
        lemma_lead_digits(t, k - 1);
    }
}

proof fn lemma_digits_value_prepend(c: char, s: Seq<char>)
    requires
        is_digit(c),
        all_digits(s),
    ensures
        digits_value(seq![c] + s) == ((c as u32) - 48) as nat * pow10(s.len()) + digits_value(s),
    decreases s.len(),
{
    let d = ((c as u32) - 48) as nat;
    let cs = seq![c] + s;
    if s.len() == 0 {
        assert(cs =~= seq![c]);
        assert(cs.drop_last() =~= Seq::<char>::empty());
        assert(cs.last() == c);
        assert(digits_value(cs.drop_last()) == 0);
        assert(digits_value(cs) == d);
        assert(digits_value(s) == 0);
        assert(pow10(s.len()) == 1);
        assert(d * pow10(s.len()) == d) by (nonlinear_arith)
            requires
                pow10(s.len()) == 1,
        ;
    } else {
        let t = s.drop_last();
        assert(cs.drop_last() =~= seq![c] + t);
        assert(cs.last() == s.last());
        assert(is_digit(s[s.len() - 1]));
        lemma_digits_value_prepend(c, t);
        let l = ((s.last() as u32) - 48) as nat;
        let p = pow10(t.len());
        assert(digits_value(cs) == digits_value(seq![c] + t) * 10 + l);
        assert(digits_value(s) == digits_value(t) * 10 + l);
        assert(pow10(s.len()) == 10 * p);
        assert((d * p + digits_value(t)) * 10 + l == d * (10 * p) + (digits_value(t) * 10 + l))
            by (nonlinear_arith);
        assert(digits_value(cs) == d * pow10(s.len()) + digits_value(s));
    }
}

proof fn lemma_carry_step(d: nat, m: nat, v: nat, l: nat, carry: nat)
    requires
        carry == v * m / pow10(l),
    ensures
        (d * pow10(l) + v) * m / pow10(l + 1) == (d * m + carry) / 10,
{
    let p = pow10(l);
    lemma_pow10_positive(l);
    let r = (v * m) % p;
    assert(v * m == p * carry + r) by {
        lemma_fundamental_div_mod((v * m) as int, p as int);
    }
    let x = (d * p + v) * m;
    assert(x == (d * m + carry) * p + r) by (nonlinear_arith)
        requires
            x == (d * p + v) * m,
            v * m == p * carry + r,
    ;
    assert(0 <= r < p) by {
        lemma_mod_bound((v * m) as int, p as int);
    }
    lemma_fundamental_div_mod_converse(x as int, p as int, (d * m + carry) as int, r as int);
    lemma_div_denominator(x as int, p as int, 10);
    assert(pow10(l + 1) == p * 10);
}

/// `dec(n)` is a digit string whose value is `n`.
pub proof fn lemma_dec_value(n: nat)
    ensures
        all_digits(dec(n)),
        digits_value(dec(n)) == n,
    decreases n,
{
    lemma_dec_chars(n);
    assert(((((n % 10) + 48) as u32) as char) as u32 == (n % 10) + 48);
    assert(dec(n).last() == digit_char(n % 10));
    assert((dec(n).last() as u32) - 48 == n % 10);
    if n >= 10 {
        lemma_dec_value(n / 10);
        assert(dec(n).drop_last() =~= dec(n / 10));
        assert(digits_value(dec(n)) == digits_value(dec(n / 10)) * 10 + n % 10);
        assert((n / 10) * 10 + n % 10 == n);
    } else {
        assert(dec(n).drop_last() =~= Seq::<char>::empty());
        assert(digits_value(dec(n).drop_last()) == 0);
    }
}

/// Whether `c` is an ASCII decimal digit.
pub fn is_ascii_digit(c: char) -> (r: bool)
    ensures
        r == is_digit(c),
{
    48 <= c as u32 && c as u32 <= 57
}

/// Reads the decimal number `v[lo..hi]` and multiplies it by `mult`,
/// rounding toward zero and capping at the largest `u64`.
pub fn read_decimal(v: &Vec<char>, lo: usize, hi: usize, mult: u64) -> (r: Result<u64, SizeError>)
    requires
        lo <= hi <= v.len(),
        1 <= mult <= TB,
    ensures
        r == decimal_result(v@.subrange(lo as int, hi as int), mult as nat),
{
    let ghost s = v@.subrange(lo as int, hi as int);
    let mut i = lo;
    let mut minus = false;
    if lo < hi && (v[lo] == '+' || v[lo] == '-') {
        minus = v[lo] == '-';
        i = lo + 1;
        assert(unsigned_part(s) =~= v@.subrange(i as int, hi as int));
    } else {
        assert(unsigned_part(s) =~= v@.subrange(i as int, hi as int));
    }
    let ghost b = v@.subrange(i as int, hi as int);
    // Digits before the point, with the value capped at the largest u64.
    let mut j = i;
    let mut whole: u64 = 0;
    while j < hi && is_ascii_digit(v[j])
        invariant
            i <= j <= hi <= v.len(),
            all_digits(v@.subrange(i as int, j as int)),
            whole == saturate(digits_value(v@.subrange(i as int, j as int))),
        decreases hi - j,
    {
        let ghost before = v@.subrange(i as int, j as int);
        assert(v@.subrange(i as int, j + 1).drop_last() =~= before);
        let d = (v[j] as u32 - 48) as u64;
        if whole < u64::MAX {
            let next = (whole as u128) * 10 + (d as u128);
            whole = if next > u64::MAX as u128 {
                u64::MAX
            } else {
                next as u64
            };
        }
        j = j + 1;
    }
    proof {
        assert(b.take(j - i) =~= v@.subrange(i as int, j as int));
        lemma_lead_digits(b, j - i);
        assert(int_digits(s) =~= v@.subrange(i as int, j as int));
        assert(after_int(s) =~= v@.subrange(j as int, hi as int));
    }
    // Digits after the point.
    let mut fs = hi;
    if j < hi {
        if v[j] != '.' {
            assert(after_int(s)[0] == v[j as int]);
            return Err(SizeError::InvalidNumber);
        }
        fs = j + 1;
        let mut k = fs;
        while k < hi
            invariant
                fs <= k <= hi <= v.len(),
                fs == j + 1,
                s == v@.subrange(lo as int, hi as int),
                after_int(s) == v@.subrange(j as int, hi as int),
                all_digits(v@.subrange(fs as int, k as int)),
            decreases hi - k,
        {
            if !is_ascii_digit(v[k]) {
                assert(after_int(s).drop_first()[k - fs] == v[k as int]);
                assert(!all_digits(after_int(s).drop_first()));
                return Err(SizeError::InvalidNumber);
            }
            k = k + 1;
        }
        assert(frac_digits(s) =~= v@.subrange(fs as int, hi as int));
    } else {
        assert(frac_digits(s) =~= v@.subrange(fs as int, hi as int));
    }
    if j == i && fs == hi {
        return Err(SizeError::InvalidNumber);
    }
    // The fraction times `mult`, rounded down, by long multiplication from
    // the last digit.
    let mut carry: u64 = 0;
    let mut nonzero = false;
    let mut k = hi;
    assert(pow10(0) == 1);
    assert(digits_value(v@.subrange(hi as int, hi as int)) == 0);
    while k > fs
        invariant
            fs <= k <= hi <= v.len(),
            all_digits(v@.subrange(fs as int, hi as int)),
            1 <= mult <= TB,
            carry < mult,
            carry == digits_value(v@.subrange(k as int, hi as int)) * (mult as nat) / pow10(
                (hi - k) as nat,
            ),
            nonzero == (digits_value(v@.subrange(k as int, hi as int)) > 0),
        decreases k,
    {
        let ghost tail = v@.subrange(k as int, hi as int);
        let c = v[k - 1];
        assert(is_digit(v@.subrange(fs as int, hi as int)[k - 1 - fs]));
        assert(v@.subrange(k - 1, hi as int) =~= seq![c] + tail);
        assert(all_digits(tail)) by {
            assert forall|x: int| 0 <= x < tail.len() implies is_digit(#[trigger] tail[x]) by {
                assert(tail[x] == v@.subrange(fs as int, hi as int)[k - fs + x]);
            }
        }
        let d = (c as u32 - 48) as u64;
        proof {
            lemma_digits_value_prepend(c, tail);
            lemma_carry_step(d as nat, mult as nat, digits_value(tail), tail.len(), carry as nat);
            lemma_pow10_positive(tail.len());
            assert(d * mult + carry < 10 * mult) by (nonlinear_arith)
                requires
                    d <= 9,
                    carry < mult,
            ;
            assert(d as nat * pow10(tail.len()) > 0 <==> d > 0) by (nonlinear_arith)
                requires
                    pow10(tail.len()) > 0,
            ;
        }
        let t = d * mult + carry;
        carry = t / 10;
        nonzero = nonzero || d > 0;
        k = k - 1;
    }
    if minus && (whole > 0 || nonzero) {
        return Err(SizeError::NegativeValue);
    }
    assert((whole as u128) * (mult as u128) <= (u64::MAX as u128) * (TB as u128))
        by (nonlinear_arith)
        requires
            mult <= TB,
    ;
    let total = (whole as u128) * (mult as u128) + (carry as u128);
    proof {
        let ghost iv = digits_value(v@.subrange(i as int, j as int));
        if whole == u64::MAX {
            assert(iv * mult >= iv) by (nonlinear_arith)
                requires
                    mult >= 1,
            ;
            assert(total >= u64::MAX) by (nonlinear_arith)
                requires
                    total == whole * mult + carry,
                    whole == u64::MAX,
                    mult >= 1,
            ;
        }
        assert(v@.subrange(k as int, hi as int) =~= v@.subrange(fs as int, hi as int));
    }
    if total > u64::MAX as u128 {
        Ok(u64::MAX)
    } else {
        Ok(total as u64)
    }
}

} // verus!
