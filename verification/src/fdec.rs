//! Floating-point values on the wire, in pure integer arithmetic.
//!
//! The record model carries a float as its raw 64-bit pattern. On the wire
//! it appears as its exact decimal value: a pattern decomposes into a
//! mantissa `m` and a binary exponent `e`, and for `e < 0` the fractional
//! digits of `m / 2^k` are the digits of `(m mod 2^k) * 5^k`, left-padded
//! with zeros to `k` places. Both directions therefore need only
//! multiplication and division of decimal digit strings by small constants,
//! so the conversion is ordinary verified code; no floating-point type and
//! no outside call takes part. `NaN`, `inf` and `-inf` are written as those
//! tokens; scanning `NaN` yields the standard quiet NaN pattern.
use vstd::prelude::*;
use crate::dec::{digit_char, digit_val, is_digit, dec_digits};
use vstd::string::StrSliceExecFns;

verus! {

/// Multiply a digit string (most significant first) by a small constant,
/// with an incoming carry: the digits of `val(s) * c + carry`.
pub open spec fn mul_digits(s: Seq<char>, c: int, carry: int) -> Seq<char>
    decreases s.len(),
{
    if s.len() == 0 {
        if carry == 0 {
            Seq::empty()
        } else {
            dec_digits(carry)
        }
    } else {
        let t = digit_val(s.last()) * c + carry;
        mul_digits(s.drop_last(), c, t / 10) + seq![digit_char(t % 10)]
    }
}

/// Divide a digit string (most significant first) by a small constant with
/// an incoming remainder: the quotient digits, same length.
pub open spec fn div_digits(s: Seq<char>, c: int, rem: int) -> Seq<char>
    decreases s.len(),
{
    if s.len() == 0 {
        Seq::empty()
    } else {
        let t = rem * 10 + digit_val(s[0]);
        seq![digit_char(t / c)] + div_digits(s.skip(1), c, t % c)
    }
}

/// The remainder left after such a division.
pub open spec fn div_rem(s: Seq<char>, c: int, rem: int) -> int
    decreases s.len(),
{
    if s.len() == 0 {
        rem
    } else {
        let t = rem * 10 + digit_val(s[0]);
        div_rem(s.skip(1), c, t % c)
    }
}

/// Drop leading zero digits, keeping at least one digit.
pub open spec fn strip_zeros(s: Seq<char>) -> Seq<char>
    decreases s.len(),
{
    if s.len() <= 1 {
        s
    } else if s[0] == '0' {
        strip_zeros(s.skip(1))
    } else {
        s
    }
}

/// Left-pad with zero digits to a length.
pub open spec fn pad_zeros(s: Seq<char>, k: int) -> Seq<char> {
    if s.len() >= k {
        s
    } else {
        Seq::new((k - s.len()) as nat, |i: int| '0') + s
    }
}

/// A digit string multiplied by `5`, `k` times over.
pub open spec fn mul5_times(s: Seq<char>, k: int) -> Seq<char>
    decreases k,
{
    if k <= 0 {
        s
    } else {
        mul5_times(mul_digits(s, 5, 0), k - 1)
    }
}

/// A digit string multiplied by `2`, `k` times over.
pub open spec fn mul2_times(s: Seq<char>, k: int) -> Seq<char>
    decreases k,
{
    if k <= 0 {
        s
    } else {
        mul2_times(mul_digits(s, 2, 0), k - 1)
    }
}

/// The sign bit of a pattern.
pub open spec fn f_sign(bits: u64) -> bool {
    bits >> 63 == 1
}

/// The biased exponent field of a pattern.
pub open spec fn f_biased(bits: u64) -> u64 {
    (bits >> 52) & 0x7ff
}

/// The mantissa field of a pattern.
pub open spec fn f_frac(bits: u64) -> u64 {
    bits & 0xf_ffff_ffff_ffff
}

/// Whether the pattern is a NaN: exponent all ones, mantissa not zero.
pub open spec fn nan_bits(b: u64) -> bool {
    f_biased(b) == 0x7ff && f_frac(b) != 0
}

/// The one NaN pattern scanning produces: the standard quiet NaN.
pub open spec fn quiet_nan() -> u64 {
    0x7ff8000000000000u64
}

/// The mantissa of a finite pattern: the fraction field, with the implied
/// leading bit for a normal number.
pub open spec fn f_mantissa(bits: u64) -> u64 {
    if f_biased(bits) == 0 {
        f_frac(bits)
    } else {
        (f_frac(bits) + 0x10_0000_0000_0000) as u64
    }
}

/// The binary exponent of a finite pattern, such that its value is
/// mantissa times two to this power.
pub open spec fn f_exp(bits: u64) -> int {
    if f_biased(bits) == 0 {
        -1074
    } else {
        f_biased(bits) - 1075
    }
}

/// Mantissa and exponent with powers of two shifted out of the mantissa,
/// so that the fractional digits carry no trailing zeros.
pub open spec fn f_norm(m: u64, e: int) -> (u64, int)
    decreases (if e < 0 {
        0 - e
    } else {
        0
    }),
{
    if e < 0 && m % 2 == 0 && m > 0 {
        f_norm(m / 2, e + 1)
    } else {
        (m, e)
    }
}

/// The decimal digits (most significant first) of the integer part of a
/// finite float, mantissa `m` and exponent `e`.
pub open spec fn float_int_digits(m: u64, e: int) -> Seq<char> {
    if e >= 0 {
        mul2_times(dec_digits(m as int), e)
    } else if e <= -53 {
        seq!['0']
    } else {
        dec_digits(((m as int) / (vstd::arithmetic::power2::pow2((-e) as nat) as int)) as int)
    }
}

/// The fractional decimal digits of a finite float: for an exponent `-k`,
/// the digits of `(m mod 2^k) * 5^k`, padded to `k` places.
pub open spec fn float_frac_digits(m: u64, e: int) -> Seq<char> {
    if e >= 0 {
        seq!['0']
    } else {
        let k = -e;
        let fr = (m as int) % (vstd::arithmetic::power2::pow2(k as nat) as int);
        pad_zeros(strip_zeros(mul5_times(dec_digits(fr), k)), k)
    }
}

/// The exact decimal token of a pattern: sign, integer digits, a decimal
/// point, fractional digits; the non-finite patterns appear as `NaN`,
/// `inf` and `-inf`.
pub open spec fn float_token(bits: u64) -> Seq<char> {
    if f_biased(bits) == 0x7ff {
        if f_frac(bits) != 0 {
            "NaN"@
        } else if f_sign(bits) {
            "-inf"@
        } else {
            "inf"@
        }
    } else {
        let sgn: Seq<char> = if f_sign(bits) {
            seq!['-']
        } else {
            Seq::empty()
        };
        if f_mantissa(bits) == 0 {
            sgn + "0.0"@
        } else {
            let (m, e) = f_norm(f_mantissa(bits), f_exp(bits));
            if e >= 0 {
                sgn + float_int_digits(m, e) + ".0"@
            } else {
                sgn + float_int_digits(m, e) + seq!['.'] + float_frac_digits(m, e)
            }
        }
    }
}


/// Every character is a decimal digit.
pub open spec fn all_digits(s: Seq<char>) -> bool {
    forall|i: int| 0 <= i < s.len() ==> is_digit(#[trigger] s[i])
}

/// Multiplying a digit string by a small constant yields a digit string.
proof fn lemma_mul_digits_all(s: Seq<char>, c: int, carry: int)
    requires
        all_digits(s),
        2 <= c <= 5,
        0 <= carry <= 4,
    ensures
        all_digits(mul_digits(s, c, carry)),
    decreases s.len(),
{
    if s.len() == 0 {
        if carry > 0 {
            crate::dec::lemma_dec_digits_shape(carry);
        }
    } else {
        let t = digit_val(s.last()) * c + carry;
        assert(all_digits(s.drop_last()));
        lemma_mul_digits_all(s.drop_last(), c, t / 10);
        let r = mul_digits(s, c, carry);
        assert(r == mul_digits(s.drop_last(), c, t / 10) + seq![digit_char(t % 10)]);
        assert forall|i: int| 0 <= i < r.len() implies is_digit(#[trigger] r[i]) by {
            if i < r.len() - 1 {
                assert(r[i] == mul_digits(s.drop_last(), c, t / 10)[i]);
            } else {
                assert(r[i] == digit_char(t % 10));
            }
        }
    }
}

/// Dividing a digit string by a small constant yields a digit string.
proof fn lemma_div_digits_all(s: Seq<char>, c: int, rem: int)
    requires
        all_digits(s),
        2 <= c <= 5,
        0 <= rem < c,
    ensures
        all_digits(div_digits(s, c, rem)),
        0 <= div_rem(s, c, rem) < c,
    decreases s.len(),
{
    if s.len() > 0 {
        let t = rem * 10 + digit_val(s[0]);
        assert(all_digits(s.skip(1)));
        assert(0 <= t % c < c) by (nonlinear_arith)
            requires 2 <= c <= 5, t >= 0;
        lemma_div_digits_all(s.skip(1), c, t % c);
        assert(0 <= t / c < 10) by (nonlinear_arith)
            requires 0 <= t < 10 * c, 2 <= c <= 5;
        let r = div_digits(s, c, rem);
        assert(r == seq![digit_char(t / c)] + div_digits(s.skip(1), c, t % c));
        assert forall|i: int| 0 <= i < r.len() implies is_digit(#[trigger] r[i]) by {
            if i == 0 {
                assert(r[0] == digit_char(t / c));
            } else {
                assert(r[i] == div_digits(s.skip(1), c, t % c)[i - 1]);
            }
        }
    }
}

/// Append the characters of `rev`, last first.
fn push_reversed(out: &mut Vec<char>, rev: &Vec<char>)
    ensures
        final(out)@ == old(out)@ + rev@.reverse(),
{
    let ghost pre = out@;
    let mut k = rev.len();
    while k > 0
        invariant
            k <= rev@.len(),
            out@ =~= pre + rev@.subrange(k as int, rev@.len() as int).reverse(),
        decreases k,
    {
        k -= 1;
        let ghost before = out@;
        out.push(rev[k]);
        proof {
            assert(out@ =~= before.push(rev@[k as int]));
            assert(rev@.subrange(k as int, rev@.len() as int).reverse() =~= rev@.subrange(
                k + 1,
                rev@.len() as int,
            ).reverse().push(rev@[k as int]));
        }
    }
    proof {
        assert(rev@.subrange(0, rev@.len() as int) =~= rev@);
    }
}

/// The decimal digits of a 64-bit value, as characters.
fn digits_of_u64(m: u64) -> (r: Vec<char>)
    ensures
        r@ == dec_digits(m as int),
        all_digits(r@),
        r@.len() >= 1,
{
    let mut out: Vec<char> = Vec::new();
    crate::dec::push_u64(&mut out, m);
    proof {
        assert(Seq::<char>::empty() + dec_digits(m as int) =~= dec_digits(m as int));
        crate::dec::lemma_dec_digits_shape(m as int);
    }
    out
}

/// Multiply a digit string by a small constant.
#[verifier::rlimit(100)]
fn mul_small(s: &Vec<char>, c: u64) -> (r: Vec<char>)
    requires
        all_digits(s@),
        2 <= c <= 5,
    ensures
        r@ == mul_digits(s@, c as int, 0),
        all_digits(r@),
        s@.len() >= 1 ==> r@.len() >= 1,
{
    let mut rev: Vec<char> = Vec::new();
    let mut carry: u64 = 0;
    let mut i: usize = s.len();
    proof {
        assert(s@.take(i as int) =~= s@);
        assert(rev@.reverse() =~= Seq::<char>::empty());
        assert(mul_digits(s@, c as int, 0) =~= mul_digits(s@.take(i as int), c as int, 0)
            + rev@.reverse());
    }
    while i > 0
        invariant
            i <= s@.len(),
            all_digits(s@),
            2 <= c <= 5,
            carry <= 4,
            mul_digits(s@, c as int, 0) == mul_digits(s@.take(i as int), c as int, carry as int)
                + rev@.reverse(),
        decreases i,
    {
        let ghost carry0 = carry;
        i -= 1;
        let d = crate::dec::char_to_digit(s[i]);
        let t = (d as u64) * c + carry;
        let ghost pre_rev = rev@;
        rev.push(crate::dec::digit_to_char(t % 10));
        carry = t / 10;
        proof {
            assert(s@.take(i + 1).drop_last() =~= s@.take(i as int));
            assert(s@.take(i + 1).last() == s@[i as int]);
            assert(mul_digits(s@.take(i + 1), c as int, carry0 as int) == mul_digits(
                s@.take(i as int),
                c as int,
                carry as int,
            ) + seq![digit_char(t as int % 10)]);
            assert(rev@.reverse() =~= seq![digit_char(t as int % 10)] + pre_rev.reverse());
            assert(mul_digits(s@.take(i + 1), c as int, carry0 as int) + pre_rev.reverse()
                =~= mul_digits(s@.take(i as int), c as int, carry as int) + rev@.reverse());
        }
    }
    let mut out: Vec<char> = Vec::new();
    if carry > 0 {
        out.push(crate::dec::digit_to_char(carry));
    }
    push_reversed(&mut out, &rev);
    proof {
        assert(s@.take(0) =~= Seq::<char>::empty());
        if carry > 0 {
            assert(mul_digits(s@.take(0), c as int, carry as int) =~= seq![digit_char(
                carry as int,
            )]);
            assert(out@ =~= seq![digit_char(carry as int)] + rev@.reverse());
        } else {
            assert(mul_digits(s@.take(0), c as int, 0) =~= Seq::<char>::empty());
            assert(out@ =~= rev@.reverse());
            assert(out@ =~= mul_digits(s@.take(0), c as int, 0) + rev@.reverse());
        }
        lemma_mul_digits_all(s@, c as int, 0);
    }
    out
}

/// Divide a digit string by a small constant: quotient and remainder.
#[verifier::rlimit(100)]
fn div_small(s: &Vec<char>, c: u64) -> (r: (Vec<char>, u64))
    requires
        all_digits(s@),
        2 <= c <= 5,
    ensures
        r.0@ == div_digits(s@, c as int, 0),
        r.1 == div_rem(s@, c as int, 0),
        r.1 < c,
        all_digits(r.0@),
        r.0@.len() == s@.len(),
{
    let mut out: Vec<char> = Vec::new();
    let mut rem: u64 = 0;
    let n = s.len();
    proof {
        assert(s@.skip(0) =~= s@);
    }
    for i in 0..n
        invariant
            n == s@.len(),
            all_digits(s@),
            2 <= c <= 5,
            rem < c,
            out@.len() == i,
            div_digits(s@, c as int, 0) == out@ + div_digits(s@.skip(i as int), c as int, rem as int),
            div_rem(s@, c as int, 0) == div_rem(s@.skip(i as int), c as int, rem as int),
        decreases n - i,
    {
        let ghost rem0 = rem;
        let d = crate::dec::char_to_digit(s[i]);
        let t = rem * 10 + d as u64;
        proof {
            assert(0 <= t / c < 10) by (nonlinear_arith)
                requires 0 <= t < 10 * c, 2 <= c <= 5;
            assert(t % c < c) by (nonlinear_arith)
                requires t >= 0, 2 <= c <= 5;
        }
        let ghost pre_out = out@;
        out.push(crate::dec::digit_to_char(t / c));
        rem = t % c;
        proof {
            assert(s@.skip(i as int)[0] == s@[i as int]);
            assert(s@.skip(i as int).skip(1) =~= s@.skip(i + 1));
            assert(div_digits(s@.skip(i as int), c as int, rem0 as int) == seq![digit_char(
                t as int / c as int,
            )] + div_digits(s@.skip(i + 1), c as int, rem as int));
            assert(div_rem(s@.skip(i as int), c as int, rem0 as int) == div_rem(
                s@.skip(i + 1),
                c as int,
                rem as int,
            ));
            assert(pre_out + (seq![digit_char(t as int / c as int)] + div_digits(
                s@.skip(i + 1),
                c as int,
                rem as int,
            )) =~= out@ + div_digits(s@.skip(i + 1), c as int, rem as int));
        }
    }
    proof {
        assert(s@.skip(n as int) =~= Seq::<char>::empty());
        assert(div_digits(s@.skip(n as int), c as int, rem as int) =~= Seq::<char>::empty());
        assert(out@ + Seq::<char>::empty() =~= out@);
        lemma_div_digits_all(s@, c as int, 0);
    }
    (out, rem)
}

/// Drop leading zero digits, keeping at least one.
fn strip_lead(s: &Vec<char>) -> (r: Vec<char>)
    requires
        s@.len() >= 1,
    ensures
        r@ == strip_zeros(s@),
        r@.len() >= 1,
        all_digits(s@) ==> all_digits(r@),
{
    let mut i: usize = 0;
    let n = s.len();
    proof {
        assert(s@.skip(0) =~= s@);
    }
    while i + 1 < n && s[i] == '0'
        invariant
            n == s@.len(),
            i + 1 <= n,
            strip_zeros(s@) == strip_zeros(s@.skip(i as int)),
        decreases s@.len() - i,
    {
        proof {
            assert(s@.skip(i as int)[0] == s@[i as int]);
            assert(s@.skip(i as int).skip(1) =~= s@.skip(i + 1));
        }
        i += 1;
    }
    let mut out: Vec<char> = Vec::new();
    let ghost start = i as int;
    proof {
        assert(out@ =~= s@.subrange(start, start));
    }
    let mut j: usize = i;
    while j < n
        invariant
            n == s@.len(),
            0 <= start <= j <= n,
            out@ =~= s@.subrange(start, j as int),
        decreases n - j,
    {
        let ghost pre_out = out@;
        out.push(s[j]);
        j += 1;
        proof {
            assert(out@ == pre_out.push(s@[j - 1]));
            assert(out@ =~= s@.subrange(start, j as int));
        }
    }
    proof {
        assert(s@.subrange(start, n as int) =~= s@.skip(start));
        assert(s@.skip(start)[0] == s@[start]);
        assert(strip_zeros(s@.skip(start)) == s@.skip(start));
        if all_digits(s@) {
            assert forall|k: int| 0 <= k < out@.len() implies is_digit(#[trigger] out@[k]) by {
                assert(out@[k] == s@[start + k]);
            }
        }
    }
    out
}

/// Left-pad a digit string with zeros to `k` places.
fn pad_front(s: Vec<char>, k: usize) -> (r: Vec<char>)
    ensures
        r@ == pad_zeros(s@, k as int),
{
    if s.len() >= k {
        return s;
    }
    let npad = k - s.len();
    let mut out: Vec<char> = Vec::new();
    for j in 0..npad
        invariant
            out@ =~= Seq::new(j as nat, |i: int| '0'),
        decreases npad - j,
    {
        out.push('0');
        proof {
            assert(out@ =~= Seq::new((j + 1) as nat, |i: int| '0'));
        }
    }
    let n = s.len();
    for j in 0..n
        invariant
            n == s@.len(),
            out@ =~= Seq::new(npad as nat, |i: int| '0') + s@.subrange(0, j as int),
        decreases n - j,
    {
        out.push(s[j]);
        proof {
            assert(out@ =~= Seq::new(npad as nat, |i: int| '0') + s@.subrange(0, j + 1));
        }
    }
    proof {
        assert(s@.subrange(0, n as int) =~= s@);
    }
    out
}


/// Append every character of `s`.
fn push_all(out: &mut Vec<char>, s: &Vec<char>)
    ensures
        final(out)@ == old(out)@ + s@,
{
    let ghost pre = out@;
    let n = s.len();
    for j in 0..n
        invariant
            n == s@.len(),
            out@ =~= pre + s@.subrange(0, j as int),
        decreases n - j,
    {
        out.push(s[j]);
        proof {
            assert(out@ =~= pre + s@.subrange(0, j + 1));
        }
    }
    proof {
        assert(s@.subrange(0, n as int) =~= s@);
    }
}

/// Append the exact decimal token of a float pattern.
#[verifier::rlimit(100)]
pub fn push_float(out: &mut Vec<char>, bits: u64)
    ensures
        final(out)@ == old(out)@ + float_token(bits),
{
    let ghost pre = out@;
    proof {
        assert((bits >> 52) & 0x7ff <= 0x7ff) by (bit_vector);
        assert(bits & 0xf_ffff_ffff_ffff <= 0xf_ffff_ffff_ffff) by (bit_vector);
    }
    let biased = (bits >> 52) & 0x7ff;
    let frac = bits & 0xf_ffff_ffff_ffff;
    let neg = (bits >> 63) == 1;
    if biased == 0x7ff {
        if frac != 0 {
            crate::strio::push_lit(out, "NaN");
        } else if neg {
            crate::strio::push_lit(out, "-inf");
        } else {
            crate::strio::push_lit(out, "inf");
        }
        return ;
    }
    let ghost sgn: Seq<char> = if f_sign(bits) { seq!['-'] } else { Seq::<char>::empty() };
    if neg {
        out.push('-');
    }
    let m0: u64 = if biased == 0 {
        frac
    } else {
        frac + 0x10_0000_0000_0000
    };
    if m0 == 0 {
        crate::strio::push_lit(out, "0.0");
        proof {
            assert(out@ =~= pre + (sgn + "0.0"@));
        }
        return ;
    }
    let e0: i64 = if biased == 0 {
        -1074
    } else {
        biased as i64 - 1075
    };
    let mut m = m0;
    let mut e: i64 = e0;
    while e < 0 && m % 2 == 0
        invariant
            1 <= m <= m0,
            m0 < 0x20_0000_0000_0000,
            -1074 <= e <= 971,
            f_norm(m0, e0 as int) == f_norm(m, e as int),
        decreases 0 - e,
    {
        m = m / 2;
        e = e + 1;
    }
    proof {
        assert(f_norm(m, e as int) == (m, e as int));
    }
    if e >= 0 {
        let eu = e as usize;
        let mut digits = digits_of_u64(m);
        for j in 0..eu
            invariant
                all_digits(digits@),
                mul2_times(dec_digits(m as int), eu as int) == mul2_times(
                    digits@,
                    eu as int - j as int,
                ),
            decreases eu - j,
        {
            let nd = mul_small(&digits, 2);
            proof {
                assert(mul2_times(digits@, eu as int - j as int) == mul2_times(
                    nd@,
                    eu as int - (j + 1) as int,
                ));
            }
            digits = nd;
        }
        proof {
            assert(mul2_times(digits@, 0) == digits@);
        }
        push_all(out, &digits);
        crate::strio::push_lit(out, ".0");
        proof {
            assert(out@ =~= pre + (sgn + float_int_digits(m, e as int) + ".0"@));
        }
    } else {
        let k: u64 = (0 - e) as u64;
        let ku = k as usize;
        let ipart: u64 = if k >= 53 {
            0
        } else {
            proof {
                vstd::bits::lemma_u64_shr_is_div(m, k);
            }
            m >> k
        };
        let idigits = if k >= 53 {
            let mut v: Vec<char> = Vec::new();
            v.push('0');
            proof {
                assert(v@ =~= seq!['0']);
            }
            v
        } else {
            let d = digits_of_u64(ipart);
            proof {
                assert(d@ == float_int_digits(m, e as int));
            }
            d
        };
        let fr: u64 = if k >= 53 {
            proof {
                vstd::arithmetic::power2::lemma2_to64();
                vstd::arithmetic::power2::lemma2_to64_rest();
                if k > 53 {
                    vstd::arithmetic::power2::lemma_pow2_strictly_increases(53nat, k as nat);
                }
                assert((m as nat) < vstd::arithmetic::power2::pow2(k as nat));
                vstd::arithmetic::div_mod::lemma_small_mod(
                    m as nat,
                    vstd::arithmetic::power2::pow2(k as nat),
                );
            }
            m
        } else {
            proof {
                vstd::arithmetic::power2::lemma2_to64();
                vstd::arithmetic::power2::lemma2_to64_rest();
                if k < 53 {
                    vstd::arithmetic::power2::lemma_pow2_strictly_increases(k as nat, 53nat);
                }
                vstd::bits::lemma_u64_shl_is_mul(1u64, k);
            }
            let pw = 1u64 << k;
            proof {
                vstd::arithmetic::power2::lemma_pow2_pos(k as nat);
                assert(pw == vstd::arithmetic::power2::pow2(k as nat));
                assert(pw > 0);
            }
            m % pw
        };
        let mut fd = digits_of_u64(fr);
        for j in 0..ku
            invariant
                all_digits(fd@),
                fd@.len() >= 1,
                mul5_times(dec_digits(fr as int), ku as int) == mul5_times(
                    fd@,
                    ku as int - j as int,
                ),
            decreases ku - j,
        {
            let nd = mul_small(&fd, 5);
            proof {
                assert(mul5_times(fd@, ku as int - j as int) == mul5_times(
                    nd@,
                    ku as int - (j + 1) as int,
                ));
            }
            fd = nd;
        }
        proof {
            assert(mul5_times(fd@, 0) == fd@);
        }
        let fd = strip_lead(&fd);
        let fd = pad_front(fd, ku);
        push_all(out, &idigits);
        out.push('.');
        push_all(out, &fd);
        proof {
            assert(out@ =~= pre + (sgn + float_int_digits(m, e as int) + seq!['.']
                + float_frac_digits(m, e as int)));
        }
    }
}


/// Whether the token characters are exactly the given literal.
fn chars_are(t: &Vec<char>, lit: &str) -> (r: bool)
    ensures
        r == (t@ == lit@),
{
    let m = lit.unicode_len();
    if t.len() != m {
        proof {
            assert(t@.len() != lit@.len());
        }
        return false;
    }
    for i in 0..m
        invariant
            m == t@.len() == lit@.len(),
            forall|j: int| 0 <= j < i ==> t@[j] == lit@[j],
        decreases m - i,
    {
        if t[i] != lit.get_char(i) {
            return false;
        }
    }
    proof {
        assert(t@ =~= lit@);
    }
    true
}

/// The value of a short digit string, if it fits in 64 bits.
fn digits_value(s: &Vec<char>) -> (r: Option<u64>)
    requires
        all_digits(s@),
{
    let mut acc: u64 = 0;
    let n = s.len();
    for i in 0..n
        invariant
            n == s@.len(),
            all_digits(s@),
        decreases n - i,
    {
        let d = crate::dec::char_to_digit(s[i]);
        let t = match acc.checked_mul(10) {
            Some(t) => t,
            None => {
                return None;
            },
        };
        acc = match t.checked_add(d as u64) {
            Some(v) => v,
            None => {
                return None;
            },
        };
    }
    Some(acc)
}

/// Reassemble a float pattern from a sign, a mantissa and a binary
/// exponent, normalizing into IEEE form; `None` when the value has more
/// significant bits than a mantissa holds, or falls outside the
/// representable range.
#[verifier::rlimit(100)]
fn assemble_float(neg: bool, m0: u64, e0: i64) -> (r: Option<u64>)
    requires
        -3000 <= e0 <= 3000,
{
    let sign_bit: u64 = if neg {
        0x8000_0000_0000_0000
    } else {
        0
    };
    if m0 == 0 {
        return Some(sign_bit);
    }
    let mut m = m0;
    let mut e: i64 = e0;
    let mut steps: u64 = 0;
    while m >= 0x20_0000_0000_0000 && steps < 100
        invariant
            -3000 <= e0 <= 3000,
            m >= 1,
            steps <= 100,
            e == e0 + steps,
        decreases m,
    {
        if m % 2 == 1 {
            return None;
        }
        m = m / 2;
        e = e + 1;
        steps = steps + 1;
    }
    if m >= 0x20_0000_0000_0000 {
        return None;
    }
    while m < 0x10_0000_0000_0000 && e > -1074
        invariant
            1 <= m < 0x20_0000_0000_0000,
            -3100 <= e <= 3100,
        decreases e + 3200,
    {
        m = m * 2;
        e = e - 1;
    }
    if m < 0x10_0000_0000_0000 {
        if e != -1074 {
            return None;
        }
        return Some(sign_bit | m);
    }
    let be = e + 1075;
    if be < 1 || be > 2046 {
        return None;
    }
    Some(sign_bit | ((be as u64) << 52u64) | (m - 0x10_0000_0000_0000))
}

/// Scan a decimal float token back to its bit pattern.
///
/// Accepts exactly the forms the writer emits: `NaN`, `inf`, `-inf`, and a
/// plain signed decimal with one point. A decimal parses only when it is
/// the exact value of some pattern, which every written token is; scanning
/// it then recovers that pattern, `NaN` recovering the standard quiet NaN.
/// Exponent notation and inexact decimals are rejected. The contract pins
/// the non-finite tokens; that scanning the exact decimal of a finite
/// pattern recovers that pattern is arithmetic this crate does not prove,
/// and the round-trip tests check it instead.
#[verifier::rlimit(100)]
pub fn parse_float_chars(t: &Vec<char>) -> (r: Option<u64>)
    ensures
        t@ == "NaN"@ ==> r == Some(quiet_nan()),
        t@ == "inf"@ ==> r == Some(0x7ff0_0000_0000_0000u64),
        t@ == "-inf"@ ==> r == Some(0xfff0_0000_0000_0000u64),
{
    proof {
        reveal_strlit("NaN");
        reveal_strlit("inf");
        reveal_strlit("-inf");
        assert("NaN"@ != "inf"@) by {
            assert("NaN"@[0] == 'N' && "inf"@[0] == 'i');
        }
        assert("NaN"@ != "-inf"@) by {
            assert("NaN"@.len() == 3 && "-inf"@.len() == 4);
        }
        assert("inf"@ != "-inf"@) by {
            assert("inf"@.len() == 3 && "-inf"@.len() == 4);
        }
    }
    if chars_are(t, "NaN") {
        return Some(0x7ff8_0000_0000_0000);
    }
    if chars_are(t, "inf") {
        return Some(0x7ff0_0000_0000_0000);
    }
    if chars_are(t, "-inf") {
        return Some(0xfff0_0000_0000_0000);
    }
    parse_finite_float_chars(t)
}

/// Scan a plain signed decimal with one point back to its bit pattern.
#[verifier::rlimit(100)]
fn parse_finite_float_chars(t: &Vec<char>) -> (r: Option<u64>)
{
    let n = t.len();
    let mut pos: usize = 0;
    let mut neg = false;
    if n > 0 && t[0] == '-' {
        neg = true;
        pos = 1;
    }
    let mut ip: Vec<char> = Vec::new();
    let mut i = pos;
    while i < n && t[i] != '.'
        invariant
            pos <= i <= n,
            n == t@.len(),
            all_digits(ip@),
        decreases n - i,
    {
        let d = crate::dec::char_to_digit(t[i]);
        if d == 255 {
            return None;
        }
        let ghost preip = ip@;
        ip.push(t[i]);
        proof {
            assert(forall|j: int|
                0 <= j < ip@.len() ==> ip@[j] == preip.push(t@[i as int])[j]);
        }
        i += 1;
    }
    if i >= n {
        // no decimal point: not a float token
        return None;
    }
    i += 1;
    let mut fp: Vec<char> = Vec::new();
    while i < n
        invariant
            i <= n,
            n == t@.len(),
            all_digits(fp@),
        decreases n - i,
    {
        let d = crate::dec::char_to_digit(t[i]);
        if d == 255 {
            return None;
        }
        let ghost prefp = fp@;
        fp.push(t[i]);
        proof {
            assert(forall|j: int|
                0 <= j < fp@.len() ==> fp@[j] == prefp.push(t@[i as int])[j]);
        }
        i += 1;
    }
    if ip.len() == 0 || fp.len() == 0 || ip.len() > 400 || fp.len() > 1200 {
        return None;
    }
    // undo the power of five in the fraction
    let f = fp.len();
    let mut fd = fp;
    for j in 0..f
        invariant
            all_digits(fd@),
            fd@.len() >= 1,
        decreases f - j,
    {
        let (q, rem) = div_small(&fd, 5);
        if rem != 0 {
            return None;
        }
        fd = strip_lead(&q);
    }
    let mfrac = match digits_value(&fd) {
        Some(v) => v,
        None => {
            return None;
        },
    };
    if mfrac >= 0x20_0000_0000_0000 {
        return None;
    }
    // shrink the integer part until its value fits a mantissa
    let mut iv = strip_lead(&ip);
    let mut extra: i64 = 0;
    let mut steps: usize = 0;
    while iv.len() > 16 && steps < 1400
        invariant
            all_digits(iv@),
            iv@.len() >= 1,
            0 <= extra <= steps,
            steps <= 1400,
        decreases 1400 - steps,
    {
        let (q, rem) = div_small(&iv, 2);
        if rem != 0 {
            return None;
        }
        iv = strip_lead(&q);
        extra = extra + 1;
        steps = steps + 1;
    }
    if iv.len() > 16 {
        return None;
    }
    let mi = match digits_value(&iv) {
        Some(v) => v,
        None => {
            return None;
        },
    };
    if mfrac == 0 {
        return assemble_float(neg, mi, extra);
    }
    if extra > 0 {
        return None;
    }
    if mi > 0 && f >= 53 {
        return None;
    }
    let m = if mi == 0 {
        mfrac
    } else {
        let mut pw: u64 = 1;
        for j in 0..f
            invariant
                f < 53,
                pw <= 0x10_0000_0000_0000,
            decreases f - j,
        {
            pw = match pw.checked_mul(2) {
                Some(p) => p,
                None => {
                    return None;
                },
            };
            if pw > 0x10_0000_0000_0000 {
                return None;
            }
        }
        let hi = match mi.checked_mul(pw) {
            Some(x) => x,
            None => {
                return None;
            },
        };
        match hi.checked_add(mfrac) {
            Some(y) => y,
            None => {
                return None;
            },
        }
    };
    assemble_float(neg, m, 0 - (f as i64))
}

} // verus!
