//! Arbitrary-precision complex arithmetic for the reference orbit: a pair of
//! big integers in fixed point, `value = int / 2^scale`. The big-integer
//! operations come from the num-bigint crate under trusted, exact contracts;
//! the fixed-point bookkeeping, parsing and conversions are verified.

use vstd::prelude::*;
use vstd::arithmetic::power2::pow2;
use num_bigint::BigInt;
use crate::fp::{FRAC_MASK, SIGN_MASK};
use crate::float_extended::{FloatExtended, msb_exec, msb_pos, lemma_msb_bounds};
use crate::complex::ComplexExtended;

verus! {

#[verifier::external_type_specification]
#[verifier::external_body]
pub struct ExBigInt(BigInt);

/// The integer a num-bigint value holds.
pub uninterp spec fn big_val(b: BigInt) -> int;

/// Relies on `BigInt: From<i64>`: exact conversion.
#[verifier::external_body]
pub fn big_from_i64(v: i64) -> (r: BigInt)
    ensures
        big_val(r) == v as int,
{
    BigInt::from(v)
}

/// Relies on `Clone for BigInt`: an equal value.
#[verifier::external_body]
pub fn big_clone(a: &BigInt) -> (r: BigInt)
    ensures
        big_val(r) == big_val(*a),
{
    a.clone()
}

/// Relies on `Add for &BigInt`: exact integer addition.
#[verifier::external_body]
pub fn big_add(a: &BigInt, b: &BigInt) -> (r: BigInt)
    ensures
        big_val(r) == big_val(*a) + big_val(*b),
{
    a + b
}

/// Relies on `Sub for &BigInt`: exact integer subtraction.
#[verifier::external_body]
pub fn big_sub(a: &BigInt, b: &BigInt) -> (r: BigInt)
    ensures
        big_val(r) == big_val(*a) - big_val(*b),
{
    a - b
}

/// Relies on `Mul for &BigInt`: exact integer multiplication.
#[verifier::external_body]
pub fn big_mul(a: &BigInt, b: &BigInt) -> (r: BigInt)
    ensures
        big_val(r) == big_val(*a) * big_val(*b),
{
    a * b
}

/// Relies on `Shl<usize> for &BigInt`: an exact scale by `2^k`.
#[verifier::external_body]
pub fn big_shl(a: &BigInt, k: usize) -> (r: BigInt)
    ensures
        big_val(r) == big_val(*a) * pow2(k as nat),
{
    a << k
}

/// Relies on `Shr<usize> for &BigInt`: arithmetic shift, rounding toward
/// negative infinity, so exactly flooring division by `2^k`.
#[verifier::external_body]
pub fn big_shr(a: &BigInt, k: usize) -> (r: BigInt)
    ensures
        big_val(r) == big_val(*a) / (pow2(k as nat) as int),
{
    a >> k
}

/// Relies on `Div for &BigInt`: quotient truncated toward zero, which on
/// non-negative operands is flooring division.
#[verifier::external_body]
pub fn big_div_nonneg(a: &BigInt, b: &BigInt) -> (r: BigInt)
    requires
        big_val(*a) >= 0,
        big_val(*b) > 0,
    ensures
        big_val(r) == big_val(*a) / big_val(*b),
{
    a / b
}

/// Relies on `Ord for BigInt`: the integer order.
#[verifier::external_body]
pub fn big_lt(a: &BigInt, b: &BigInt) -> (r: bool)
    ensures
        r == (big_val(*a) < big_val(*b)),
{
    a < b
}

/// Relies on `BigInt::sign`: negativity of the value.
#[verifier::external_body]
pub fn big_is_neg(a: &BigInt) -> (r: bool)
    ensures
        r == (big_val(*a) < 0),
{
    a.sign() == num_bigint::Sign::Minus
}

/// Relies on `BigInt::bits`: the bit length of the magnitude, so the value's
/// magnitude lies in `[2^(r-1), 2^r)` when nonzero.
#[verifier::external_body]
pub fn big_bits(a: &BigInt) -> (r: u64)
    ensures
        (r == 0) == (big_val(*a) == 0),
        r > 0 ==> pow2((r - 1) as nat) <= (if big_val(*a) < 0 {
            -big_val(*a)
        } else {
            big_val(*a)
        }) < pow2(r as nat),
{
    a.bits()
}

/// Relies on `u64: TryFrom<&BigInt>`: exact on values in range.
#[verifier::external_body]
pub fn big_to_u64(a: &BigInt) -> (r: u64)
    requires
        0 <= big_val(*a) < 0x1_0000_0000_0000_0000,
    ensures
        r as int == big_val(*a),
{
    u64::try_from(a).unwrap()
}

/// The double bit pattern of a small non-negative integer; exact, since the
/// input fits the 53-bit significand.
pub open spec fn spec_bits_of_u64(n: u64) -> u64 {
    if n == 0 {
        0u64
    } else {
        let p = msb_pos(n);
        (((p + 1023) as u64) << 52) | ((n << ((52 - p) as u64)) & FRAC_MASK)
    }
}

/// Encodes an integer below `2^53` as a double, exactly.
pub fn bits_of_u64(n: u64) -> (r: u64)
    requires
        n < 0x20_0000_0000_0000,
    ensures
        r == spec_bits_of_u64(n),
{
    if n == 0 {
        return 0u64;
    }
    let p = msb_exec(n);
    proof {
        assert(n < 0x20_0000_0000_0000 && n != 0 ==> msb_pos(n) <= 52) by {
            if n < 0x10_0000_0000_0000 {
                lemma_msb_bounds(n);
            } else {
                vstd::arithmetic::power2::lemma2_to64();
                vstd::arithmetic::power2::lemma2_to64_rest();
                crate::float_extended::lemma_msb_le(n, 52);
            }
        };
    }
    ((p + 1023) << 52) | ((n << (52 - p)) & FRAC_MASK)
}

/// Bit length of a positive integer.
pub open spec fn int_bits(n: int) -> nat
    decreases n when n >= 1
{
    if n <= 1 {
        1
    } else {
        1 + int_bits(n / 2)
    }
}

/// A positive integer lies between consecutive powers of two at its bit
/// length.
pub proof fn lemma_int_bits_bounds(n: int)
    requires
        n >= 1,
    ensures
        pow2((int_bits(n) - 1) as nat) <= n < pow2(int_bits(n)),
    decreases n,
{
    vstd::arithmetic::power2::lemma2_to64();
    if n <= 1 {
    } else {
        lemma_int_bits_bounds(n / 2);
        vstd::arithmetic::power2::lemma_pow2_unfold(int_bits(n));
        vstd::arithmetic::power2::lemma_pow2_unfold((int_bits(n) - 1) as nat);
    }
}

/// The sandwich `2^(r-1) <= n < 2^r` pins `r` to the bit length.
pub proof fn lemma_bits_unique(n: int, r: nat)
    requires
        n >= 1,
        r >= 1,
        pow2((r - 1) as nat) <= n < pow2(r),
    ensures
        r == int_bits(n),
{
    lemma_int_bits_bounds(n);
    let b = int_bits(n);
    if r < b {
        vstd::arithmetic::power2::lemma_pow2_adds((r) as nat, (b - 1 - r) as nat);
        vstd::arithmetic::power2::lemma_pow2_pos((b - 1 - r) as nat);
        assert(pow2(r) <= pow2((b - 1) as nat)) by {
            if r < b - 1 {
                vstd::arithmetic::power2::lemma_pow2_strictly_increases(r, (b - 1) as nat);
            }
        };
        assert(false);
    }
    if b < r {
        assert(pow2(b) <= pow2((r - 1) as nat)) by {
            if b < r - 1 {
                vstd::arithmetic::power2::lemma_pow2_strictly_increases(b, (r - 1) as nat);
            }
        };
        assert(false);
    }
}

/// The extended float `fe_from_bigint` builds for a value at a binary
/// scale: the top 53 bits of the magnitude (truncated) with the remaining
/// width folded into the exponent, then renormalized.
pub open spec fn spec_fe_of_int(v: int, scale: int) -> FloatExtended {
    if v == 0 {
        FloatExtended { mantissa: 0u64, exponent: 0i64 }
    } else {
        let a = if v < 0 {
            -v
        } else {
            v
        };
        let b = int_bits(a);
        if b > 0x2000_0000 {
            FloatExtended { mantissa: 0u64, exponent: 0i64 }
        } else {
            let m: int = if b <= 53 {
                a
            } else {
                a / (pow2((b - 53) as nat) as int)
            };
            let e: int = (if b <= 53 {
                0int
            } else {
                b - 53
            }) - scale;
            let raw: u64 = if v < 0 {
                spec_bits_of_u64(m as u64) | SIGN_MASK
            } else {
                spec_bits_of_u64(m as u64)
            };
            crate::float_extended::spec_reduce(FloatExtended { mantissa: raw, exponent: e as i64 })
        }
    }
}

/// An extended float holding `sign * mag * 2^(-scale)` where `mag` is the
/// magnitude of a big integer: the top 53 bits of `mag` become the double
/// mantissa (truncated), and the remaining width moves into the exponent.
pub fn fe_from_bigint(x: &BigInt, scale: i64) -> (r: FloatExtended)
    requires
        -0x4000_0000_0000 <= scale <= 0x4000_0000_0000,
    ensures
        crate::float_extended::is_canonical(r),
        r == spec_fe_of_int(big_val(*x), scale as int),
{
    let ghost v = big_val(*x);
    let b = big_bits(x);
    proof {
        if v != 0 {
            let a: int = if v < 0 { -v } else { v };
            lemma_bits_unique(a, b as nat);
        }
    }
    if b == 0 {
        return FloatExtended::zero();
    }
    if b > 0x2000_0000 {
        return FloatExtended::zero();
    }
    let neg = big_is_neg(x);
    let mag = if neg {
        big_sub(&big_from_i64(0), x)
    } else {
        big_clone(x)
    };
    let ghost a: int = if v < 0 { -v } else { v };
    let m: u64;
    let e: i64;
    if b <= 53 {
        proof {
            vstd::arithmetic::power2::lemma2_to64();
            vstd::arithmetic::power2::lemma2_to64_rest();
            if b < 53 {
                vstd::arithmetic::power2::lemma_pow2_strictly_increases(b as nat, 53);
            }
            vstd::arithmetic::power2::lemma_pow2_strictly_increases(53, 64);
        }
        m = big_to_u64(&mag);
        e = 0 - scale;
    } else {
        let sm = big_shr(&mag, (b - 53) as usize);
        proof {
            let d = pow2((b - 53) as nat) as int;
            assert(((b - 53) as usize) as nat == (b - 53) as nat);
            assert(big_val(mag) == a);
            vstd::arithmetic::power2::lemma_pow2_pos((b - 53) as nat);
            vstd::arithmetic::div_mod::lemma_div_pos_is_pos(a, d);
            vstd::arithmetic::power2::lemma_pow2_adds(53, (b - 53) as nat);
            vstd::arithmetic::power2::lemma2_to64();
            vstd::arithmetic::power2::lemma2_to64_rest();
            assert(a < d * (pow2(53) as int)) by (nonlinear_arith)
                requires a < pow2(b as nat) && pow2(53) * pow2((b - 53) as nat) == pow2(
                    b as nat) && d == pow2((b - 53) as nat) as int;
            vstd::arithmetic::div_mod::lemma_multiply_divide_lt(a, d, pow2(53) as int);
            assert(big_val(sm) == a / d);
            assert(big_val(sm) < pow2(53));
        }
        let mv = big_to_u64_clamped(&sm);
        m = if mv < 0x20_0000_0000_0000 {
            mv
        } else {
            0x1F_FFFF_FFFF_FFFF
        };
        e = (b as i64) - 53 - scale;
    }
    let mb = bits_of_u64(m);
    let fe = FloatExtended { mantissa: if neg { mb | SIGN_MASK } else { mb }, exponent: e };
    fe.reduced()
}

/// Relies on `u64: TryFrom<&BigInt>`, clamping out-of-range values; used
/// where the shift bookkeeping already keeps the value in range.
#[verifier::external_body]
fn big_to_u64_clamped(a: &BigInt) -> (r: u64)
    ensures
        big_val(*a) >= 0 && big_val(*a) < 0x1_0000_0000_0000_0000 ==> r as int == big_val(*a),
{
    match u64::try_from(a) {
        Ok(v) => v,
        Err(_) => 0,
    }
}

pub open spec fn is_digit(c: u8) -> bool {
    48 <= c <= 57
}

/// Value of a run of decimal digit bytes.
pub open spec fn digits_val(s: Seq<u8>) -> int
    decreases s.len(),
{
    if s.len() == 0 {
        0
    } else {
        digits_val(s.drop_last()) * 10 + (s.last() - 48)
    }
}

/// First index at or after `i` holding a non-digit.
pub open spec fn digits_end(s: Seq<u8>, i: int) -> int
    decreases s.len() - i,
{
    if i < 0 {
        i
    } else if i < s.len() && is_digit(s[i]) {
        digits_end(s, i + 1)
    } else {
        i
    }
}

/// Largest exponent magnitude a location string may carry.
pub const MAX_DEC_EXP: u64 = 100_000;

/// Functional reading of a signed decimal with optional fraction and
/// exponent: `[+-]digits[.digits][(e|E)[+-]digits]`. Yields the digit
/// string's value `d`, the fraction length `f` and the decimal exponent
/// `e10`, so the number is `d * 10^(e10 - f)`.
pub open spec fn spec_parse_decimal(s: Seq<u8>) -> Option<(int, nat, int)> {
    let i0: int = if s.len() > 0 && (s[0] == 43 || s[0] == 45) {
        1
    } else {
        0
    };
    let neg = s.len() > 0 && s[0] == 45;
    let i1 = digits_end(s, i0);
    if i1 == i0 {
        None
    } else {
        let i2 = if i1 < s.len() && s[i1] == 46 {
            digits_end(s, i1 + 1)
        } else {
            i1
        };
        if i1 < s.len() && s[i1] == 46 && i2 == i1 + 1 {
            None
        } else {
            let mant = s.subrange(i0, i1) + (if i1 < s.len() && s[i1] == 46 {
                s.subrange(i1 + 1, i2)
            } else {
                Seq::<u8>::empty()
            });
            let f: int = if i1 < s.len() && s[i1] == 46 {
                i2 - i1 - 1
            } else {
                0
            };
            let d = if neg {
                -digits_val(mant)
            } else {
                digits_val(mant)
            };
            if i2 == s.len() {
                Some((d, f as nat, 0int))
            } else if s[i2] == 101 || s[i2] == 69 {
                let j0: int = if i2 + 1 < s.len() && (s[i2 + 1] == 43 || s[i2 + 1] == 45) {
                    i2 + 2
                } else {
                    i2 + 1
                };
                let eneg = i2 + 1 < s.len() && s[i2 + 1] == 45;
                let j1 = digits_end(s, j0);
                if j1 == j0 || j1 != s.len() || digits_val(s.subrange(j0, j1)) > MAX_DEC_EXP {
                    None
                } else {
                    let e10 = if eneg {
                        -digits_val(s.subrange(j0, j1))
                    } else {
                        digits_val(s.subrange(j0, j1))
                    };
                    Some((d, f as nat, e10))
                }
            } else {
                None
            }
        }
    }
}

proof fn lemma_digits_val_step(s: Seq<u8>, a: int, i: int)
    requires
        0 <= a <= i < s.len(),
    ensures
        digits_val(s.subrange(a, i + 1)) == digits_val(s.subrange(a, i)) * 10 + (s[i] - 48),
{
    let t = s.subrange(a, i + 1);
    assert(t.drop_last() =~= s.subrange(a, i));
    assert(t.last() == s[i]);
}

proof fn lemma_digits_val_bounds(s: Seq<u8>)
    requires
        forall|k: int| 0 <= k < s.len() ==> is_digit(#[trigger] s[k]),
    ensures
        digits_val(s) >= 0,
    decreases s.len(),
{
    if s.len() > 0 {
        lemma_digits_val_bounds(s.drop_last());
    }
}

proof fn lemma_digits_end_props(s: Seq<u8>, i: int)
    requires
        0 <= i <= s.len(),
    ensures
        i <= digits_end(s, i) <= s.len(),
        forall|k: int| i <= k < digits_end(s, i) ==> is_digit(#[trigger] s[k]),
        digits_end(s, i) < s.len() ==> !is_digit(s[digits_end(s, i)]),
    decreases s.len() - i,
{
    if i < s.len() && is_digit(s[i]) {
        lemma_digits_end_props(s, i + 1);
    }
}

/// Scans digits from `i`, returning the end index and their value as a big
/// integer.
fn scan_digits(s: &[u8], i: usize) -> (r: (usize, BigInt))
    requires
        i <= s@.len(),
    ensures
        r.0 == digits_end(s@, i as int),
        big_val(r.1) == digits_val(s@.subrange(i as int, r.0 as int)),
        i <= r.0 <= s@.len(),
        forall|k: int| i <= k < r.0 ==> is_digit(#[trigger] s@[k]),
{
    let mut j = i;
    let ten = big_from_i64(10);
    let mut acc = big_from_i64(0);
    proof {
        assert(s@.subrange(i as int, i as int) =~= Seq::<u8>::empty());
        lemma_digits_end_props(s@, i as int);
    }
    loop
        invariant
            i <= j <= s@.len(),
            big_val(ten) == 10,
            digits_end(s@, i as int) == digits_end(s@, j as int),
            big_val(acc) == digits_val(s@.subrange(i as int, j as int)),
            forall|k: int| i <= k < j ==> is_digit(#[trigger] s@[k]),
        decreases s@.len() - j,
    {
        if j < s.len() && 48 <= s[j] && s[j] <= 57 {
            let d = big_from_i64((s[j] - 48) as i64);
            acc = big_add(&big_mul(&acc, &ten), &d);
            proof {
                lemma_digits_val_step(s@, i as int, j as int);
            }
            j = j + 1;
        } else {
            proof {
                assert(digits_end(s@, j as int) == j);
            }
            return (j, acc);
        }
    }
}

/// `10^k` as a big integer.
pub fn big_pow10(k: u64) -> (r: BigInt)
    requires
        k <= 0x2_0000_0000,
    ensures
        big_val(r) == vstd::arithmetic::power::pow(10, k as nat),
        big_val(r) > 0,
{
    let ten = big_from_i64(10);
    let mut t = big_from_i64(1);
    let mut i: u64 = 0;
    proof {
        vstd::arithmetic::power::lemma_pow0(10);
    }
    while i < k
        invariant
            i <= k,
            big_val(ten) == 10,
            big_val(t) == vstd::arithmetic::power::pow(10, i as nat),
        decreases k - i,
    {
        t = big_mul(&t, &ten);
        proof {
            lemma_pow10_step(i as nat);
        }
        i = i + 1;
    }
    proof {
        vstd::arithmetic::power::lemma_pow_positive(10, k as nat);
    }
    t
}

proof fn lemma_pow10_step(i: nat)
    ensures
        vstd::arithmetic::power::pow(10, i + 1) == 10 * vstd::arithmetic::power::pow(10, i),
{
    vstd::arithmetic::power::lemma_pow1(10);
    vstd::arithmetic::power::lemma_pow_adds(10, i, 1);
}

/// The fixed-point integer a parsed decimal denotes at binary scale `S`:
/// `d * 10^(e10 - f) * 2^S`, magnitude floored.
pub open spec fn spec_scaled_value(d: int, f: nat, e10: int, scale: nat) -> int {
    let k = e10 - f;
    if k >= 0 {
        d * vstd::arithmetic::power::pow(10, k as nat) * pow2(scale)
    } else if d >= 0 {
        (d * pow2(scale)) / (vstd::arithmetic::power::pow(10, (-k) as nat) as int)
    } else {
        -((-d * pow2(scale)) / (vstd::arithmetic::power::pow(10, (-k) as nat) as int))
    }
}

/// Parses a decimal string into fixed point at binary scale `scale`:
/// the result holds `value * 2^scale`, magnitude truncated toward zero.
/// Returns `None` exactly when the string is not a well-formed decimal.
pub fn parse_decimal_scaled(s: &[u8], scale: usize) -> (r: Option<BigInt>)
    requires
        scale <= 0x2000_0000,
        s@.len() < 0x1000_0000,
    ensures
        r is Some <==> spec_parse_decimal(s@) is Some,
        r is Some ==> ({
            let (d, f, e10) = spec_parse_decimal(s@).unwrap();
            big_val(r.unwrap()) == spec_scaled_value(d, f, e10, scale as nat)
        }),
{
    let ghost gs = s@;
    let n = s.len();
    let mut i0: usize = 0;
    let mut neg = false;
    if n > 0 && (s[0] == 43 || s[0] == 45) {
        i0 = 1;
        neg = s[0] == 45;
    }
    let (i1, int_part) = scan_digits(s, i0);
    if i1 == i0 {
        return None;
    }
    let mut mant = int_part;
    let mut f: u64 = 0;
    let mut i2 = i1;
    proof {
        assert(gs.subrange(i0 as int, i1 as int) + Seq::<u8>::empty() =~= gs.subrange(
            i0 as int, i1 as int));
    }
    if i1 < n && s[i1] == 46 {
        let (j, frac_part) = scan_digits(s, i1 + 1);
        if j == i1 + 1 {
            return None;
        }
        i2 = j;
        f = (j - (i1 + 1)) as u64;
        let p = big_pow10(f);
        mant = big_add(&big_mul(&mant, &p), &frac_part);
        proof {
            lemma_digits_concat(gs, i0 as int, i1 as int, i1 + 1, j as int);
        }
    }
    let ghost mantseq = gs.subrange(i0 as int, i1 as int) + (if i1 < gs.len()
        && gs[i1 as int] == 46 {
        gs.subrange(i1 + 1, i2 as int)
    } else {
        Seq::<u8>::empty()
    });
    let ghost md = digits_val(mantseq);
    proof {
        assert(big_val(mant) == md);
        assert(forall|k: int| 0 <= k < mantseq.len() ==> is_digit(#[trigger] mantseq[k]));
        lemma_digits_val_bounds(mantseq);
    }
    let mut e10_mag: u64 = 0;
    let mut e10_neg = false;
    if i2 < n {
        if s[i2] == 101 || s[i2] == 69 {
            let mut j0 = i2 + 1;
            if i2 + 1 < n && (s[i2 + 1] == 43 || s[i2 + 1] == 45) {
                j0 = i2 + 2;
                e10_neg = s[i2 + 1] == 45;
            }
            let (j1, evalue) = scan_digits(s, j0);
            if j1 == j0 || j1 != n {
                return None;
            }
            let cap = big_from_i64(MAX_DEC_EXP as i64);
            if big_lt(&cap, &evalue) {
                return None;
            }
            proof {
                let sub = gs.subrange(j0 as int, j1 as int);
                assert(forall|k: int| 0 <= k < sub.len() ==> is_digit(#[trigger] sub[k]));
                lemma_digits_val_bounds(sub);
            }
            e10_mag = big_to_u64(&evalue);
        } else {
            return None;
        }
    }
    let ghost e10: int = if e10_neg {
        -(e10_mag as int)
    } else {
        e10_mag as int
    };
    let ghost d: int = if neg {
        -md
    } else {
        md
    };
    proof {
        assert(spec_parse_decimal(gs) == Some((d, (f as nat), e10)));
        vstd::arithmetic::power2::lemma_pow2_pos(scale as nat);
    }
    // value = mant * 10^(e10 - f) * 2^scale, magnitude floored
    let r: BigInt;
    if !e10_neg && e10_mag >= f {
        let k = e10_mag - f;
        let p = big_pow10(k);
        let t = big_shl(&big_mul(&mant, &p), scale);
        let ghost pk = vstd::arithmetic::power::pow(10, k as nat) as int;
        let ghost q = pow2(scale as nat) as int;
        r = if neg {
            big_sub(&big_from_i64(0), &t)
        } else {
            t
        };
        proof {
            if neg {
                assert((-md) * pk * q == -(md * pk * q)) by (nonlinear_arith);
                if md == 0 {
                    assert(d == 0);
                    assert(0int * pk * q == 0) by (nonlinear_arith);
                    assert(md * pk * q == 0) by (nonlinear_arith)
                        requires md == 0;
                }
            }
        }
    } else {
        let k: u64 = if e10_neg {
            e10_mag + f
        } else {
            f - e10_mag
        };
        let p = big_pow10(k);
        let ghost pk = vstd::arithmetic::power::pow(10, k as nat) as int;
        let ghost q = pow2(scale as nat) as int;
        proof {
            assert(md * q >= 0) by (nonlinear_arith)
                requires md >= 0 && q > 0;
        }
        let t = big_div_nonneg(&big_shl(&mant, scale), &p);
        r = if neg {
            big_sub(&big_from_i64(0), &t)
        } else {
            t
        };
        proof {
            if neg && md == 0 {
                assert(d == 0);
                assert(md * q == 0 && d * q == 0) by (nonlinear_arith)
                    requires md == 0 && d == 0;
                assert(0int / pk == 0) by (nonlinear_arith)
                    requires pk > 0;
            }
            if e10 - f >= 0 {
                // only possible when both are zero; then the two readings agree
                assert(k == 0);
                vstd::arithmetic::power::lemma_pow0(10);
                assert(pk == 1);
                assert((md * q) / 1int == md * q) by (nonlinear_arith);
                assert(big_val(t) == md * q);
                if neg {
                    assert((-md) * pk * q == -(md * pk * q)) by (nonlinear_arith);
                }
                assert(md * 1 * q == md * q) by (nonlinear_arith);
            }
        }
    }
    Some(r)
}

proof fn lemma_digits_concat(s: Seq<u8>, a: int, b: int, c: int, d: int)
    requires
        0 <= a <= b,
        b + 1 == c <= d <= s.len(),
    ensures
        digits_val(s.subrange(a, b) + s.subrange(c, d)) == digits_val(s.subrange(a, b))
            * vstd::arithmetic::power::pow(10, (d - c) as nat) + digits_val(s.subrange(c, d)),
    decreases d - c,
{
    if d == c {
        assert(s.subrange(a, b) + s.subrange(c, d) =~= s.subrange(a, b));
        vstd::arithmetic::power::lemma_pow0(10);
    } else {
        lemma_digits_concat(s, a, b, c, d - 1);
        let whole = s.subrange(a, b) + s.subrange(c, d);
        assert(whole.drop_last() =~= s.subrange(a, b) + s.subrange(c, d - 1));
        assert(whole.last() == s[d - 1]);
        let prev = s.subrange(c, d - 1);
        assert(s.subrange(c, d).drop_last() =~= prev);
        lemma_pow10_step((d - c - 1) as nat);
        let ia = digits_val(s.subrange(a, b));
        let pw = vstd::arithmetic::power::pow(10, (d - c - 1) as nat) as int;
        assert(ia * (10 * pw) == (ia * pw) * 10) by (nonlinear_arith);
    }
}

/// The parsed fixed-point value of a decimal byte string, when well formed.
pub open spec fn spec_parse_scaled(s: Seq<u8>, scale: nat) -> Option<int> {
    match spec_parse_decimal(s) {
        Some((d, f, e10)) => Some(spec_scaled_value(d, f, e10, scale)),
        None => None,
    }
}

/// One step of the reference recurrence on the fixed-point model:
/// `z^2 + c` with products floored back to the scale.
pub open spec fn spec_orbit_step(z: (int, int), c: (int, int), scale: nat) -> (int, int) {
    (
        (z.0 * z.0 - z.1 * z.1) / (pow2(scale) as int) + c.0,
        (2 * z.0 * z.1) / (pow2(scale) as int) + c.1,
    )
}

/// A multi-precision complex in fixed point: the value is
/// `(re + im*i) / 2^scale`.
pub struct ComplexArbitrary {
    scale: usize,
    re: BigInt,
    im: BigInt,
}

impl ComplexArbitrary {
    /// Fraction bits of the representation.
    pub closed spec fn spec_prec(&self) -> nat {
        self.scale as nat
    }

    /// The integer pair the value scales down from.
    pub closed spec fn model(&self) -> (int, int) {
        (big_val(self.re), big_val(self.im))
    }

    pub fn prec(&self) -> (r: usize)
        ensures
            r == self.spec_prec(),
    {
        self.scale
    }

    /// Parses the two centre coordinates at the given precision.
    pub fn parse(scale: usize, re_s: &[u8], im_s: &[u8]) -> (r: Option<ComplexArbitrary>)
        requires
            scale <= 0x2000_0000,
            re_s@.len() < 0x1000_0000,
            im_s@.len() < 0x1000_0000,
        ensures
            r is Some <==> (spec_parse_scaled(re_s@, scale as nat) is Some
                && spec_parse_scaled(im_s@, scale as nat) is Some),
            r is Some ==> r.unwrap().spec_prec() == scale as nat
                && r.unwrap().model() == (
                spec_parse_scaled(re_s@, scale as nat).unwrap(),
                spec_parse_scaled(im_s@, scale as nat).unwrap(),
            ),
    {
        let re = parse_decimal_scaled(re_s, scale);
        let im = parse_decimal_scaled(im_s, scale);
        match (re, im) {
            (Some(re), Some(im)) => Some(ComplexArbitrary { scale, re, im }),
            _ => None,
        }
    }

    pub fn clone_value(&self) -> (r: ComplexArbitrary)
        ensures
            r.spec_prec() == self.spec_prec(),
            r.model() == self.model(),
    {
        ComplexArbitrary {
            scale: self.scale,
            re: big_clone(&self.re),
            im: big_clone(&self.im),
        }
    }

    /// Advances `z` to `z^2 + c`, the Mandelbrot recurrence, exactly on the
    /// fixed-point model.
    pub fn square_plus_c(&mut self, c: &ComplexArbitrary)
        requires
            old(self).spec_prec() == c.spec_prec(),
        ensures
            final(self).spec_prec() == old(self).spec_prec(),
            final(self).model() == spec_orbit_step(old(self).model(), c.model(),
                old(self).spec_prec()),
    {
        let rr = big_mul(&self.re, &self.re);
        let ii = big_mul(&self.im, &self.im);
        let ri = big_mul(&self.re, &self.im);
        let new_re = big_add(&big_shr(&big_sub(&rr, &ii), self.scale), &c.re);
        let two = big_from_i64(2);
        let new_im = big_add(&big_shr(&big_mul(&two, &ri), self.scale), &c.im);
        proof {
            let zr = big_val(old(self).re);
            let zi = big_val(old(self).im);
            assert(2 * (zr * zi) == 2 * zr * zi) by (nonlinear_arith);
        }
        self.re = new_re;
        self.im = new_im;
    }

    /// Whether `|z|^2` exceeds `threshold / 2^(2*scale)`, exactly.
    pub fn norm_sqr_exceeds(&self, threshold: &BigInt) -> (r: bool)
        ensures
            r == (self.model().0 * self.model().0 + self.model().1 * self.model().1
                > big_val(*threshold)),
    {
        let rr = big_mul(&self.re, &self.re);
        let ii = big_mul(&self.im, &self.im);
        let s = big_add(&rr, &ii);
        big_lt(threshold, &s)
    }

    /// Adds an extended complex to the value, exactly up to the flooring of
    /// the summand onto the fixed-point grid.
    pub fn add_extended(&self, d: &ComplexExtended) -> (r: ComplexArbitrary)
        requires
            -0x4000_0000 <= d.exponent <= 0x4000_0000,
            self.spec_prec() <= 0x2000_0000,
        ensures
            r.spec_prec() == self.spec_prec(),
            r.model().0 == self.model().0 + spec_double_scaled(d.re, d.exponent as int,
                self.spec_prec()),
            r.model().1 == self.model().1 + spec_double_scaled(d.im, d.exponent as int,
                self.spec_prec()),
    {
        let dre = big_from_double_scaled(d.re, d.exponent, self.scale);
        let dim = big_from_double_scaled(d.im, d.exponent, self.scale);
        ComplexArbitrary {
            scale: self.scale,
            re: big_add(&self.re, &dre),
            im: big_add(&self.im, &dim),
        }
    }

    /// The nearest extended-complex image of the value (components truncated
    /// to 53 bits).
    pub fn to_extended(&self) -> (r: ComplexExtended)
        requires
            self.spec_prec() <= 0x2000_0000,
        ensures
            r == spec_ce_of_model(self.model(), self.spec_prec() as int),
    {
        let fr = fe_from_bigint(&self.re, self.scale as i64);
        let fi = fe_from_bigint(&self.im, self.scale as i64);
        ce_from_fe_pair(fr, fi)
    }
}

/// The fixed-point integer a finite double `m * 2^e` lands on at scale `S`
/// (floored).
pub open spec fn spec_double_scaled(m: u64, e: int, scale: nat) -> int {
    let k = crate::fp::val_scale(m) + e + scale;
    if k >= 0 {
        crate::fp::val_num(m) * pow2(k as nat)
    } else {
        crate::fp::val_num(m) / (pow2((-k) as nat) as int)
    }
}

/// Converts a finite double at a binary exponent onto the fixed-point grid.
pub fn big_from_double_scaled(m: u64, e: i64, scale: usize) -> (r: BigInt)
    requires
        -0x4000_0000 <= e <= 0x4000_0000,
        scale <= 0x2000_0000,
    ensures
        big_val(r) == spec_double_scaled(m, e as int, scale as nat),
{
    let ef: u64 = (m >> 52) & 0x7ff;
    let fr: u64 = m & FRAC_MASK;
    let sg: u64 = m >> 63;
    proof {
        assert(ef == crate::fp::expf(m) && fr == crate::fp::frac(m) && sg == crate::fp::sgn(m)
            && ef <= 0x7ff && fr < 0x10_0000_0000_0000) by (bit_vector)
            requires ef == (m >> 52) & 0x7ff && fr == m & FRAC_MASK && sg == m >> 63;
    }
    let mag: u64 = if ef == 0 {
        fr
    } else {
        0x10_0000_0000_0000u64 | fr
    };
    proof {
        assert(ef >= 1 ==> (0x10_0000_0000_0000u64 | fr) == 0x10_0000_0000_0000u64 + fr)
            by (bit_vector)
            requires fr < 0x10_0000_0000_0000;
    }
    let sm: i64 = if sg == 1 {
        -(mag as i64)
    } else {
        mag as i64
    };
    let num = big_from_i64(sm);
    let vs: i64 = if ef == 0 {
        -1074
    } else {
        (ef as i64) - 1075
    };
    let k: i64 = vs + e + (scale as i64);
    proof {
        assert(-1075 - 0x4000_0000 <= k <= 972 + 0x4000_0000 + 0x2000_0000);
    }
    if k >= 0 {
        big_shl(&num, k as usize)
    } else {
        let ks: usize = (-k) as usize;
        assert(ks == -(k as int));
        big_shr(&num, ks)
    }
}

/// What `ce_from_fe_pair` computes: the components side by side under the
/// larger of the two exponents, renormalized.
pub open spec fn spec_ce_of_fe_pair(a: FloatExtended, b: FloatExtended) -> ComplexExtended {
    let q: int = if a.exponent >= b.exponent {
        a.exponent as int
    } else {
        b.exponent as int
    };
    crate::complex::spec_ce_reduce(
        ComplexExtended {
            re: crate::float_extended::spec_scale_pow2(a.mantissa, a.exponent - q),
            im: crate::float_extended::spec_scale_pow2(b.mantissa, b.exponent - q),
            exponent: q as i64,
        },
    )
}

/// The extended image of a fixed-point integer pair at a binary scale.
pub open spec fn spec_ce_of_model(m: (int, int), scale: int) -> ComplexExtended {
    spec_ce_of_fe_pair(spec_fe_of_int(m.0, scale), spec_fe_of_int(m.1, scale))
}

/// Packs two extended floats into one extended complex sharing the larger
/// exponent.
pub fn ce_from_fe_pair(a: FloatExtended, b: FloatExtended) -> (r: ComplexExtended)
    requires
        crate::float_extended::is_canonical(a),
        crate::float_extended::is_canonical(b),
    ensures
        r == spec_ce_of_fe_pair(a, b),
{
    let q: i64 = if a.exponent >= b.exponent {
        a.exponent
    } else {
        b.exponent
    };
    let c = ComplexExtended {
        re: crate::float_extended::scale_pow2(a.mantissa, a.exponent - q),
        im: crate::float_extended::scale_pow2(b.mantissa, b.exponent - q),
        exponent: q,
    };
    c.reduced()
}

} // verus!
