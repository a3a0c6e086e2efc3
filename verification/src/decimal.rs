//! The float value of the language: an exact decimal in sign-magnitude form.
//!
//! A `Fl` holds a magnitude `mant`, a sign `neg` and a decimal `scale`; it
//! stands for the number `(-1)^neg * mant / 10^scale`. Every operation keeps
//! the value canonical: the magnitude fits in a signed 64-bit word, at most
//! `SCALE_MAX` fractional digits are kept (further digits are truncated
//! toward zero), a fraction never ends in a zero digit, and zero is stored
//! with a positive sign and scale zero. Canonical form makes the written
//! form unique, so printing needs no further normalisation.
//!
//! Division carries `SCALE_MAX` fractional digits and truncates toward zero;
//! a division by zero saturates to the largest magnitude (or to zero when
//! the dividend is zero). Results whose magnitude exceeds `MANT_MAX`
//! saturate to `MANT_MAX`. All of this is fixed exactly by the spec
//! functions below, which the executable operations are proved to follow.

use vstd::prelude::*;
use vstd::arithmetic::mul::*;
use vstd::arithmetic::div_mod::*;

verus! {

/// Largest magnitude a float keeps: the largest signed 64-bit number.
pub const MANT_MAX: u64 = 9223372036854775807;

/// Number of fractional digits kept by the representation.
pub const SCALE_MAX: u32 = 8;

/// A decimal float: `(-1)^neg * mant / 10^scale`.
#[derive(Clone, Copy, Debug, PartialEq, Eq, Structural)]
pub struct Fl {
    pub neg: bool,
    pub mant: u64,
    pub scale: u32,
}

/// `10^n`.
pub open spec fn pow10(n: nat) -> nat
    decreases n,
{
    if n == 0 {
        1
    } else {
        10 * pow10((n - 1) as nat)
    }
}

/// Canonical form: bounded magnitude and scale, no trailing fractional
/// zero digit, and zero is positive with scale zero.
pub open spec fn fl_wf(f: Fl) -> bool {
    &&& f.mant <= MANT_MAX
    &&& f.scale <= SCALE_MAX
    &&& (f.scale > 0 ==> f.mant % 10 != 0)
    &&& (f.mant == 0 ==> !f.neg && f.scale == 0)
}

/// The signed numerator of `f`; the value of `f` is this over `10^f.scale`.
pub open spec fn fl_num(f: Fl) -> int {
    if f.neg {
        -(f.mant as int)
    } else {
        f.mant as int
    }
}

/// Drop fractional digits beyond `SCALE_MAX`, truncating toward zero.
pub open spec fn spec_trim(m: nat, s: nat) -> (nat, nat)
    decreases s,
{
    if s > SCALE_MAX {
        spec_trim(m / 10, (s - 1) as nat)
    } else {
        (m, s)
    }
}

/// Strip trailing zero digits of the fraction.
pub open spec fn spec_strip(m: nat, s: nat) -> (nat, nat)
    decreases s,
{
    if s > 0 && m % 10 == 0 {
        spec_strip(m / 10, (s - 1) as nat)
    } else {
        (m, s)
    }
}

/// The canonical float of sign `neg` and value `m / 10^s`: trim the scale,
/// strip trailing fractional zeros, saturate the magnitude at `MANT_MAX`.
pub open spec fn fl_make(neg: bool, m: nat, s: nat) -> Fl {
    let t = spec_trim(m, s);
    let u = spec_strip(t.0, t.1);
    let mc: nat = if u.0 > MANT_MAX { MANT_MAX as nat } else { u.0 };
    Fl {
        neg: if mc == 0 {
            false
        } else {
            neg
        },
        mant: mc as u64,
        scale: u.1 as u32,
    }
}

/// The canonical float of the signed value `n / 10^s`.
pub open spec fn fl_make_int(n: int, s: nat) -> Fl {
    if n < 0 {
        fl_make(true, (-n) as nat, s)
    } else {
        fl_make(false, n as nat, s)
    }
}

/// Zero in canonical form.
pub open spec fn fl_zero() -> Fl {
    Fl { neg: false, mant: 0, scale: 0 }
}

/// The sum, with the exact addends brought to the common scale.
pub open spec fn spec_fl_add(a: Fl, b: Fl) -> Fl {
    if a.scale >= b.scale {
        fl_make_int(fl_num(a) + fl_num(b) * pow10((a.scale - b.scale) as nat), a.scale as nat)
    } else {
        fl_make_int(fl_num(a) * pow10((b.scale - a.scale) as nat) + fl_num(b), b.scale as nat)
    }
}

/// The difference `a - b`.
pub open spec fn spec_fl_sub(a: Fl, b: Fl) -> Fl {
    if a.scale >= b.scale {
        fl_make_int(fl_num(a) - fl_num(b) * pow10((a.scale - b.scale) as nat), a.scale as nat)
    } else {
        fl_make_int(fl_num(a) * pow10((b.scale - a.scale) as nat) - fl_num(b), b.scale as nat)
    }
}

/// The product.
pub open spec fn spec_fl_mul(a: Fl, b: Fl) -> Fl {
    fl_make_int(fl_num(a) * fl_num(b), (a.scale + b.scale) as nat)
}

/// The quotient, carried to `SCALE_MAX` fractional digits and truncated
/// toward zero; division by zero saturates.
pub open spec fn spec_fl_div(a: Fl, b: Fl) -> Fl {
    if b.mant == 0 {
        if a.mant == 0 {
            fl_zero()
        } else {
            Fl { neg: a.neg != b.neg, mant: MANT_MAX, scale: 0 }
        }
    } else {
        fl_make(
            a.neg != b.neg,
            ((a.mant * pow10((b.scale + SCALE_MAX) as nat)) / (b.mant * pow10(
                a.scale as nat,
            ))) as nat,
            SCALE_MAX as nat,
        )
    }
}

/// `a < b` as numbers.
pub open spec fn spec_fl_lt(a: Fl, b: Fl) -> bool {
    fl_num(a) * pow10(b.scale as nat) < fl_num(b) * pow10(a.scale as nat)
}

/// `a == b` as numbers.
pub open spec fn spec_fl_eq(a: Fl, b: Fl) -> bool {
    fl_num(a) * pow10(b.scale as nat) == fl_num(b) * pow10(a.scale as nat)
}

/// The float standing for the integer `i` (magnitudes beyond `MANT_MAX`
/// saturate).
pub open spec fn spec_int_to_fl(i: i64) -> Fl {
    fl_make_int(i as int, 0)
}

/// `f` truncated toward zero, as an integer.
pub open spec fn spec_fl_trunc(f: Fl) -> int {
    if f.neg {
        -((f.mant as nat / pow10(f.scale as nat)) as int)
    } else {
        (f.mant as nat / pow10(f.scale as nat)) as int
    }
}

proof fn lemma_pow10_pos(n: nat)
    ensures
        pow10(n) >= 1,
    decreases n,
{
    if n > 0 {
        lemma_pow10_pos((n - 1) as nat);
    }
}

proof fn lemma_pow10_le(a: nat, b: nat)
    requires
        a <= b,
    ensures
        pow10(a) <= pow10(b),
    decreases b,
{
    if a < b {
        lemma_pow10_le(a, (b - 1) as nat);
        lemma_pow10_pos((b - 1) as nat);
    }
}

proof fn lemma_pow10_8()
    ensures
        pow10(SCALE_MAX as nat) == 100000000,
        pow10(16) == 10000000000000000,
{
    reveal_with_fuel(pow10, 17);
}

proof fn lemma_trim_props(m: nat, s: nat)
    ensures
        spec_trim(m, s).1 <= SCALE_MAX,
        spec_trim(m, s).0 <= m,
        s <= SCALE_MAX ==> spec_trim(m, s) == (m, s),
    decreases s,
{
    if s > SCALE_MAX {
        lemma_trim_props(m / 10, (s - 1) as nat);
    }
}

proof fn lemma_strip_props(m: nat, s: nat)
    ensures
        spec_strip(m, s).1 <= s,
        spec_strip(m, s).0 <= m,
        spec_strip(m, s).1 > 0 ==> spec_strip(m, s).0 % 10 != 0,
        spec_strip(m, s).0 == 0 ==> spec_strip(m, s).1 == 0,
    decreases s,
{
    if s > 0 && m % 10 == 0 {
        lemma_strip_props(m / 10, (s - 1) as nat);
    }
}

pub proof fn lemma_fl_make_wf(neg: bool, m: nat, s: nat)
    ensures
        fl_wf(fl_make(neg, m, s)),
{
    lemma_trim_props(m, s);
    lemma_strip_props(spec_trim(m, s).0, spec_trim(m, s).1);
    assert(MANT_MAX % 10 == 7);
}

/// `10^e` as a machine word, for the small exponents the operations use.
pub fn pow10_u64(e: u32) -> (r: u64)
    requires
        e <= SCALE_MAX,
    ensures
        r as nat == pow10(e as nat),
        1 <= r <= 100000000,
{
    proof {
        lemma_pow10_8();
        lemma_pow10_le(e as nat, SCALE_MAX as nat);
        lemma_pow10_pos(e as nat);
    }
    let mut r: u64 = 1;
    let mut i: u32 = 0;
    while i < e
        invariant
            i <= e <= SCALE_MAX,
            r as nat == pow10(i as nat),
            pow10(e as nat) <= 100000000,
            pow10(i as nat) <= pow10(e as nat),
        decreases e - i,
    {
        proof {
            lemma_pow10_le((i + 1) as nat, e as nat);
        }
        r = r * 10;
        i = i + 1;
    }
    r
}

/// The canonical float of sign `neg` and value `m / 10^s`.
pub fn fl_make_exec(neg: bool, m: u128, s: u32) -> (r: Fl)
    ensures
        r == fl_make(neg, m as nat, s as nat),
        fl_wf(r),
{
    let ghost m0: nat = m as nat;
    let ghost s0: nat = s as nat;
    let mut m = m;
    let mut s = s;
    while s > SCALE_MAX
        invariant
            spec_trim(m as nat, s as nat) == spec_trim(m0, s0),
        decreases s,
    {
        m = m / 10;
        s = s - 1;
    }
    let mut m2 = m;
    let mut s2 = s;
    while s2 > 0 && m2 % 10 == 0
        invariant
            s2 <= SCALE_MAX,
            spec_strip(m2 as nat, s2 as nat) == spec_strip(m as nat, s as nat),
        decreases s2,
    {
        m2 = m2 / 10;
        s2 = s2 - 1;
    }
    proof {
        lemma_fl_make_wf(neg, m0, s0);
    }
    let mc: u64 = if m2 > MANT_MAX as u128 {
        MANT_MAX
    } else {
        m2 as u64
    };
    Fl { neg: if mc == 0 { false } else { neg }, mant: mc, scale: s2 }
}

/// `10^e` for exponents up to twice `SCALE_MAX` (division needs them).
pub fn pow10_wide(e: u32) -> (r: u64)
    requires
        e <= 16,
    ensures
        r as nat == pow10(e as nat),
        1 <= r <= 10000000000000000,
{
    proof {
        lemma_pow10_8();
        lemma_pow10_le(e as nat, 16);
        lemma_pow10_pos(e as nat);
    }
    let mut r: u64 = 1;
    let mut i: u32 = 0;
    while i < e
        invariant
            i <= e <= 16,
            r as nat == pow10(i as nat),
            pow10(e as nat) <= 10000000000000000,
            pow10(i as nat) <= pow10(e as nat),
        decreases e - i,
    {
        proof {
            lemma_pow10_le((i + 1) as nat, e as nat);
        }
        r = r * 10;
        i = i + 1;
    }
    r
}

/// The two magnitudes brought to the common scale, and that scale.
fn fl_align(a: &Fl, b: &Fl) -> (r: (u128, u128, u32))
    requires
        fl_wf(*a),
        fl_wf(*b),
    ensures
        a.scale >= b.scale ==> r.0 as int == a.mant as int && r.1 as int == b.mant as int * pow10(
            (a.scale - b.scale) as nat,
        ) && r.2 == a.scale,
        a.scale < b.scale ==> r.0 as int == a.mant as int * pow10((b.scale - a.scale) as nat)
            && r.1 as int == b.mant as int && r.2 == b.scale,
        r.0 <= 0x7fffffffffffffff00000000u128,
        r.1 <= 0x7fffffffffffffff00000000u128,
        r.2 <= SCALE_MAX,
{
    proof {
        lemma_pow10_8();
    }
    if a.scale >= b.scale {
        let p = pow10_u64(a.scale - b.scale);
        proof {
            lemma_mul_upper_bound(b.mant as int, MANT_MAX as int, p as int, 100000000);
        }
        (a.mant as u128, b.mant as u128 * p as u128, a.scale)
    } else {
        let p = pow10_u64(b.scale - a.scale);
        proof {
            lemma_mul_upper_bound(a.mant as int, MANT_MAX as int, p as int, 100000000);
        }
        (a.mant as u128 * p as u128, b.mant as u128, b.scale)
    }
}

proof fn lemma_signed_mag(neg: bool, m: int, p: int)
    requires
        m >= 0,
        p >= 0,
    ensures
        (if neg {
            -m
        } else {
            m
        }) * p == if neg {
            -(m * p)
        } else {
            m * p
        },
{
    lemma_mul_unary_negation(m, p);
}

proof fn lemma_trim_zero(s: nat)
    ensures
        spec_trim(0, s).0 == 0,
    decreases s,
{
    if s > SCALE_MAX {
        lemma_trim_zero((s - 1) as nat);
    }
}

proof fn lemma_strip_zero(s: nat)
    ensures
        spec_strip(0, s) == (0nat, 0nat),
    decreases s,
{
    if s > 0 {
        lemma_strip_zero((s - 1) as nat);
    }
}

/// `fl_make_int` of a signed magnitude is `fl_make` of the sign and the
/// magnitude (the sign of zero is normalised either way).
proof fn lemma_make_int_mag(neg: bool, m: nat, s: nat)
    ensures
        fl_make_int(
            if neg {
                -(m as int)
            } else {
                m as int
            },
            s,
        ) == fl_make(neg, m, s),
{
    if m == 0 {
        lemma_trim_zero(s);
        lemma_trim_props(0, s);
        lemma_strip_zero(spec_trim(0, s).1);
    }
}

/// The sum of two canonical floats.
pub fn fl_add(a: &Fl, b: &Fl) -> (r: Fl)
    requires
        fl_wf(*a),
        fl_wf(*b),
    ensures
        r == spec_fl_add(*a, *b),
        fl_wf(r),
{
    let (ma, mb, s) = fl_align(a, b);
    proof {
        if a.scale >= b.scale {
            lemma_signed_mag(b.neg, b.mant as int, pow10((a.scale - b.scale) as nat) as int);
        } else {
            lemma_signed_mag(a.neg, a.mant as int, pow10((b.scale - a.scale) as nat) as int);
        }
    }
    if a.neg == b.neg {
        let r = fl_make_exec(a.neg, ma + mb, s);
        proof {
            lemma_make_int_mag(a.neg, (ma + mb) as nat, s as nat);
        }
        r
    } else if ma >= mb {
        let r = fl_make_exec(a.neg, ma - mb, s);
        proof {
            lemma_make_int_mag(a.neg, (ma - mb) as nat, s as nat);
        }
        r
    } else {
        let r = fl_make_exec(b.neg, mb - ma, s);
        proof {
            lemma_make_int_mag(b.neg, (mb - ma) as nat, s as nat);
        }
        r
    }
}

/// The same number with the opposite sign (zero stays positive).
pub fn fl_neg(a: &Fl) -> (r: Fl)
    requires
        fl_wf(*a),
    ensures
        fl_wf(r),
        fl_num(r) == -fl_num(*a),
        r.scale == a.scale,
{
    if a.mant == 0 {
        *a
    } else {
        Fl { neg: !a.neg, mant: a.mant, scale: a.scale }
    }
}

/// The difference `a - b`.
pub fn fl_sub(a: &Fl, b: &Fl) -> (r: Fl)
    requires
        fl_wf(*a),
        fl_wf(*b),
    ensures
        r == spec_fl_sub(*a, *b),
        fl_wf(r),
{
    let nb = fl_neg(b);
    let r = fl_add(a, &nb);
    proof {
        if a.scale >= b.scale {
            assert(fl_num(nb) * pow10((a.scale - b.scale) as nat) == -(fl_num(*b) * pow10(
                (a.scale - b.scale) as nat,
            ))) by {
                lemma_mul_unary_negation(fl_num(*b), pow10((a.scale - b.scale) as nat) as int);
            }
        }
    }
    r
}

/// The product.
pub fn fl_mul(a: &Fl, b: &Fl) -> (r: Fl)
    requires
        fl_wf(*a),
        fl_wf(*b),
    ensures
        r == spec_fl_mul(*a, *b),
        fl_wf(r),
{
    proof {
        lemma_mul_upper_bound(a.mant as int, MANT_MAX as int, b.mant as int, MANT_MAX as int);
        lemma_mul_nonnegative(a.mant as int, b.mant as int);
        assert(fl_num(*a) * fl_num(*b) == if a.neg != b.neg {
            -(a.mant as int * b.mant as int)
        } else {
            a.mant as int * b.mant as int
        }) by (nonlinear_arith)
            requires
                fl_num(*a) == if a.neg {
                    -(a.mant as int)
                } else {
                    a.mant as int
                },
                fl_num(*b) == if b.neg {
                    -(b.mant as int)
                } else {
                    b.mant as int
                },
        ;
        lemma_make_int_mag(a.neg != b.neg, (a.mant * b.mant) as nat, (a.scale + b.scale) as nat);
    }
    fl_make_exec(a.neg != b.neg, a.mant as u128 * b.mant as u128, a.scale + b.scale)
}

/// The quotient, to `SCALE_MAX` fractional digits, truncated toward zero.
pub fn fl_div(a: &Fl, b: &Fl) -> (r: Fl)
    requires
        fl_wf(*a),
        fl_wf(*b),
    ensures
        r == spec_fl_div(*a, *b),
        fl_wf(r),
{
    if b.mant == 0 {
        if a.mant == 0 {
            Fl { neg: false, mant: 0, scale: 0 }
        } else {
            Fl { neg: a.neg != b.neg, mant: MANT_MAX, scale: 0 }
        }
    } else {
        proof {
            lemma_pow10_8();
        }
        let pn = pow10_wide(b.scale + SCALE_MAX);
        let pd = pow10_u64(a.scale);
        proof {
            lemma_mul_upper_bound(a.mant as int, MANT_MAX as int, pn as int, 10000000000000000);
            lemma_mul_upper_bound(b.mant as int, MANT_MAX as int, pd as int, 100000000);
            lemma_mul_strictly_positive(b.mant as int, pd as int);
        }
        let num: u128 = a.mant as u128 * pn as u128;
        let den: u128 = b.mant as u128 * pd as u128;
        fl_make_exec(a.neg != b.neg, num / den, SCALE_MAX)
    }
}

proof fn lemma_pow10_add(a: nat, b: nat)
    ensures
        pow10(a + b) == pow10(a) * pow10(b),
    decreases a,
{
    if a == 0 {
        assert(pow10(b) == 1 * pow10(b)) by {
            lemma_mul_basics(pow10(b) as int);
        }
    } else {
        lemma_pow10_add((a - 1) as nat, b);
        assert((10 * pow10((a - 1) as nat)) * pow10(b) == 10 * (pow10((a - 1) as nat) * pow10(b)))
            by {
            lemma_mul_is_associative(10, pow10((a - 1) as nat) as int, pow10(b) as int);
        }
    }
}

/// The signed numerators of `a` and `b`, both brought to the common scale,
/// each differ from the cross-scaled numerators the comparison specs use by
/// the same positive factor `10^min(scale)`.
proof fn lemma_aligned(a: Fl, b: Fl, ma: int, mb: int, p: int)
    requires
        a.scale >= b.scale ==> ma == a.mant as int && mb == b.mant * pow10(
            (a.scale - b.scale) as nat,
        ) && p == pow10(b.scale as nat),
        a.scale < b.scale ==> ma == a.mant * pow10((b.scale - a.scale) as nat) && mb == b.mant
            as int && p == pow10(a.scale as nat),
    ensures
        p >= 1,
        ma >= 0,
        mb >= 0,
        a.mant > 0 ==> ma > 0,
        b.mant > 0 ==> mb > 0,
        fl_num(a) * pow10(b.scale as nat) == (if a.neg {
            -ma
        } else {
            ma
        }) * p,
        fl_num(b) * pow10(a.scale as nat) == (if b.neg {
            -mb
        } else {
            mb
        }) * p,
{
    lemma_pow10_pos(a.scale as nat);
    lemma_pow10_pos(b.scale as nat);
    if a.scale >= b.scale {
        let d = (a.scale - b.scale) as nat;
        lemma_pow10_pos(d);
        lemma_pow10_add(d, b.scale as nat);
        lemma_mul_strictly_positive(b.mant as int, pow10(d) as int);
        lemma_mul_nonnegative(b.mant as int, pow10(d) as int);
        assert(fl_num(b) * pow10(a.scale as nat) == (fl_num(b) * pow10(d)) * p) by {
            lemma_mul_is_associative(fl_num(b), pow10(d) as int, p);
        }
        lemma_signed_mag(b.neg, b.mant as int, pow10(d) as int);
        lemma_mul_unary_negation(b.mant * pow10(d), p);
    } else {
        let d = (b.scale - a.scale) as nat;
        lemma_pow10_pos(d);
        lemma_pow10_add(d, a.scale as nat);
        lemma_mul_strictly_positive(a.mant as int, pow10(d) as int);
        lemma_mul_nonnegative(a.mant as int, pow10(d) as int);
        assert(fl_num(a) * pow10(b.scale as nat) == (fl_num(a) * pow10(d)) * p) by {
            lemma_mul_is_associative(fl_num(a), pow10(d) as int, p);
        }
        lemma_signed_mag(a.neg, a.mant as int, pow10(d) as int);
        lemma_mul_unary_negation(a.mant * pow10(d), p);
    }
}

/// `a < b` as numbers.
pub fn fl_lt(a: &Fl, b: &Fl) -> (r: bool)
    requires
        fl_wf(*a),
        fl_wf(*b),
    ensures
        r == spec_fl_lt(*a, *b),
{
    let (ma, mb, _s) = fl_align(a, b);
    let r = if a.neg != b.neg {
        a.neg
    } else if a.neg {
        mb < ma
    } else {
        ma < mb
    };
    proof {
        let p = if a.scale >= b.scale {
            pow10(b.scale as nat) as int
        } else {
            pow10(a.scale as nat) as int
        };
        lemma_aligned(*a, *b, ma as int, mb as int, p);
        let x: int = if a.neg {
            -(ma as int)
        } else {
            ma as int
        };
        let y: int = if b.neg {
            -(mb as int)
        } else {
            mb as int
        };
        if x < y {
            lemma_mul_strict_inequality(x, y, p);
        }
        if x * p < y * p {
            lemma_mul_strict_inequality_converse(x, y, p);
        }
    }
    r
}

/// `a == b` as numbers.
pub fn fl_eq(a: &Fl, b: &Fl) -> (r: bool)
    requires
        fl_wf(*a),
        fl_wf(*b),
    ensures
        r == spec_fl_eq(*a, *b),
{
    let (ma, mb, _s) = fl_align(a, b);
    let r = a.neg == b.neg && ma == mb;
    proof {
        let p = if a.scale >= b.scale {
            pow10(b.scale as nat) as int
        } else {
            pow10(a.scale as nat) as int
        };
        lemma_aligned(*a, *b, ma as int, mb as int, p);
        let x: int = if a.neg {
            -(ma as int)
        } else {
            ma as int
        };
        let y: int = if b.neg {
            -(mb as int)
        } else {
            mb as int
        };
        assert(p * x == x * p) by {
            lemma_mul_is_commutative(p, x);
        }
        assert(p * y == y * p) by {
            lemma_mul_is_commutative(p, y);
        }
        if x * p == y * p {
            lemma_mul_equality_converse(p, x, y);
        }
    }
    r
}

/// The float standing for the integer `i`.
pub fn int_to_fl(i: i64) -> (r: Fl)
    ensures
        r == spec_int_to_fl(i),
        fl_wf(r),
{
    let neg = i < 0;
    let mag: u64 = if i == i64::MIN {
        9223372036854775808
    } else if i < 0 {
        (-i) as u64
    } else {
        i as u64
    };
    fl_make_exec(neg, mag as u128, 0)
}

/// `f` truncated toward zero.
pub fn fl_trunc(f: &Fl) -> (r: i64)
    requires
        fl_wf(*f),
    ensures
        r as int == spec_fl_trunc(*f),
{
    let p = pow10_u64(f.scale);
    let q = f.mant / p;
    proof {
        lemma_div_nonincreasing(f.mant as int, p as int);
        lemma_div_pos_is_pos(f.mant as int, p as int);
    }
    if f.neg {
        -(q as i64)
    } else {
        q as i64
    }
}

/// The digit character for `d`.
pub open spec fn digit_char(d: nat) -> char {
    if d == 0 {
        '0'
    } else if d == 1 {
        '1'
    } else if d == 2 {
        '2'
    } else if d == 3 {
        '3'
    } else if d == 4 {
        '4'
    } else if d == 5 {
        '5'
    } else if d == 6 {
        '6'
    } else if d == 7 {
        '7'
    } else if d == 8 {
        '8'
    } else {
        '9'
    }
}

/// The decimal digits of `n`, most significant first.
pub open spec fn dec_digits(n: nat) -> Seq<char>
    decreases n,
{
    if n < 10 {
        seq![digit_char(n)]
    } else {
        dec_digits(n / 10).push(digit_char(n % 10))
    }
}

/// `n` zero characters.
pub open spec fn zero_chars(n: nat) -> Seq<char>
    decreases n,
{
    if n == 0 {
        Seq::empty()
    } else {
        zero_chars((n - 1) as nat).push('0')
    }
}

/// The written form of the integer `i`.
pub open spec fn spec_int_chars(i: int) -> Seq<char> {
    if i < 0 {
        seq!['-'] + dec_digits((-i) as nat)
    } else {
        dec_digits(i as nat)
    }
}

/// The written form of a canonical float: the digits of the magnitude with
/// a point before the last `scale` of them, zero-padded when the magnitude
/// is short; a whole number is written without a point.
pub open spec fn spec_fl_chars(f: Fl) -> Seq<char> {
    let sign: Seq<char> = if f.neg {
        seq!['-']
    } else {
        Seq::empty()
    };
    let ds = dec_digits(f.mant as nat);
    if f.scale == 0 {
        sign + ds
    } else if ds.len() > f.scale {
        sign + ds.take(ds.len() - f.scale) + seq!['.'] + ds.skip(ds.len() - f.scale)
    } else {
        sign + seq!['0', '.'] + zero_chars((f.scale - ds.len()) as nat) + ds
    }
}

/// Append the digit character for `d`.
pub fn push_digit(d: u64, out: &mut Vec<char>)
    requires
        d < 10,
    ensures
        final(out)@ == old(out)@.push(digit_char(d as nat)),
{
    let c: char = if d == 0 {
        '0'
    } else if d == 1 {
        '1'
    } else if d == 2 {
        '2'
    } else if d == 3 {
        '3'
    } else if d == 4 {
        '4'
    } else if d == 5 {
        '5'
    } else if d == 6 {
        '6'
    } else if d == 7 {
        '7'
    } else if d == 8 {
        '8'
    } else {
        '9'
    };
    out.push(c);
}

/// Append the decimal digits of `n`.
pub fn push_u64_chars(n: u64, out: &mut Vec<char>)
    ensures
        final(out)@ == old(out)@ + dec_digits(n as nat),
    decreases n,
{
    if n < 10 {
        push_digit(n, out);
        assert(out@ =~= old(out)@ + dec_digits(n as nat));
    } else {
        push_u64_chars(n / 10, out);
        push_digit(n % 10, out);
        assert(out@ =~= old(out)@ + dec_digits(n as nat));
    }
}

/// Append the written form of the integer `i`.
pub fn push_i64_chars(i: i64, out: &mut Vec<char>)
    ensures
        final(out)@ == old(out)@ + spec_int_chars(i as int),
{
    if i < 0 {
        out.push('-');
        let mag: u64 = if i == i64::MIN {
            9223372036854775808
        } else {
            (-i) as u64
        };
        push_u64_chars(mag, out);
        assert(out@ =~= old(out)@ + spec_int_chars(i as int));
    } else {
        push_u64_chars(i as u64, out);
    }
}

/// Append the written form of the float `f`.
pub fn fl_push_chars(f: &Fl, out: &mut Vec<char>)
    requires
        fl_wf(*f),
    ensures
        final(out)@ == old(out)@ + spec_fl_chars(*f),
{
    if f.neg {
        out.push('-');
    }
    if f.scale == 0 {
        push_u64_chars(f.mant, out);
        assert(out@ =~= old(out)@ + spec_fl_chars(*f));
    } else {
        let mut ds: Vec<char> = Vec::new();
        push_u64_chars(f.mant, &mut ds);
        assert(ds@ =~= dec_digits(f.mant as nat));
        if ds.len() > f.scale as usize {
            let cut = ds.len() - f.scale as usize;
            let mut i: usize = 0;
            while i < cut
                invariant
                    i <= cut <= ds.len(),
                    ds@ == dec_digits(f.mant as nat),
                    out@ == old(out)@ + (if f.neg {
                        seq!['-']
                    } else {
                        Seq::<char>::empty()
                    }) + ds@.take(i as int),
                decreases cut - i,
            {
                let c = ds[i];
                out.push(c);
                assert(ds@.take(i + 1) =~= ds@.take(i as int).push(c));
                i = i + 1;
            }
            out.push('.');
            let mut j: usize = cut;
            while j < ds.len()
                invariant
                    cut <= j <= ds.len(),
                    ds@ == dec_digits(f.mant as nat),
                    out@ == old(out)@ + (if f.neg {
                        seq!['-']
                    } else {
                        Seq::<char>::empty()
                    }) + ds@.take(cut as int) + seq!['.'] + ds@.subrange(cut as int, j as int),
                decreases ds.len() - j,
            {
                let c = ds[j];
                out.push(c);
                assert(ds@.subrange(cut as int, j + 1) =~= ds@.subrange(cut as int, j as int).push(
                    c,
                ));
                j = j + 1;
            }
            assert(ds@.subrange(cut as int, ds@.len() as int) =~= ds@.skip(cut as int));
            assert(out@ =~= old(out)@ + spec_fl_chars(*f));
        } else {
            out.push('0');
            out.push('.');
            let pad = f.scale as usize - ds.len();
            let mut k: usize = 0;
            while k < pad
                invariant
                    k <= pad,
                    ds@ == dec_digits(f.mant as nat),
                    out@ == old(out)@ + (if f.neg {
                        seq!['-']
                    } else {
                        Seq::<char>::empty()
                    }) + seq!['0', '.'] + zero_chars(k as nat),
                decreases pad - k,
            {
                out.push('0');
                k = k + 1;
            }
            let mut j: usize = 0;
            while j < ds.len()
                invariant
                    j <= ds.len(),
                    ds@ == dec_digits(f.mant as nat),
                    out@ == old(out)@ + (if f.neg {
                        seq!['-']
                    } else {
                        Seq::<char>::empty()
                    }) + seq!['0', '.'] + zero_chars(pad as nat) + ds@.take(j as int),
                decreases ds.len() - j,
            {
                let c = ds[j];
                out.push(c);
                assert(ds@.take(j + 1) =~= ds@.take(j as int).push(c));
                j = j + 1;
            }
            assert(out@ =~= old(out)@ + spec_fl_chars(*f));
        }
    }
}

/// Append the decimal digits of a wide machine word.
pub fn push_u128_chars(n: u128, out: &mut Vec<char>)
    ensures
        final(out)@ == old(out)@ + dec_digits(n as nat),
    decreases n,
{
    if n < 10 {
        push_digit(n as u64, out);
        assert(out@ =~= old(out)@ + dec_digits(n as nat));
    } else {
        push_u128_chars(n / 10, out);
        push_digit((n % 10) as u64, out);
        assert(out@ =~= old(out)@ + dec_digits(n as nat));
    }
}

} // verus!
