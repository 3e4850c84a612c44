//! Exact rational numbers backing the language's numeric values.
//!
//! A numeric value is kept as a fraction of two machine integers instead of a
//! machine float: every arithmetic result the language needs (sums, products,
//! quotients of decimal literals) is then exact, the "has zero fractional
//! part" test is a divisibility test, and the 0.1 equality tolerance is a
//! cross-multiplication, all of which can be verified.

use vstd::arithmetic::div_mod::{lemma_div_nonincreasing, lemma_fundamental_div_mod};
use vstd::math::abs;
use vstd::prelude::*;

verus! {

/// Largest magnitude allowed for a numerator, and largest denominator
/// (2^61). With both factors bounded by it, every cross-multiplication,
/// difference of cross-products, and tolerance scaling by 10 stays within
/// `i128`.
pub const NUM_BOUND: i64 = 0x2000_0000_0000_0000;

/// Bound on a single cross-product of `NUM_BOUND`-sized factors (2^122).
pub const PROD_BOUND: i128 = 0x0400_0000_0000_0000_0000_0000_0000_0000;

/// Bound on the intermediate numerators and denominators handed to
/// normalisation (2^123): products and two-product sums of `NUM_BOUND`-sized
/// factors stay under it.
pub const RAW_BOUND: i128 = 0x0800_0000_0000_0000_0000_0000_0000_0000;

/// A rational number `n / d`.
#[derive(Debug, Clone, Copy, PartialEq, Eq, Structural)]
pub struct Num {
    /// Numerator.
    pub n: i64,
    /// Denominator; always positive.
    pub d: i64,
}

/// Well-formedness: the denominator is positive and both components are
/// small enough that cross-products fit comfortably in `i128`.
pub open spec fn num_wf(a: Num) -> bool {
    &&& 1 <= a.d <= NUM_BOUND
    &&& -NUM_BOUND <= a.n <= NUM_BOUND
}

/// The value has zero fractional part.
pub open spec fn spec_num_is_integer(a: Num) -> bool {
    (abs(a.n as int) as int) % (a.d as int) == 0
}

/// Greatest common divisor by Euclid's algorithm.
pub open spec fn spec_gcd(a: nat, b: nat) -> nat
    decreases b,
{
    if b == 0 {
        a
    } else {
        spec_gcd(b, a % b)
    }
}

/// Divides numerator and denominator by their greatest common divisor when
/// that division is exact, otherwise leaves them untouched.
pub open spec fn spec_reduce(n: int, d: int) -> (int, int)
    recommends
        1 <= d,
{
    let a = abs(n) as int;
    let g = spec_gcd(a as nat, d as nat) as int;
    if g != 0 && a % g == 0 && d % g == 0 {
        if n < 0 {
            (-(a / g), d / g)
        } else {
            (a / g, d / g)
        }
    } else {
        (n, d)
    }
}

/// Reduces a raw fraction and accepts it only when the reduced form fits the
/// well-formedness bounds; an overflowing result yields no value.
pub open spec fn spec_norm(n: int, d: int) -> Option<Num>
    recommends
        1 <= d,
{
    let r = spec_reduce(n, d);
    if -NUM_BOUND <= r.0 <= NUM_BOUND && 1 <= r.1 <= NUM_BOUND {
        Some(Num { n: r.0 as i64, d: r.1 as i64 })
    } else {
        None
    }
}

/// Exact sum.
pub open spec fn spec_num_add(a: Num, b: Num) -> Option<Num> {
    spec_norm(a.n * b.d + b.n * a.d, a.d * b.d)
}

/// Exact difference.
pub open spec fn spec_num_sub(a: Num, b: Num) -> Option<Num> {
    spec_norm(a.n * b.d - b.n * a.d, a.d * b.d)
}

/// Exact product.
pub open spec fn spec_num_mul(a: Num, b: Num) -> Option<Num> {
    spec_norm(a.n * b.n, a.d * b.d)
}

/// Exact quotient; division by zero yields no value.
pub open spec fn spec_num_div(a: Num, b: Num) -> Option<Num> {
    if b.n == 0 {
        None
    } else if b.n < 0 {
        spec_norm(-(a.n * b.d), a.d * -b.n)
    } else {
        spec_norm(a.n * b.d, a.d * b.n)
    }
}

/// Strictly less, by cross-multiplication (denominators are positive).
pub open spec fn spec_num_lt(a: Num, b: Num) -> bool {
    a.n * b.d < b.n * a.d
}

/// Less or equal, by cross-multiplication.
pub open spec fn spec_num_le(a: Num, b: Num) -> bool {
    a.n * b.d <= b.n * a.d
}

/// Exact equality of the two rational values.
pub open spec fn spec_num_eq_exact(a: Num, b: Num) -> bool {
    a.n * b.d == b.n * a.d
}

/// Equality up to the language's absolute tolerance: |a - b| < 1/10.
pub open spec fn spec_num_eq_tol(a: Num, b: Num) -> bool {
    10 * abs(a.n * b.d - b.n * a.d) < a.d * b.d
}

impl Num {
    /// The rational zero.
    pub fn zero() -> (r: Num)
        ensures
            r == (Num { n: 0, d: 1 }),
            num_wf(r),
    {
        Num { n: 0, d: 1 }
    }

    /// Whether the value has zero fractional part.
    pub fn is_integer(&self) -> (r: bool)
        requires
            num_wf(*self),
        ensures
            r == spec_num_is_integer(*self),
    {
        let a: u64 = if self.n < 0 {
            (-(self.n as i128)) as u64
        } else {
            self.n as u64
        };
        a % (self.d as u64) == 0
    }
}

/// A product of `NUM_BOUND`-bounded factors stays strictly inside
/// `PROD_BOUND`.
proof fn lemma_mul_bound_wide(x: int, y: int) by (nonlinear_arith)
    requires
        -0x2000_0000_0000_0000 <= x <= 0x2000_0000_0000_0000,
        -0x2000_0000_0000_0000 <= y <= 0x2000_0000_0000_0000,
    ensures
        -0x0400_0000_0000_0000_0000_0000_0000_0000 <= x * y,
        x * y <= 0x0400_0000_0000_0000_0000_0000_0000_0000,
{
}

/// Negation moves across a product.
proof fn lemma_mul_neg(x: int, y: int) by (nonlinear_arith)
    ensures
        -(x * y) == x * (-y),
{
}

/// A product of positive factors is positive.
proof fn lemma_mul_positive(x: int, y: int) by (nonlinear_arith)
    requires
        1 <= x,
        1 <= y,
    ensures
        1 <= x * y,
{
}

/// When numerator and denominator are exact multiples of `g`, dividing both
/// by `g` keeps the rational value, in either sign, and keeps the
/// denominator positive.
proof fn lemma_reduce_cross(a: int, d: int, g: int, aq: int, dq: int) by (nonlinear_arith)
    requires
        a == g * aq,
        d == g * dq,
        1 <= g,
        1 <= d,
        0 <= a,
    ensures
        aq * d == a * dq,
        (-aq) * d == (-a) * dq,
        1 <= dq,
{
}

/// Product of two `NUM_BOUND`-bounded factors, computed in `i128`.
fn mul_wide(x: i64, y: i64) -> (r: i128)
    requires
        -NUM_BOUND <= x <= NUM_BOUND,
        -NUM_BOUND <= y <= NUM_BOUND,
    ensures
        r == x * y,
        -PROD_BOUND <= r <= PROD_BOUND,
{
    proof {
        lemma_mul_bound_wide(x as int, y as int);
    }
    (x as i128) * (y as i128)
}

/// Euclid's algorithm on machine words.
fn gcd_wide(a: u128, b: u128) -> (g: u128)
    ensures
        g as nat == spec_gcd(a as nat, b as nat),
{
    let mut x = a;
    let mut y = b;
    while y != 0
        invariant
            spec_gcd(x as nat, y as nat) == spec_gcd(a as nat, b as nat),
        decreases y,
    {
        let r = x % y;
        x = y;
        y = r;
    }
    x
}

/// Normalises a raw fraction: reduces it and checks the well-formedness
/// bounds, yielding `None` when the exact value cannot be represented.
fn norm_raw(num: i128, den: i128) -> (r: Option<Num>)
    requires
        1 <= den <= RAW_BOUND,
        -RAW_BOUND <= num <= RAW_BOUND,
    ensures
        r == spec_norm(num as int, den as int),
{
    let a: u128 = if num < 0 {
        (-num) as u128
    } else {
        num as u128
    };
    let g = gcd_wide(a, den as u128);
    let (rn, rd): (i128, i128) = if g != 0 && a % g == 0 && (den as u128) % g == 0 {
        proof {
            lemma_div_nonincreasing(a as int, g as int);
            lemma_div_nonincreasing(den as int, g as int);
            lemma_fundamental_div_mod(den as int, g as int);
        }
        let q = a / g;
        let dq = den as u128 / g;
        if num < 0 {
            (-(q as i128), dq as i128)
        } else {
            (q as i128, dq as i128)
        }
    } else {
        (num, den)
    };
    if -NUM_BOUND as i128 <= rn && rn <= NUM_BOUND as i128 && 1 <= rd && rd <= NUM_BOUND as i128 {
        Some(Num { n: rn as i64, d: rd as i64 })
    } else {
        None
    }
}

/// Adds two well-formed rationals; `None` when the exact result does not fit.
pub fn num_add(a: Num, b: Num) -> (r: Option<Num>)
    requires
        num_wf(a),
        num_wf(b),
    ensures
        r == spec_num_add(a, b),
{
    let p1 = mul_wide(a.n, b.d);
    let p2 = mul_wide(b.n, a.d);
    let den = mul_wide(a.d, b.d);
    proof {
        lemma_mul_positive(a.d as int, b.d as int);
    }
    norm_raw(p1 + p2, den)
}

/// Subtracts two well-formed rationals.
pub fn num_sub(a: Num, b: Num) -> (r: Option<Num>)
    requires
        num_wf(a),
        num_wf(b),
    ensures
        r == spec_num_sub(a, b),
{
    let p1 = mul_wide(a.n, b.d);
    let p2 = mul_wide(b.n, a.d);
    let den = mul_wide(a.d, b.d);
    proof {
        lemma_mul_positive(a.d as int, b.d as int);
    }
    norm_raw(p1 - p2, den)
}

/// Multiplies two well-formed rationals.
pub fn num_mul(a: Num, b: Num) -> (r: Option<Num>)
    requires
        num_wf(a),
        num_wf(b),
    ensures
        r == spec_num_mul(a, b),
{
    let p = mul_wide(a.n, b.n);
    let den = mul_wide(a.d, b.d);
    proof {
        lemma_mul_positive(a.d as int, b.d as int);
    }
    norm_raw(p, den)
}

/// Divides two well-formed rationals; `None` on division by zero.
pub fn num_div(a: Num, b: Num) -> (r: Option<Num>)
    requires
        num_wf(a),
        num_wf(b),
    ensures
        r == spec_num_div(a, b),
{
    if b.n == 0 {
        None
    } else {
        let p = mul_wide(a.n, b.d);
        let den = mul_wide(a.d, b.n);
        if b.n < 0 {
            proof {
                lemma_mul_positive(a.d as int, -(b.n as int));
                lemma_mul_neg(a.d as int, b.n as int);
            }
            norm_raw(-p, -den)
        } else {
            proof {
                lemma_mul_positive(a.d as int, b.n as int);
            }
            norm_raw(p, den)
        }
    }
}

/// Strict less-than on well-formed rationals.
pub fn num_lt(a: Num, b: Num) -> (r: bool)
    requires
        num_wf(a),
        num_wf(b),
    ensures
        r == spec_num_lt(a, b),
{
    mul_wide(a.n, b.d) < mul_wide(b.n, a.d)
}

/// Less-or-equal on well-formed rationals.
pub fn num_le(a: Num, b: Num) -> (r: bool)
    requires
        num_wf(a),
        num_wf(b),
    ensures
        r == spec_num_le(a, b),
{
    mul_wide(a.n, b.d) <= mul_wide(b.n, a.d)
}

/// Exact equality on well-formed rationals.
pub fn num_eq_exact(a: Num, b: Num) -> (r: bool)
    requires
        num_wf(a),
        num_wf(b),
    ensures
        r == spec_num_eq_exact(a, b),
{
    mul_wide(a.n, b.d) == mul_wide(b.n, a.d)
}

/// Equality up to the absolute tolerance of 1/10.
pub fn num_eq_tol(a: Num, b: Num) -> (r: bool)
    requires
        num_wf(a),
        num_wf(b),
    ensures
        r == spec_num_eq_tol(a, b),
{
    let diff = mul_wide(a.n, b.d) - mul_wide(b.n, a.d);
    let ad = if diff < 0 {
        -diff
    } else {
        diff
    };
    let den = mul_wide(a.d, b.d);
    10 * ad < den
}

/// Normalisation never changes the rational value: the reduced numerator and
/// denominator cross-multiply back to the raw ones.
pub proof fn lemma_norm_preserves_value(n: int, d: int)
    requires
        1 <= d,
    ensures
        spec_norm(n, d) matches Some(r) ==> r.n * d == n * r.d && 1 <= r.d,
{
    let a = abs(n) as int;
    let g = spec_gcd(a as nat, d as nat) as int;
    if g != 0 && a % g == 0 && d % g == 0 {
        lemma_fundamental_div_mod(a, g);
        lemma_fundamental_div_mod(d, g);
        assert(a == g * (a / g));
        assert(d == g * (d / g));
        lemma_reduce_cross(a, d, g, a / g, d / g);
    }
}

/// The decimal digit character for `x` (0 through 9).
pub open spec fn spec_digit_char(x: nat) -> char
    recommends
        x < 10,
{
    ((48 + x) as u8) as char
}

/// Decimal digits of `q`, most significant first; empty for zero.
pub open spec fn spec_nat_digits(q: nat) -> Seq<char>
    decreases q,
{
    if q == 0 {
        Seq::empty()
    } else {
        spec_nat_digits(q / 10) + seq![spec_digit_char(q % 10)]
    }
}

/// Fractional digits of `r / d` by decimal long division, at most `k` of
/// them, stopping early when the remainder reaches zero.
pub open spec fn spec_frac_digits(r: nat, d: nat, k: nat) -> Seq<char>
    recommends
        1 <= d,
    decreases k,
{
    if k == 0 || r == 0 {
        Seq::empty()
    } else {
        seq![spec_digit_char(r * 10 / d)] + spec_frac_digits(r * 10 % d, d, (k - 1) as nat)
    }
}

/// Textual form of a numeric value. An integer-flagged value prints its
/// truncated whole part; otherwise the whole part is followed, when the
/// value has a fractional part, by a point and up to nine division digits.
pub open spec fn spec_num_text(v: Num, entero: bool) -> Seq<char>
    recommends
        num_wf(v),
{
    let a = abs(v.n as int);
    let d = v.d as nat;
    let q = a / d;
    let r = a % d;
    if entero {
        if q == 0 {
            "0"@
        } else if v.n < 0 {
            "-"@ + spec_nat_digits(q)
        } else {
            spec_nat_digits(q)
        }
    } else {
        let ip = if q == 0 {
            "0"@
        } else {
            spec_nat_digits(q)
        };
        let frac = spec_frac_digits(r, d, 9);
        let body = if frac.len() == 0 {
            ip
        } else {
            ip + "."@ + frac
        };
        if v.n < 0 {
            "-"@ + body
        } else {
            body
        }
    }
}

/// The one-character string for decimal digit `x`.
fn digit_str(x: u128) -> (r: &'static str)
    requires
        x < 10,
    ensures
        r@ == seq![spec_digit_char(x as nat)],
{
    proof {
        reveal_strlit("0");
        reveal_strlit("1");
        reveal_strlit("2");
        reveal_strlit("3");
        reveal_strlit("4");
        reveal_strlit("5");
        reveal_strlit("6");
        reveal_strlit("7");
        reveal_strlit("8");
        reveal_strlit("9");
    }
    if x == 0 {
        proof {
            assert("0"@ =~= seq![spec_digit_char(x as nat)]);
        }
        "0"
    } else if x == 1 {
        proof {
            assert("1"@ =~= seq![spec_digit_char(x as nat)]);
        }
        "1"
    } else if x == 2 {
        proof {
            assert("2"@ =~= seq![spec_digit_char(x as nat)]);
        }
        "2"
    } else if x == 3 {
        proof {
            assert("3"@ =~= seq![spec_digit_char(x as nat)]);
        }
        "3"
    } else if x == 4 {
        proof {
            assert("4"@ =~= seq![spec_digit_char(x as nat)]);
        }
        "4"
    } else if x == 5 {
        proof {
            assert("5"@ =~= seq![spec_digit_char(x as nat)]);
        }
        "5"
    } else if x == 6 {
        proof {
            assert("6"@ =~= seq![spec_digit_char(x as nat)]);
        }
        "6"
    } else if x == 7 {
        proof {
            assert("7"@ =~= seq![spec_digit_char(x as nat)]);
        }
        "7"
    } else if x == 8 {
        proof {
            assert("8"@ =~= seq![spec_digit_char(x as nat)]);
        }
        "8"
    } else {
        proof {
            assert("9"@ =~= seq![spec_digit_char(x as nat)]);
        }
        "9"
    }
}

/// Digit characters of a least-significant-first digit list, read back most
/// significant first.
spec fn digits_chars_rev(ds: Seq<u128>) -> Seq<char>
    decreases ds.len(),
{
    if ds.len() == 0 {
        Seq::empty()
    } else {
        seq![spec_digit_char(ds.last() as nat)] + digits_chars_rev(ds.drop_last())
    }
}

/// The decimal digit string of `q`; empty when `q` is zero.
pub(crate) fn nat_digits_string(q0: u128) -> (s: String)
    ensures
        s@ == spec_nat_digits(q0 as nat),
{
    let mut digs: Vec<u128> = Vec::new();
    let mut q = q0;
    proof {
        assert(spec_nat_digits(q0 as nat) + digits_chars_rev(digs@) =~= spec_nat_digits(
            q0 as nat,
        ));
    }
    while q != 0
        invariant
            spec_nat_digits(q0 as nat) == spec_nat_digits(q as nat) + digits_chars_rev(digs@),
            forall|i: int| 0 <= i < digs@.len() ==> digs@[i] < 10,
        decreases q,
    {
        let dig = q % 10;
        let ghost pre = digs@;
        digs.push(dig);
        q = q / 10;
        proof {
            assert(digs@.drop_last() =~= pre);
            assert(spec_nat_digits(q0 as nat) =~= spec_nat_digits(q as nat) + digits_chars_rev(
                digs@,
            ));
        }
    }
    let mut s = String::new();
    let mut i: usize = 0;
    proof {
        assert(digs@.take(0) =~= Seq::<u128>::empty());
    }
    while i < digs.len()
        invariant
            i <= digs@.len(),
            forall|k: int| 0 <= k < digs@.len() ==> digs@[k] < 10,
            s@ == digits_chars_rev(digs@.take(i as int)),
            spec_nat_digits(q0 as nat) == digits_chars_rev(digs@),
        decreases digs@.len() - i,
    {
        let pre = digit_str(digs[i]);
        let mut ns = String::from_str(pre);
        ns.append(s.as_str());
        s = ns;
        i = i + 1;
        proof {
            assert(digs@.take(i as int).drop_last() =~= digs@.take(i as int - 1));
            assert(s@ =~= digits_chars_rev(digs@.take(i as int)));
        }
    }
    proof {
        assert(digs@.take(digs@.len() as int) =~= digs@);
    }
    s
}

/// The fractional digit string of `r / d`, at most nine digits.
fn frac_digits_string(r0: u128, d: u128) -> (s: String)
    requires
        1 <= d,
        r0 < d,
        d <= NUM_BOUND as u128,
    ensures
        s@ == spec_frac_digits(r0 as nat, d as nat, 9),
{
    let mut s = String::new();
    let mut r = r0;
    let mut k: usize = 0;
    proof {
        assert(Seq::<char>::empty() + spec_frac_digits(r0 as nat, d as nat, 9) =~= spec_frac_digits(
            r0 as nat,
            d as nat,
            9,
        ));
    }
    while k < 9 && r != 0
        invariant
            k <= 9,
            r < d,
            1 <= d <= NUM_BOUND as u128,
            spec_frac_digits(r0 as nat, d as nat, 9) == s@ + spec_frac_digits(
                r as nat,
                d as nat,
                (9 - k) as nat,
            ),
        decreases 9 - k,
    {
        proof {
            vstd::arithmetic::div_mod::lemma_multiply_divide_lt(
                (r * 10) as int,
                d as int,
                10,
            );
        }
        let dig = r * 10 / d;
        s.append(digit_str(dig));
        r = r * 10 % d;
        k = k + 1;
        proof {
            assert(spec_frac_digits(r0 as nat, d as nat, 9) =~= s@ + spec_frac_digits(
                r as nat,
                d as nat,
                (9 - k) as nat,
            ));
        }
    }
    proof {
        assert(spec_frac_digits(r0 as nat, d as nat, 9) =~= s@);
    }
    s
}

/// Renders a numeric value as text, as `spec_num_text` describes.
pub fn num_text(v: Num, entero: bool) -> (s: String)
    requires
        num_wf(v),
    ensures
        s@ == spec_num_text(v, entero),
{
    let a: u128 = if v.n < 0 {
        (-(v.n as i128)) as u128
    } else {
        v.n as u128
    };
    let d: u128 = v.d as u128;
    let q = a / d;
    let r = a % d;
    if entero {
        if q == 0 {
            String::from_str("0")
        } else if v.n < 0 {
            let ds = nat_digits_string(q);
            let mut s = String::from_str("-");
            s.append(ds.as_str());
            s
        } else {
            nat_digits_string(q)
        }
    } else {
        let ip = if q == 0 {
            String::from_str("0")
        } else {
            nat_digits_string(q)
        };
        let frac = frac_digits_string(r, d);
        let body = if r == 0 {
            ip
        } else {
            let mut t = ip;
            t.append(".");
            t.append(frac.as_str());
            t
        };
        if v.n < 0 {
            let mut s = String::from_str("-");
            s.append(body.as_str());
            s
        } else {
            body
        }
    }
}

} // verus!
