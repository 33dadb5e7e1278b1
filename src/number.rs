//! Exact rational numbers: the numeric domain of the language.
//!
//! A number is a fraction `num / den` with a positive denominator, kept in
//! lowest terms. Both parts are bounded by `i64::MAX` in absolute value; an
//! arithmetic result that does not fit is reported as `None` by the
//! operations here and turned into a runtime error by the evaluator.
use vstd::prelude::*;

use crate::text::{digit, digit_char, digits_of, push_char, push_digits};

verus! {

/// The largest magnitude of a numerator or denominator.
pub const LIMIT: i64 = 0x7fff_ffff_ffff_ffff;

/// How many digits after the decimal point a non-integral number shows.
pub const FRACTION_DIGITS: u64 = 16;

/// Whether an integer fits as a numerator.
pub open spec fn fits(v: int) -> bool {
    -(LIMIT as int) <= v <= LIMIT as int
}

pub open spec fn abs(v: int) -> nat {
    if v < 0 {
        (-v) as nat
    } else {
        v as nat
    }
}

/// Greatest common divisor, by Euclid's algorithm.
pub open spec fn gcd(a: nat, b: nat) -> nat
    decreases b,
{
    if b == 0 {
        a
    } else {
        gcd(b, a % b)
    }
}

/// The fraction `n / d` (with `d > 0`) in lowest terms.
pub open spec fn canon(n: int, d: int) -> (int, int) {
    let g = gcd(abs(n), abs(d)) as int;
    if n < 0 {
        (-(abs(n) as int / g), d / g)
    } else {
        (n / g, d / g)
    }
}

/// The number for the fraction `n / d`, if its lowest terms fit.
pub open spec fn make(n: int, d: int) -> Option<Number> {
    let (p, q) = canon(n, d);
    if fits(p) && 0 < q <= LIMIT as int {
        Some(Number { num: p as i64, den: q as i64 })
    } else {
        None
    }
}

#[derive(Clone, Copy, Debug)]
pub struct Number {
    pub num: i64,
    pub den: i64,
}

impl Number {
    pub open spec fn wf(self) -> bool {
        &&& fits(self.num as int)
        &&& 0 < self.den <= LIMIT
    }

    /// The same rational value as the fraction `n / d`.
    pub open spec fn denotes(self, n: int, d: int) -> bool {
        self.num as int * d == n * self.den as int
    }

    pub open spec fn spec_eq(self, o: Number) -> bool {
        (self.num as int) * (o.den as int) == (o.num as int) * (self.den as int)
    }

    pub open spec fn spec_lt(self, o: Number) -> bool {
        (self.num as int) * (o.den as int) < (o.num as int) * (self.den as int)
    }

    pub open spec fn spec_add(self, o: Number) -> Option<Number> {
        make(self.num * o.den + o.num * self.den, self.den * o.den)
    }

    pub open spec fn spec_sub(self, o: Number) -> Option<Number> {
        make(self.num * o.den - o.num * self.den, self.den * o.den)
    }

    pub open spec fn spec_mul(self, o: Number) -> Option<Number> {
        make(self.num * o.num, self.den * o.den)
    }

    pub open spec fn spec_div(self, o: Number) -> Option<Number> {
        if o.num >= 0 {
            make(self.num * o.den, self.den * o.num)
        } else {
            make(-(self.num * o.den), self.den * (-o.num))
        }
    }

    pub open spec fn spec_neg(self) -> Number {
        Number { num: (-self.num) as i64, den: self.den }
    }

    pub open spec fn is_zero(self) -> bool {
        self.num == 0
    }

    /// The integer `v` as a number.
    pub fn from_int(v: i64) -> (r: Number)
        requires
            fits(v as int),
        ensures
            r.wf(),
            r.num == v,
            r.den == 1,
    {
        Number { num: v, den: 1 }
    }

    /// The number for the fraction `n / d`, or `None` where it does not fit.
    pub fn from_fraction(n: i128, d: i128) -> (r: Option<Number>)
        requires
            0 < d,
            d < 0x4000_0000_0000_0000_0000_0000_0000_0000,
            n > i128::MIN,
        ensures
            r == make(n as int, d as int),
            r matches Some(x) ==> x.wf() && x.denotes(n as int, d as int),
    {
        let an: u128 = if n < 0 {
            (-n) as u128
        } else {
            n as u128
        };
        let g = gcd_exec(an, d as u128);
        proof {
            lemma_gcd_divides(an as nat, d as nat);
        }
        let p: u128 = an / g;
        let q: u128 = d as u128 / g;
        proof {
            lemma_canon_denotes(n as int, d as int);
        }
        if p <= LIMIT as u128 && q <= LIMIT as u128 && q > 0 {
            let num: i64 = if n < 0 {
                -(p as i64)
            } else {
                p as i64
            };
            Some(Number { num, den: q as i64 })
        } else {
            None
        }
    }

    pub fn add(&self, o: &Number) -> (r: Option<Number>)
        requires
            self.wf(),
            o.wf(),
        ensures
            r == self.spec_add(*o),
            r matches Some(x) ==> x.wf(),
    {
        proof {
            lemma_products(self.num as int, o.den as int);
            lemma_products(o.num as int, self.den as int);
            lemma_products(self.den as int, o.den as int);
        }
        let n = (self.num as i128) * (o.den as i128) + o.num as i128 * self.den as i128;
        let d = self.den as i128 * o.den as i128;
        Number::from_fraction(n, d)
    }

    pub fn sub(&self, o: &Number) -> (r: Option<Number>)
        requires
            self.wf(),
            o.wf(),
        ensures
            r == self.spec_sub(*o),
            r matches Some(x) ==> x.wf(),
    {
        proof {
            lemma_products(self.num as int, o.den as int);
            lemma_products(o.num as int, self.den as int);
            lemma_products(self.den as int, o.den as int);
        }
        let n = self.num as i128 * o.den as i128 - o.num as i128 * self.den as i128;
        let d = self.den as i128 * o.den as i128;
        Number::from_fraction(n, d)
    }

    pub fn mul(&self, o: &Number) -> (r: Option<Number>)
        requires
            self.wf(),
            o.wf(),
        ensures
            r == self.spec_mul(*o),
            r matches Some(x) ==> x.wf(),
    {
        proof {
            lemma_products(self.num as int, o.num as int);
            lemma_products(self.den as int, o.den as int);
        }
        let n = self.num as i128 * o.num as i128;
        let d = self.den as i128 * o.den as i128;
        Number::from_fraction(n, d)
    }

    /// Division by a non-zero number.
    pub fn div(&self, o: &Number) -> (r: Option<Number>)
        requires
            self.wf(),
            o.wf(),
            !o.is_zero(),
        ensures
            r == self.spec_div(*o),
            r matches Some(x) ==> x.wf(),
    {
        proof {
            lemma_products(self.num as int, o.den as int);
            lemma_products(self.den as int, o.num as int);
            lemma_products(self.den as int, -o.num);
        }
        if o.num >= 0 {
            let n = self.num as i128 * o.den as i128;
            let d = self.den as i128 * o.num as i128;
            Number::from_fraction(n, d)
        } else {
            let n = -(self.num as i128 * o.den as i128);
            let d = self.den as i128 * (-(o.num as i128));
            Number::from_fraction(n, d)
        }
    }

    pub fn neg(&self) -> (r: Number)
        requires
            self.wf(),
        ensures
            r == self.spec_neg(),
            r.wf(),
    {
        Number { num: -self.num, den: self.den }
    }

    /// Equality of the rational values.
    pub fn equals(&self, o: &Number) -> (r: bool)
        requires
            self.wf(),
            o.wf(),
        ensures
            r == self.spec_eq(*o),
    {
        proof {
            lemma_products(self.num as int, o.den as int);
            lemma_products(o.num as int, self.den as int);
        }
        (self.num as i128) * (o.den as i128) == (o.num as i128) * (self.den as i128)
    }

    /// Strict order of the rational values.
    pub fn less(&self, o: &Number) -> (r: bool)
        requires
            self.wf(),
            o.wf(),
        ensures
            r == self.spec_lt(*o),
    {
        proof {
            lemma_products(self.num as int, o.den as int);
            lemma_products(o.num as int, self.den as int);
        }
        (self.num as i128) * (o.den as i128) < (o.num as i128) * (self.den as i128)
    }

    pub fn zero_test(&self) -> (r: bool)
        ensures
            r == self.is_zero(),
    {
        self.num == 0
    }
}

/// The first `k` decimal digits of the proper fraction `r / d`, stopping
/// early once the expansion ends.
pub open spec fn fraction_digits(r: nat, d: nat, k: nat) -> Seq<char>
    decreases k,
{
    if k == 0 || r == 0 || d == 0 {
        seq![]
    } else {
        seq![digit_char(((r * 10) / d) as int)] + fraction_digits((r * 10) % d, d, (k - 1) as nat)
    }
}

impl Number {
    /// The text of a number: an integer in plain decimal; otherwise its
    /// decimal expansion, cut after `FRACTION_DIGITS` digits.
    pub open spec fn text(self) -> Seq<char> {
        let a = abs(self.num as int);
        let d = self.den as nat;
        let sign = if self.num < 0 { seq!['-'] } else { seq![] };
        if a % d == 0 {
            sign + digits_of(a / d)
        } else {
            sign + digits_of(a / d) + seq!['.'] + fraction_digits(a % d, d, FRACTION_DIGITS as nat)
        }
    }

    pub fn to_string(&self) -> (r: String)
        requires
            self.wf(),
        ensures
            r@ == self.text(),
    {
        let mut out = String::new();
        if self.num < 0 {
            push_char(&mut out, '-');
        }
        let a: u64 = if self.num < 0 {
            (-self.num) as u64
        } else {
            self.num as u64
        };
        let d: u64 = self.den as u64;
        push_digits(&mut out, a / d);
        let mut r: u64 = a % d;
        if r != 0 {
            push_char(&mut out, '.');
            let ghost prefix = out@;
            let mut k: u64 = FRACTION_DIGITS;
            while k > 0 && r != 0
                invariant
                    r < d,
                    d == self.den,
                    0 < d,
                    d <= LIMIT,
                    k <= FRACTION_DIGITS,
                    out@ + fraction_digits(r as nat, d as nat, k as nat) == prefix + fraction_digits(
                        a as nat % d as nat,
                        d as nat,
                        FRACTION_DIGITS as nat,
                    ),
                decreases k,
            {
                let x: u128 = r as u128 * 10;
                assert(x / (d as u128) < 10) by (nonlinear_arith)
                    requires
                        x == r * 10,
                        r < d,
                        d > 0,
                ;
                let q: u64 = (x / d as u128) as u64;
                let ghost before = out@;
                r = (x % d as u128) as u64;
                push_char(&mut out, digit(q));
                k = k - 1;
                assert(before + fraction_digits((x / 10) as nat, d as nat, (k + 1) as nat) =~= out@
                    + fraction_digits(r as nat, d as nat, k as nat));
            }
        }
        proof {
            let sign = if self.num < 0 { seq!['-'] } else { seq![] };
            assert(abs(self.num as int) == a);
            assert(out@ =~= self.text());
        }
        out
    }
}

/// Products of two bounded numerators stay far inside `i128`.
proof fn lemma_products(a: int, b: int)
    requires
        fits(a),
        fits(b),
    ensures
        -0x3fff_ffff_ffff_ffff_0000_0000_0000_0001 <= a * b <= 0x3fff_ffff_ffff_ffff_0000_0000_0000_0001,
        a > 0 && b > 0 ==> a * b > 0,
        a * b == 0 <==> (a == 0 || b == 0),
{
    assert(-0x3fff_ffff_ffff_ffff_0000_0000_0000_0001 <= a * b <= 0x3fff_ffff_ffff_ffff_0000_0000_0000_0001)
        by (nonlinear_arith)
        requires
            -0x7fff_ffff_ffff_ffff <= a <= 0x7fff_ffff_ffff_ffff,
            -0x7fff_ffff_ffff_ffff <= b <= 0x7fff_ffff_ffff_ffff,
    ;
    assert(a > 0 && b > 0 ==> a * b > 0) by (nonlinear_arith);
    assert(a * b == 0 <==> (a == 0 || b == 0)) by (nonlinear_arith);
}

fn gcd_exec(a: u128, b: u128) -> (g: u128)
    ensures
        g == gcd(a as nat, b as nat),
{
    let mut x = a;
    let mut y = b;
    while y != 0
        invariant
            gcd(x as nat, y as nat) == gcd(a as nat, b as nat),
        decreases y,
    {
        let t = x % y;
        x = y;
        y = t;
    }
    x
}

proof fn lemma_gcd_divides(a: nat, b: nat)
    requires
        b > 0,
    ensures
        gcd(a, b) > 0,
        a % gcd(a, b) == 0,
        b % gcd(a, b) == 0,
        gcd(a, b) <= b,
    decreases b,
{
    let r = a % b;
    if r == 0 {
        assert(gcd(b, r) == b);
        assert(b % b == 0) by (nonlinear_arith)
            requires
                b > 0,
        ;
    } else {
        lemma_gcd_divides(b, r);
        let g = gcd(b, r);
        let q = a / b;
        let kb = b / g;
        let kr = r / g;
        vstd::arithmetic::div_mod::lemma_fundamental_div_mod(a as int, b as int);
        vstd::arithmetic::div_mod::lemma_fundamental_div_mod(b as int, g as int);
        vstd::arithmetic::div_mod::lemma_fundamental_div_mod(r as int, g as int);
        assert(a == g * (kb * q + kr)) by (nonlinear_arith)
            requires
                a == b * q + r,
                b == g * kb,
                r == g * kr,
        ;
        vstd::arithmetic::div_mod::lemma_mod_multiples_basic((kb * q + kr) as int, g as int);
        vstd::arithmetic::mul::lemma_mul_is_commutative((kb * q + kr) as int, g as int);
        assert(r < b);
    }
}

/// Reducing a fraction keeps its value and a positive denominator.
pub proof fn lemma_canon_denotes(n: int, d: int)
    requires
        d > 0,
    ensures
        canon(n, d).1 > 0,
        n * canon(n, d).1 == canon(n, d).0 * d,
        canon(n, d).1 <= d,
        abs(canon(n, d).0) <= abs(n),
{
    let a = abs(n) as int;
    let g = gcd(abs(n), abs(d)) as int;
    lemma_gcd_divides(abs(n), abs(d));
    let p = a / g;
    let q = d / g;
    assert(a == g * p && d == g * q && q > 0 && q <= d && 0 <= p <= a) by (nonlinear_arith)
        requires
            g > 0,
            a >= 0,
            a % g == 0,
            d % g == 0,
            d > 0,
            p == a / g,
            q == d / g,
    {
        vstd::arithmetic::div_mod::lemma_fundamental_div_mod(a, g);
        vstd::arithmetic::div_mod::lemma_fundamental_div_mod(d, g);
    }
    assert(a * q == p * d) by (nonlinear_arith)
        requires
            a == g * p,
            d == g * q,
    ;
    if n < 0 {
        assert(n * q == (-p) * d) by (nonlinear_arith)
            requires
                a * q == p * d,
                n == -a,
        ;
    }
}

/// The number that `make(n, d)` gives has the value of the fraction `n / d`:
/// arithmetic on numbers is exact whenever its result fits.
pub proof fn lemma_make_exact(n: int, d: int)
    requires
        d > 0,
    ensures
        make(n, d) matches Some(x) ==> x.wf() && x.denotes(n, d),
{
    lemma_canon_denotes(n, d);
}

} // verus!
