use vstd::prelude::*;

use crate::error::Error;

verus! {

/// A pair (numerator, denominator) standing for a rational value.
pub type Ratio = (int, int);

pub open spec fn in_i64(x: int) -> bool {
    i64::MIN <= x <= i64::MAX
}

/// A ratio that a `Number` can hold: both parts are `i64`, the denominator positive.
pub open spec fn fits(v: Ratio) -> bool {
    in_i64(v.0) && 0 < v.1 <= i64::MAX
}

pub open spec fn abs(x: int) -> nat {
    if x < 0 {
        (-x) as nat
    } else {
        x as nat
    }
}

pub open spec fn gcd(a: nat, b: nat) -> nat
    decreases b,
{
    if b == 0 {
        a
    } else {
        gcd(b, a % b)
    }
}

/// Division rounding toward zero, as Rust's integer `/` does.
pub open spec fn trunc_div(x: int, g: int) -> int {
    if x < 0 {
        -((-x) / g)
    } else {
        x / g
    }
}

/// The ratio n / d with a positive denominator, both parts divided by their gcd.
pub open spec fn reduce(n: int, d: int) -> Ratio {
    let n1 = if d < 0 { -n } else { n };
    let d1 = if d < 0 { -d } else { d };
    let g = gcd(abs(n1), abs(d1)) as int;
    if g == 0 {
        (n1, d1)
    } else {
        (trunc_div(n1, g), d1 / g)
    }
}

/// `v` itself where a `Number` can hold it, else a domain error.
pub open spec fn checked(v: Ratio) -> Result<Ratio, Error> {
    if fits(v) {
        Ok(v)
    } else {
        Err(Error::ArithmeticDomain)
    }
}

pub open spec fn power_of(x: int, e: nat) -> int
    decreases e,
{
    if e == 0 {
        1
    } else {
        x * power_of(x, (e - 1) as nat)
    }
}

pub open spec fn fact(n: nat) -> int
    decreases n,
{
    if n == 0 {
        1
    } else {
        n * fact((n - 1) as nat)
    }
}

pub open spec fn add_spec(a: Ratio, b: Ratio) -> Result<Ratio, Error> {
    checked(reduce(a.0 * b.1 + b.0 * a.1, a.1 * b.1))
}

pub open spec fn sub_spec(a: Ratio, b: Ratio) -> Result<Ratio, Error> {
    checked(reduce(a.0 * b.1 - b.0 * a.1, a.1 * b.1))
}

pub open spec fn mul_spec(a: Ratio, b: Ratio) -> Result<Ratio, Error> {
    checked(reduce(a.0 * b.0, a.1 * b.1))
}

pub open spec fn div_spec(a: Ratio, b: Ratio) -> Result<Ratio, Error> {
    if b.0 == 0 {
        Err(Error::ArithmeticDomain)
    } else {
        checked(reduce(a.0 * b.1, a.1 * b.0))
    }
}

/// `a` raised to the integral exponent `b`. Each power of a part must fit in `i64`.
pub open spec fn power_spec(a: Ratio, b: Ratio) -> Result<Ratio, Error> {
    if b.1 != 1 {
        Err(Error::ArithmeticDomain)
    } else if b.0 >= 0 {
        let k = b.0 as nat;
        if in_i64(power_of(a.0, k)) && in_i64(power_of(a.1, k)) {
            checked((power_of(a.0, k), power_of(a.1, k)))
        } else {
            Err(Error::ArithmeticDomain)
        }
    } else if a.0 == 0 {
        Err(Error::ArithmeticDomain)
    } else {
        let k = (-b.0) as nat;
        if in_i64(power_of(a.0, k)) && in_i64(power_of(a.1, k)) {
            checked(reduce(power_of(a.1, k), power_of(a.0, k)))
        } else {
            Err(Error::ArithmeticDomain)
        }
    }
}

/// a < b, for ratios with positive denominators.
pub open spec fn ratio_lt(a: Ratio, b: Ratio) -> bool {
    a.0 * b.1 < b.0 * a.1
}

pub open spec fn factorial_spec(a: Ratio) -> Result<Ratio, Error> {
    if a.1 == 1 && a.0 >= 0 {
        checked((fact(a.0 as nat), 1))
    } else {
        Err(Error::ArithmeticDomain)
    }
}

/// An exact rational number: `i64` numerator over positive `i64` denominator,
/// kept in lowest terms by every operation that makes one.
#[derive(Clone, Copy, Debug)]
pub struct Number {
    num: i64,
    den: i64,
}

impl Number {
    #[verifier::type_invariant]
    spec fn positive_den(self) -> bool {
        self.den > 0
    }
}

pub open spec fn result_view(r: Result<Number, Error>) -> Result<Ratio, Error> {
    match r {
        Ok(x) => Ok(x@),
        Err(e) => Err(e),
    }
}

impl View for Number {
    type V = Ratio;

    closed spec fn view(&self) -> Ratio {
        (self.num as int, self.den as int)
    }
}

proof fn lemma_gcd_step(a: nat, b: nat)
    requires
        b != 0,
    ensures
        gcd(a, b) == gcd(b, a % b),
{
}

proof fn lemma_gcd_bounds(a: nat, b: nat)
    requires
        b > 0,
    ensures
        0 < gcd(a, b) <= b,
    decreases b,
{
    if a % b != 0 {
        lemma_gcd_bounds(b, a % b);
    } else {
        reveal_with_fuel(gcd, 2);
    }
}

proof fn lemma_gcd_divides(a: nat, b: nat)
    requires
        a > 0 || b > 0,
    ensures
        gcd(a, b) > 0,
        a % gcd(a, b) == 0,
        b % gcd(a, b) == 0,
    decreases b,
{
    if b == 0 {
        vstd::arithmetic::div_mod::lemma_mod_multiples_basic(1, a as int);
    } else {
        let r = a % b;
        lemma_gcd_divides(b, r);
        let g = gcd(b, r) as int;
        vstd::arithmetic::div_mod::lemma_fundamental_div_mod(b as int, g);
        vstd::arithmetic::div_mod::lemma_fundamental_div_mod(r as int, g);
        vstd::arithmetic::div_mod::lemma_fundamental_div_mod(a as int, b as int);
        let k = (b as int / g) * (a as int / b as int) + r as int / g;
        assert(a as int == k * g) by (nonlinear_arith)
            requires
                b as int == g * (b as int / g),
                r as int == g * (r as int / g),
                a as int == b as int * (a as int / b as int) + r as int,
                k == (b as int / g) * (a as int / b as int) + r as int / g,
        ;
        vstd::arithmetic::div_mod::lemma_mod_multiples_basic(k, g);
    }
}

/// Reducing a fraction keeps its value: n / d and its reduced form are equal
/// as rationals, and the reduced denominator is positive.
pub proof fn lemma_reduce_keeps_value(n: int, d: int)
    requires
        d != 0,
    ensures
        reduce(n, d).0 * d == n * reduce(n, d).1,
        reduce(n, d).1 > 0,
{
    let n1 = if d < 0 { -n } else { n };
    let d1 = if d < 0 { -d } else { d };
    lemma_gcd_divides(abs(n1), abs(d1));
    let g = gcd(abs(n1), abs(d1)) as int;
    vstd::arithmetic::div_mod::lemma_fundamental_div_mod(abs(n1) as int, g);
    vstd::arithmetic::div_mod::lemma_fundamental_div_mod(d1, g);
    let p = trunc_div(n1, g);
    let q = d1 / g;
    assert(n1 == g * p) by {
        let m = abs(n1) as int;
        assert(m == g * (m / g) + m % g);
        assert(m % g == 0);
        if n1 < 0 {
            assert(m == -n1);
            assert(p == -(m / g));
            assert(g * (-(m / g)) == -(g * (m / g))) by (nonlinear_arith);
        } else {
            assert(m == n1);
        }
    }
    assert(d1 == g * q);
    assert(p * d1 == n1 * q) by (nonlinear_arith)
        requires n1 == g * p, d1 == g * q;
    assert(q > 0) by (nonlinear_arith)
        requires d1 == g * q, d1 > 0, g > 0;
    assert(p * d == n * q) by (nonlinear_arith)
        requires
            p * d1 == n1 * q,
            d < 0 ==> n1 == -n && d1 == -d,
            d >= 0 ==> n1 == n && d1 == d,
    ;
}

/// The product of two `i64` values, which `i128` always holds.
fn wide_mul(a: i64, b: i64) -> (r: i128)
    ensures
        r as int == a as int * b as int,
        -0x4000_0000_0000_0000_0000_0000_0000_0000 <= r as int <= 0x4000_0000_0000_0000_0000_0000_0000_0000,
        b > 0 ==> -0x3fff_ffff_ffff_ffff_8000_0000_0000_0000 <= r as int <= 0x3fff_ffff_ffff_ffff_8000_0000_0000_0000,
        a != 0 && b != 0 ==> r != 0,
{
    proof {
        let x = a as int;
        let y = b as int;
        if b > 0 {
            assert(-0x3fff_ffff_ffff_ffff_8000_0000_0000_0000 <= x * y <= 0x3fff_ffff_ffff_ffff_8000_0000_0000_0000) by (nonlinear_arith)
                requires
                    -0x8000_0000_0000_0000 <= x <= 0x8000_0000_0000_0000,
                    0 < y <= 0x7fff_ffff_ffff_ffff,
            {
                assert(abs(x) * y <= 0x8000_0000_0000_0000 * y);
                assert(0x8000_0000_0000_0000 * y <= 0x8000_0000_0000_0000 * 0x7fff_ffff_ffff_ffffint);
                assert(abs(x * y) == abs(x) * y);
            }
        }
        if a != 0 && b != 0 {
            assert(x * y != 0) by (nonlinear_arith)
                requires x != 0, y != 0;
        }
        let x = a as int;
        let y = b as int;
        assert(-0x4000_0000_0000_0000_0000_0000_0000_0000 <= x * y <= 0x4000_0000_0000_0000_0000_0000_0000_0000) by (nonlinear_arith)
            requires
                -0x8000_0000_0000_0000 <= x <= 0x8000_0000_0000_0000,
                -0x8000_0000_0000_0000 <= y <= 0x8000_0000_0000_0000,
        {
            assert(abs(x) <= 0x8000_0000_0000_0000);
            assert(abs(y) <= 0x8000_0000_0000_0000);
            assert(abs(x) * abs(y) <= 0x8000_0000_0000_0000 * abs(y));
            assert(0x8000_0000_0000_0000 * abs(y) <= 0x8000_0000_0000_0000 * 0x8000_0000_0000_0000int);
            assert(abs(x * y) == abs(x) * abs(y));
        }
    }
    a as i128 * b as i128
}

fn gcd_u128(a: u128, b: u128) -> (r: u128)
    ensures
        r as nat == gcd(a as nat, b as nat),
{
    let mut x: u128 = a;
    let mut y: u128 = b;
    while y != 0
        invariant
            gcd(x as nat, y as nat) == gcd(a as nat, b as nat),
        decreases y,
    {
        proof {
            lemma_gcd_step(x as nat, y as nat);
        }
        let t: u128 = x % y;
        x = y;
        y = t;
    }
    x
}

fn abs_i128(x: i128) -> (r: u128)
    requires
        x > i128::MIN,
    ensures
        r as int == abs(x as int),
{
    if x < 0 {
        (-x) as u128
    } else {
        x as u128
    }
}

/// The `Number` n / d in lowest terms, or a domain error where it does not fit.
fn reduce_to_number(n: i128, d: i128) -> (r: Result<Number, Error>)
    requires
        n > i128::MIN,
        d > i128::MIN,
        d != 0,
    ensures
        result_view(r) == checked(reduce(n as int, d as int)),
{
    let n1: i128 = if d < 0 { -n } else { n };
    let d1: i128 = if d < 0 { -d } else { d };
    let g: u128 = gcd_u128(abs_i128(n1), abs_i128(d1));
    proof {
        lemma_gcd_bounds(abs(n1 as int), abs(d1 as int));
    }
    let gi: i128 = g as i128;
    let qn: i128 = if n1 < 0 { -((-n1) / gi) } else { n1 / gi };
    let qd: i128 = d1 / gi;
    if i64::MIN as i128 <= qn && qn <= i64::MAX as i128 && 0 < qd && qd <= i64::MAX as i128 {
        Ok(Number { num: qn as i64, den: qd as i64 })
    } else {
        Err(Error::ArithmeticDomain)
    }
}

proof fn lemma_power_grows(x: int, i: nat, j: nat)
    requires
        abs(x) >= 2,
        i < j,
    ensures
        abs(power_of(x, j)) >= 2 * abs(power_of(x, i)),
        abs(power_of(x, i)) >= 1,
    decreases j,
{
    lemma_power_nonzero(x, i);
    lemma_power_nonzero(x, (j - 1) as nat);
    let p = power_of(x, (j - 1) as nat);
    assert(abs(x * p) == abs(x) * abs(p)) by (nonlinear_arith);
    assert(abs(x) * abs(p) >= 2 * abs(p)) by (nonlinear_arith)
        requires abs(x) >= 2;
    if i < j - 1 {
        lemma_power_grows(x, i, (j - 1) as nat);
    }
}

proof fn lemma_power_nonzero(x: int, i: nat)
    requires
        abs(x) >= 1,
    ensures
        abs(power_of(x, i)) >= 1,
    decreases i,
{
    if i > 0 {
        lemma_power_nonzero(x, (i - 1) as nat);
        let p = power_of(x, (i - 1) as nat);
        assert(abs(x * p) == abs(x) * abs(p)) by (nonlinear_arith);
        assert(abs(x) * abs(p) >= 1) by (nonlinear_arith)
            requires abs(x) >= 1, abs(p) >= 1;
    }
}

proof fn lemma_power_small(x: int, e: nat)
    requires
        -1 <= x <= 1,
    ensures
        x == 0 && e > 0 ==> power_of(x, e) == 0,
        x == 1 ==> power_of(x, e) == 1,
        x == -1 ==> power_of(x, e) == if e % 2 == 0 { 1int } else { -1int },
    decreases e,
{
    if e > 0 {
        lemma_power_small(x, (e - 1) as nat);
    }
}

/// `x` to the power `e`, where the result fits in `i64`.
fn checked_power(x: i64, e: u64) -> (r: Option<i64>)
    ensures
        r == (if in_i64(power_of(x as int, e as nat)) {
            Some(power_of(x as int, e as nat) as i64)
        } else {
            None
        }),
{
    proof {
        reveal_with_fuel(power_of, 2);
    }
    if x == 0 || x == 1 || x == -1 {
        proof {
            lemma_power_small(x as int, e as nat);
        }
        if e == 0 {
            return Some(1);
        } else if x == 0 {
            return Some(0);
        } else if x == 1 || e % 2 == 0 {
            return Some(1);
        } else {
            return Some(-1);
        }
    }
    let mut acc: i64 = 1;
    let mut i: u64 = 0;
    while i < e
        invariant
            i <= e,
            acc as int == power_of(x as int, i as nat),
            abs(x as int) >= 2,
        decreases e - i,
    {
        let next = acc.checked_mul(x);
        match next {
            Some(v) => {
                acc = v;
                i = i + 1;
            },
            None => {
                proof {
                    let p = power_of(x as int, (i + 1) as nat);
                    assert(p == x as int * acc as int);
                    if i + 1 < e {
                        lemma_power_grows(x as int, (i + 1) as nat, e as nat);
                    }
                }
                return None;
            },
        }
    }
    Some(acc)
}

proof fn lemma_fact_grows(i: nat, j: nat)
    requires
        i <= j,
    ensures
        fact(j) >= fact(i) >= 1,
    decreases j,
{
    if i < j {
        lemma_fact_grows(i, (j - 1) as nat);
        assert(j * fact((j - 1) as nat) >= fact((j - 1) as nat)) by (nonlinear_arith)
            requires j >= 1, fact((j - 1) as nat) >= 1;
    } else if j > 0 {
        lemma_fact_grows((j - 1) as nat, (j - 1) as nat);
        assert(j * fact((j - 1) as nat) >= 1) by (nonlinear_arith)
            requires j >= 1, fact((j - 1) as nat) >= 1;
    }
}

impl Number {
    /// The integer `value`.
    pub fn from_int(value: i64) -> (r: Number)
        ensures
            r@ == (value as int, 1int),
    {
        Number { num: value, den: 1 }
    }

    /// The fraction `num / den` in lowest terms. Fails where `den` is zero or
    /// the reduced fraction does not fit.
    pub fn new(num: i64, den: i64) -> (r: Result<Number, Error>)
        ensures
            den == 0 ==> r == Err::<Number, Error>(Error::ArithmeticDomain),
            den != 0 ==> result_view(r) == checked(reduce(num as int, den as int)),
    {
        if den == 0 {
            Err(Error::ArithmeticDomain)
        } else {
            reduce_to_number(num as i128, den as i128)
        }
    }

    pub fn numerator(&self) -> (r: i64)
        ensures
            r as int == self@.0,
    {
        self.num
    }

    pub fn denominator(&self) -> (r: i64)
        ensures
            r as int == self@.1,
    {
        self.den
    }

    pub fn is_integer(&self) -> (r: bool)
        ensures
            r == (self@.1 == 1),
    {
        self.den == 1
    }

    /// Whether `self` is smaller in value than `other`.
    pub fn is_less_than(&self, other: &Number) -> (r: bool)
        ensures
            r == ratio_lt(self@, other@),
    {
        wide_mul(self.num, other.den) < wide_mul(other.num, self.den)
    }

    pub fn add(&self, rhs: &Number) -> (r: Result<Number, Error>)
        ensures
            result_view(r) == add_spec(self@, rhs@),
    {
        proof {
            use_type_invariant(self);
            use_type_invariant(rhs);
        }
        let a: i128 = wide_mul(self.num, rhs.den);
        let b: i128 = wide_mul(rhs.num, self.den);
        let d: i128 = wide_mul(self.den, rhs.den);
        reduce_to_number(a + b, d)
    }

    pub fn sub(&self, rhs: &Number) -> (r: Result<Number, Error>)
        ensures
            result_view(r) == sub_spec(self@, rhs@),
    {
        proof {
            use_type_invariant(self);
            use_type_invariant(rhs);
        }
        let a: i128 = wide_mul(self.num, rhs.den);
        let b: i128 = wide_mul(rhs.num, self.den);
        let d: i128 = wide_mul(self.den, rhs.den);
        reduce_to_number(a - b, d)
    }

    pub fn mul(&self, rhs: &Number) -> (r: Result<Number, Error>)
        ensures
            result_view(r) == mul_spec(self@, rhs@),
    {
        proof {
            use_type_invariant(self);
            use_type_invariant(rhs);
        }
        let n: i128 = wide_mul(self.num, rhs.num);
        let d: i128 = wide_mul(self.den, rhs.den);
        reduce_to_number(n, d)
    }

    pub fn div(&self, rhs: &Number) -> (r: Result<Number, Error>)
        ensures
            result_view(r) == div_spec(self@, rhs@),
    {
        proof {
            use_type_invariant(self);
            use_type_invariant(rhs);
        }
        if rhs.num == 0 {
            return Err(Error::ArithmeticDomain);
        }
        let n: i128 = wide_mul(self.num, rhs.den);
        let d: i128 = wide_mul(self.den, rhs.num);
        reduce_to_number(n, d)
    }

    pub fn power(&self, rhs: &Number) -> (r: Result<Number, Error>)
        ensures
            result_view(r) == power_spec(self@, rhs@),
    {
        proof {
            use_type_invariant(self);
            use_type_invariant(rhs);
        }
        if rhs.den != 1 {
            return Err(Error::ArithmeticDomain);
        }
        if rhs.num < 0 && self.num == 0 {
            return Err(Error::ArithmeticDomain);
        }
        let k: u64 = if rhs.num < 0 { (-(rhs.num as i128)) as u64 } else { rhs.num as u64 };
        proof {
            if rhs.num < 0 {
                lemma_power_nonzero(self.num as int, k as nat);
            }
        }
        let pn = checked_power(self.num, k);
        let pd = checked_power(self.den, k);
        match (pn, pd) {
            (Some(n), Some(d)) => {
                if rhs.num >= 0 {
                    if d > 0 {
                        Ok(Number { num: n, den: d })
                    } else {
                        Err(Error::ArithmeticDomain)
                    }
                } else {
                    reduce_to_number(d as i128, n as i128)
                }
            },
            _ => Err(Error::ArithmeticDomain),
        }
    }

    pub fn factorial(&self) -> (r: Result<Number, Error>)
        ensures
            result_view(r) == factorial_spec(self@),
    {
        proof {
            use_type_invariant(self);
        }
        if self.den != 1 || self.num < 0 {
            return Err(Error::ArithmeticDomain);
        }
        let n: i64 = self.num;
        let mut acc: i64 = 1;
        let mut i: i64 = 0;
        while i < n
            invariant
                0 <= i <= n,
                n == self.num,
                self.den == 1,
                acc as int == fact(i as nat),
            decreases n - i,
        {
            assert(fact((i + 1) as nat) == (i + 1) * fact(i as nat));
            assert(acc as int * (i + 1) == (i + 1) * fact(i as nat)) by (nonlinear_arith)
                requires acc as int == fact(i as nat);
            let next = acc.checked_mul(i + 1);
            match next {
                Some(v) => {
                    acc = v;
                    i = i + 1;
                },
                None => {
                    proof {
                        lemma_fact_grows((i + 1) as nat, n as nat);
                        assert(fact(n as nat) > i64::MAX);
                        assert(self@ == (n as int, 1int));
                    }
                    return Err(Error::ArithmeticDomain);
                },
            }
        }
        Ok(Number { num: acc, den: 1 })
    }
}

impl Default for Number {
    /// Zero.
    fn default() -> (r: Number)
        ensures
            r@ == (0int, 1int),
    {
        Number { num: 0, den: 1 }
    }
}

} // verus!
