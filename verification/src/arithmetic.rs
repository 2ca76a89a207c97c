//! Integer arithmetic that several planning rules share.
use vstd::arithmetic::div_mod::*;
use vstd::arithmetic::mul::*;
use vstd::prelude::*;

verus! {

/// Division rounded up.
pub open spec fn ceil_div(a: nat, b: nat) -> nat {
    if a % b == 0 {
        a / b
    } else {
        a / b + 1
    }
}

/// The least multiple of `step` that is not below `value`.
pub open spec fn round_up(value: nat, step: nat) -> nat {
    ceil_div(value, step) * step
}

/// Whether `n` is a positive multiple of both `a` and `b`.
pub open spec fn is_common_multiple(a: nat, b: nat, n: nat) -> bool {
    n > 0 && n % a == 0 && n % b == 0
}

/// Whether `n` is the smallest positive multiple of both `a` and `b`.
pub open spec fn is_least_common_multiple(a: nat, b: nat, n: nat) -> bool {
    &&& is_common_multiple(a, b, n)
    &&& forall|m: nat| #[trigger] is_common_multiple(a, b, m) ==> n <= m
}

/// The least common multiple, zero where one of the numbers is.
pub open spec fn least_common_multiple(a: nat, b: nat) -> nat {
    if a == 0 || b == 0 {
        0
    } else {
        choose|n: nat| is_least_common_multiple(a, b, n)
    }
}

/// Rounding up stays within one step and lands on a multiple.
pub proof fn lemma_round_up(value: nat, step: nat)
    requires
        step > 0,
    ensures
        value <= round_up(value, step) < value + step,
        round_up(value, step) % step == 0,
        forall|m: nat| #![trigger m % step] m >= value && m % step == 0 ==> m >= round_up(value, step),
{
    let v = value as int;
    let s = step as int;
    lemma_fundamental_div_mod(v, s);
    lemma_mul_is_commutative(s, v / s);
    lemma_mul_is_distributive_add_other_way(s, v / s, 1);
    lemma_mod_multiples_basic(ceil_div(value, step) as int, s);
    assert forall|m: nat| #![trigger m % step] m >= value && m % step == 0 implies m >= round_up(
        value,
        step,
    ) by {
        let q = m as int / s;
        let c = ceil_div(value, step) as int;
        lemma_fundamental_div_mod(m as int, s);
        lemma_mul_is_commutative(s, q);
        if q < c {
            lemma_mul_inequality(q, c - 1, s);
            lemma_mul_is_distributive_sub_other_way(s, c, 1);
        } else {
            lemma_mul_inequality(c, q, s);
        }
    }
}

/// Division rounded up.
pub fn div_ceil(a: usize, b: usize) -> (quotient: usize)
    requires
        b > 0,
    ensures
        quotient == ceil_div(a as nat, b as nat),
{
    let quotient: usize = a / b;
    if a % b == 0 {
        quotient
    } else {
        proof {
            let (x, y) = (a as int, b as int);
            lemma_fundamental_div_mod(x, y);
            let q = x / y;
            assert(q < x) by (nonlinear_arith)
                requires
                    x == y * q + x % y,
                    x % y > 0,
                    y > 0,
                    x >= 0,
                    q >= 0,
            ;
        }
        quotient + 1
    }
}

/// One step of Euclid's algorithm keeps the common divisors.
proof fn lemma_euclid_step(a: nat, b: nat, d: nat)
    requires
        b > 0,
        d > 0,
    ensures
        (a % d == 0 && b % d == 0) <==> (b % d == 0 && (a % b) % d == 0),
{
    let (x, y, z) = (a as int, b as int, d as int);
    lemma_fundamental_div_mod(x, y);
    lemma_fundamental_div_mod(y, z);
    let q = x / y;
    let r = x % y;
    let k = y / z;
    if y % z == 0 {
        if x % z == 0 {
            lemma_fundamental_div_mod(x, z);
            let j = x / z;
            assert(r == (j - k * q) * z) by (nonlinear_arith)
                requires
                    x == y * q + r,
                    y == z * k,
                    x == z * j,
            ;
            lemma_mod_multiples_basic(j - k * q, z);
        }
        if r % z == 0 {
            lemma_fundamental_div_mod(r, z);
            let j = r / z;
            assert(x == (j + k * q) * z) by (nonlinear_arith)
                requires
                    x == y * q + r,
                    y == z * k,
                    r == z * j,
            ;
            lemma_mod_multiples_basic(j + k * q, z);
        }
    }
}

/// The greatest common divisor, by Euclid's algorithm.
fn gcd(a: usize, b: usize) -> (divisor: usize)
    requires
        a > 0,
        b > 0,
    ensures
        divisor > 0,
        a as nat % divisor as nat == 0,
        b as nat % divisor as nat == 0,
        forall|d: nat|
            #![trigger (a as nat) % d]
            d > 0 && (a as nat) % d == 0 && (b as nat) % d == 0 ==> (divisor as nat) % d == 0,
{
    let mut lhs: usize = a;
    let mut rhs: usize = b;
    while rhs != 0
        invariant
            a > 0,
            b > 0,
            lhs > 0,
            forall|d: nat|
                #![trigger (a as nat) % d]
                #![trigger (lhs as nat) % d]
                d > 0 ==> ((a as nat % d == 0 && b as nat % d == 0) <==> (lhs as nat % d == 0
                    && rhs as nat % d == 0)),
        decreases rhs,
    {
        let rem: usize = lhs % rhs;
        proof {
            let ghost_lhs = lhs as nat;
            assert forall|d: nat|
                #![trigger (a as nat) % d]
                #![trigger (rhs as nat) % d]
                d > 0 implies ((a as nat % d == 0 && b as nat % d == 0) <==> (rhs as nat % d == 0
                && rem as nat % d == 0)) by {
                lemma_euclid_step(ghost_lhs, rhs as nat, d);
            }
        }
        lhs = rhs;
        rhs = rem;
    }
    proof {
        lemma_mod_self_0(lhs as int);
        assert(lhs as nat % lhs as nat == 0);
        assert forall|d: nat|
            #![trigger (a as nat) % d]
            d > 0 && (a as nat) % d == 0 && (b as nat) % d == 0 implies (lhs as nat) % d == 0 by {}
    }
    lhs
}

/// Below any common multiple there is a least one.
proof fn lemma_least_exists(a: nat, b: nat, n: nat) -> (least: nat)
    requires
        is_common_multiple(a, b, n),
    ensures
        is_least_common_multiple(a, b, least),
        least <= n,
    decreases n,
{
    if exists|m: nat| m < n && #[trigger] is_common_multiple(a, b, m) {
        let m = choose|m: nat| m < n && #[trigger] is_common_multiple(a, b, m);
        lemma_least_exists(a, b, m)
    } else {
        n
    }
}

/// The least common multiple of two numbers with greatest common divisor `g` is `a / g * b`.
proof fn lemma_least_common_multiple(a: nat, b: nat, g: nat)
    requires
        a > 0,
        b > 0,
        g > 0,
        a % g == 0,
        b % g == 0,
        forall|d: nat| #![trigger a % d] d > 0 && a % d == 0 && b % d == 0 ==> g % d == 0,
    ensures
        is_least_common_multiple(a, b, a / g * b),
        least_common_multiple(a, b) == a / g * b,
{
    let (x, y, z) = (a as int, b as int, g as int);
    let (p, q) = (x / z, y / z);
    lemma_fundamental_div_mod(x, z);
    lemma_fundamental_div_mod(y, z);
    let product = a / g * b;
    assert(product == p * y);
    assert(p * y == q * x && p > 0 && p * y > 0) by (nonlinear_arith)
        requires
            x == z * p,
            y == z * q,
            x > 0,
            y > 0,
            z > 0,
    ;
    lemma_mod_multiples_basic(p, y);
    lemma_mod_multiples_basic(q, x);
    assert(is_common_multiple(a, b, product));
    let least = lemma_least_exists(a, b, product);
    // The least common multiple divides the product of the two numbers: a remainder would be a
    // smaller common multiple.
    let m = least as int;
    let (s, t) = (m / x, m / y);
    lemma_fundamental_div_mod(m, x);
    lemma_fundamental_div_mod(m, y);
    let n = x * y;
    let (d, r) = (n / m, n % m);
    lemma_fundamental_div_mod(n, m);
    if r != 0 {
        lemma_mod_bound(n, m);
        assert(r == (y - s * d) * x) by (nonlinear_arith)
            requires
                n == x * y,
                n == m * d + r,
                m == x * s,
        ;
        assert(r == (x - t * d) * y) by (nonlinear_arith)
            requires
                n == x * y,
                n == m * d + r,
                m == y * t,
        ;
        lemma_mod_multiples_basic(y - s * d, x);
        lemma_mod_multiples_basic(x - t * d, y);
        assert(is_common_multiple(a, b, r as nat));
        assert(false);
    }
    // The quotient is then a common divisor of both.

    assert(y == d * s && x == d * t && d > 0) by (nonlinear_arith)
        requires
            x * y == m * d,
            m == x * s,
            m == y * t,
            x > 0,
            y > 0,
            m > 0,
    {
        assert(x * y == x * (s * d));
        assert(y * x == y * (t * d));
    }
    lemma_mul_is_commutative(d, s);
    lemma_mul_is_commutative(d, t);
    lemma_mod_multiples_basic(s, d);
    lemma_mod_multiples_basic(t, d);
    assert(a % (d as nat) == 0 && b % (d as nat) == 0);
    assert(g % (d as nat) == 0);
    let k = z / d;
    lemma_fundamental_div_mod(z, d);
    assert(p * y <= m) by (nonlinear_arith)
        requires
            z == d * k,
            x == z * p,
            x * y == m * d,
            x > 0,
            y > 0,
            z > 0,
            d > 0,
            m > 0,
            p > 0,
    {
        assert(k >= 1);
        assert(d * (k * (p * y)) == d * m);
        assert(k * (p * y) == m);
        assert(p * y >= 0);
        assert(p * y <= k * (p * y));
    }
    assert(is_least_common_multiple(a, b, product));
    let chosen = choose|n: nat| is_least_common_multiple(a, b, n);
    assert(is_least_common_multiple(a, b, chosen));
    assert(is_common_multiple(a, b, chosen));
}

/// The least common multiple with overflow detection: nothing where it does not fit, and nothing
/// for two zeros.
pub fn lcm(lhs: usize, rhs: usize) -> (multiple: Option<usize>)
    ensures
        match multiple {
            Some(multiple) => {
                &&& lhs > 0 || rhs > 0
                &&& multiple == least_common_multiple(lhs as nat, rhs as nat)
            },
            None => {
                ||| lhs == 0 && rhs == 0
                ||| least_common_multiple(lhs as nat, rhs as nat) > usize::MAX
            },
        },
{
    if lhs == 0 && rhs == 0 {
        return None;
    }
    if lhs == 0 || rhs == 0 {
        return Some(0);
    }
    let divisor: usize = gcd(lhs, rhs);
    proof {
        lemma_least_common_multiple(lhs as nat, rhs as nat, divisor as nat);
    }
    (lhs / divisor).checked_mul(rhs)
}

/// Two positive numbers have a least common multiple.
pub proof fn lemma_lcm_is_least(a: nat, b: nat)
    requires
        a > 0,
        b > 0,
    ensures
        is_least_common_multiple(a, b, least_common_multiple(a, b)),
{
    let (x, y) = (a as int, b as int);
    lemma_mul_is_commutative(x, y);
    lemma_mod_multiples_basic(x, y);
    lemma_mod_multiples_basic(y, x);
    lemma_mul_strictly_positive(x, y);
    let least = lemma_least_exists(a, b, a * b);
}

/// Every common multiple is a multiple of the least one.
pub proof fn lemma_lcm_divides(a: nat, b: nat, n: nat)
    requires
        a > 0,
        b > 0,
        is_common_multiple(a, b, n),
    ensures
        n % least_common_multiple(a, b) == 0,
{
    lemma_lcm_is_least(a, b);
    let (x, y, v) = (a as int, b as int, n as int);
    let m = least_common_multiple(a, b) as int;
    lemma_fundamental_div_mod(v, m);
    lemma_fundamental_div_mod(v, x);
    lemma_fundamental_div_mod(v, y);
    lemma_fundamental_div_mod(m, x);
    lemma_fundamental_div_mod(m, y);
    lemma_mod_bound(v, m);
    let (q, r) = (v / m, v % m);
    let (vx, mx, vy, my) = (v / x, m / x, v / y, m / y);
    if r != 0 {
        assert(r == (vx - mx * q) * x) by (nonlinear_arith)
            requires
                v == m * q + r,
                v == x * vx,
                m == x * mx,
        ;
        assert(r == (vy - my * q) * y) by (nonlinear_arith)
            requires
                v == m * q + r,
                v == y * vy,
                m == y * my,
        ;
        lemma_mod_multiples_basic(vx - mx * q, x);
        lemma_mod_multiples_basic(vy - my * q, y);
        assert(is_common_multiple(a, b, r as nat));
    }
}

}
