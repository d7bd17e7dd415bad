//! The number theory behind raw RSA: Euclid's lemma, Fermat's little theorem
//! (through the binomial theorem) and the Chinese remainder step for two
//! primes.

use vstd::arithmetic::div_mod::{
    lemma_fundamental_div_mod, lemma_mod_multiples_basic, lemma_mod_multiples_vanish,
    lemma_small_mod,
};
use vstd::arithmetic::power::{lemma_pow0, lemma_pow1, lemma_pow_adds, pow};
use vstd::prelude::*;

verus! {

/// `p` is a prime number.
pub open spec fn is_prime(p: nat) -> bool {
    p > 1 && forall|d: nat| 1 < d < p ==> #[trigger] (p % d) != 0
}

/// A number divisible by `p` is `p` times its quotient.
proof fn lemma_multiple_of(x: int, p: int)
    requires
        p > 0,
        x % p == 0,
    ensures
        x == (x / p) * p,
{
    lemma_fundamental_div_mod(x, p);
    assert(p * (x / p) == (x / p) * p) by (nonlinear_arith);
}

/// Adding a multiple of a number divisible by `p` keeps divisibility by `p`.
proof fn lemma_mod_lin_combo(u: int, v: int, c: int, p: int)
    requires
        p > 0,
        u % p == 0,
        v % p == 0,
    ensures
        (u + c * v) % p == 0,
        (u - c * v) % p == 0,
{
    lemma_multiple_of(u, p);
    lemma_multiple_of(v, p);
    let s = u / p;
    let t = v / p;
    assert(u + c * v == (s + c * t) * p) by (nonlinear_arith)
        requires
            u == s * p,
            v == t * p,
    ;
    assert(u - c * v == (s - c * t) * p) by (nonlinear_arith)
        requires
            u == s * p,
            v == t * p,
    ;
    lemma_mod_multiples_basic(s + c * t, p);
    lemma_mod_multiples_basic(s - c * t, p);
}

/// Greatest common divisor by Euclid's algorithm.
pub open spec fn gcd(x: nat, y: nat) -> nat
    decreases y,
{
    if y == 0 {
        x
    } else {
        gcd(y, x % y)
    }
}

/// The gcd of two numbers, not both zero, is positive and divides both.
proof fn lemma_gcd_divides(x: nat, y: nat)
    requires
        x > 0 || y > 0,
    ensures
        gcd(x, y) > 0,
        x % gcd(x, y) == 0,
        y % gcd(x, y) == 0,
    decreases y,
{
    if y == 0 {
        lemma_mod_multiples_basic(1, x as int);
        lemma_mod_multiples_basic(0, x as int);
    } else {
        lemma_gcd_divides(y, x % y);
        let g = gcd(x, y) as int;
        lemma_fundamental_div_mod(x as int, y as int);
        assert(x == (x / y) * y + x % y) by (nonlinear_arith)
            requires
                x == y * (x / y) + x % y,
        ;
        lemma_mod_lin_combo((x % y) as int, y as int, (x / y) as int, g);
    }
}

/// If `p` divides `x * b` and `y * b`, it divides `gcd(x, y) * b`.
proof fn lemma_gcd_keeps_divisibility(x: nat, y: nat, b: int, p: int)
    requires
        p > 0,
        (x * b) % p == 0,
        (y * b) % p == 0,
    ensures
        (gcd(x, y) * b) % p == 0,
    decreases y,
{
    if y > 0 {
        lemma_fundamental_div_mod(x as int, y as int);
        let q = (x / y) as int;
        let r = (x % y) as int;
        assert(r * b == x * b - q * (y * b)) by (nonlinear_arith)
            requires
                x == y * q + r,
        ;
        lemma_mod_lin_combo(x * b, y * b, q, p);
        lemma_gcd_keeps_divisibility(y, x % y, b, p);
    }
}

/// Euclid's lemma: a prime that divides `a * b` but not `a` divides `b`.
pub proof fn lemma_euclid(p: nat, a: nat, b: int)
    requires
        is_prime(p),
        a % p != 0,
        (a * b) % (p as int) == 0,
    ensures
        b % (p as int) == 0,
{
    let r = a % p;
    lemma_fundamental_div_mod(a as int, p as int);
    let q = (a / p) as int;
    assert(r * b == a * b - q * (p * b)) by (nonlinear_arith)
        requires
            a == p * q + r,
    ;
    lemma_mod_multiples_basic(b, p as int);
    assert((p * b) % (p as int) == 0) by {
        assert(p * b == b * p) by (nonlinear_arith);
    }
    lemma_mod_lin_combo(a * b, p * b, q, p as int);
    lemma_gcd_keeps_divisibility(r, p, b, p as int);
    lemma_gcd_divides(r, p);
    let g = gcd(r, p);
    if g > 1 {
        if g < p {
            assert(p % g != 0);
        } else if g > p {
            lemma_small_mod(p, g);
        } else {
            lemma_small_mod(r, p);
        }
    }
    assert(g == 1);
}

/// Binomial coefficients by Pascal's rule.
pub open spec fn binom(n: nat, k: nat) -> nat
    decreases n,
{
    if k == 0 {
        1
    } else if n == 0 {
        0
    } else {
        binom((n - 1) as nat, (k - 1) as nat) + binom((n - 1) as nat, k)
    }
}

/// There are no ways to choose more than `n` items.
proof fn lemma_binom_above(n: nat, k: nat)
    requires
        k > n,
    ensures
        binom(n, k) == 0,
    decreases n,
{
    if n > 0 {
        lemma_binom_above((n - 1) as nat, (k - 1) as nat);
        lemma_binom_above((n - 1) as nat, k);
    }
}

/// There is one way to choose all `n` items.
proof fn lemma_binom_all(n: nat)
    ensures
        binom(n, n) == 1,
    decreases n,
{
    if n > 0 {
        lemma_binom_all((n - 1) as nat);
        lemma_binom_above((n - 1) as nat, n);
    }
}

/// The absorption identity `k * C(n, k) == n * C(n - 1, k - 1)`.
proof fn lemma_absorption(n: nat, k: nat)
    requires
        n >= 1,
        k >= 1,
    ensures
        k * binom(n, k) == n * binom((n - 1) as nat, (k - 1) as nat),
    decreases n,
{
    if n == 1 {
        if k > 1 {
            lemma_binom_above(1, k);
            lemma_binom_above(0, (k - 1) as nat);
            let x = binom(n, k) as int;
            let y = binom((n - 1) as nat, (k - 1) as nat) as int;
            assert(k * x == n * y) by (nonlinear_arith)
                requires
                    x == 0,
                    y == 0,
            ;
        } else {
            assert(binom(0, 1) == 0);
            assert(binom(1, 1) == 1);
        }
    } else if k == 1 {
        lemma_absorption((n - 1) as nat, 1);
        assert(binom(n, 1) == binom((n - 1) as nat, 0) + binom((n - 1) as nat, 1));
        assert(binom((n - 1) as nat, 0) == 1);
        assert(binom((n - 2) as nat, 0) == 1);
        assert(binom((n - 1) as nat, 1) == n - 1);
        assert(binom(n, 1) == n);
        assert(n * binom((n - 1) as nat, 0) == n * 1);
    } else {
        lemma_absorption((n - 1) as nat, k);
        lemma_absorption((n - 1) as nat, (k - 1) as nat);
        let a = binom((n - 1) as nat, (k - 1) as nat) as int;
        let b = binom((n - 1) as nat, k) as int;
        let c = binom((n - 2) as nat, (k - 2) as nat) as int;
        let d = binom((n - 2) as nat, (k - 1) as nat) as int;
        assert(binom(n, k) == a + b);
        assert(a == c + d);
        let kk = k as int;
        let nn = n as int;
        assert(kk * (a + b) == nn * a) by (nonlinear_arith)
            requires
                kk * b == (nn - 1) * d,
                (kk - 1) * a == (nn - 1) * c,
                a == c + d,
        ;
    }
}

/// A prime divides `C(p, k)` for `0 < k < p`.
proof fn lemma_prime_divides_binom(p: nat, k: nat)
    requires
        is_prime(p),
        0 < k < p,
    ensures
        (binom(p, k) as int) % (p as int) == 0,
{
    lemma_absorption(p, k);
    let c = binom((p - 1) as nat, (k - 1) as nat) as int;
    lemma_mod_multiples_basic(c, p as int);
    assert(k * binom(p, k) == c * p) by (nonlinear_arith)
        requires
            k * binom(p, k) == p * c,
    ;
    lemma_small_mod(k, p);
    lemma_euclid(p, k, binom(p, k) as int);
}

/// The first `j` terms of the binomial expansion of `(a + 1) ^ n`:
/// the sum of `C(n, k) * a ^ k` for `k < j`.
pub open spec fn binom_sum(n: nat, a: int, j: nat) -> int
    decreases j,
{
    if j == 0 {
        0
    } else {
        binom_sum(n, a, (j - 1) as nat) + binom(n, (j - 1) as nat) * pow(a, (j - 1) as nat)
    }
}

/// Pascal's rule lifted to the partial sums.
proof fn lemma_binom_sum_pascal(n: nat, a: int, j: nat)
    ensures
        binom_sum(n + 1, a, j + 1) == binom_sum(n, a, j + 1) + a * binom_sum(n, a, j),
    decreases j,
{
    if j == 0 {
        lemma_pow0(a);
        assert(binom_sum(n + 1, a, 0) == 0);
        assert(binom_sum(n, a, 0) == 0);
        assert(binom((n + 1) as nat, 0) == 1);
        assert(binom(n, 0) == 1);
        assert(pow(a, 0) == 1);
        assert(binom_sum(n + 1, a, 1) == binom_sum(n + 1, a, 0) + binom(n + 1, 0) * pow(a, 0));
        assert(binom_sum(n, a, 1) == binom_sum(n, a, 0) + binom(n, 0) * pow(a, 0));
        assert(binom_sum(n + 1, a, 1) == 1);
        assert(binom_sum(n, a, 1) == 1);
        assert(a * binom_sum(n, a, 0) == a * 0);
    } else {
        lemma_binom_sum_pascal(n, a, (j - 1) as nat);
        lemma_pow_adds(a, (j - 1) as nat, 1);
        lemma_pow1(a);
        let pj = pow(a, j);
        let pj1 = pow(a, (j - 1) as nat);
        let s_up_j = binom_sum(n + 1, a, j);
        let s_j1 = binom_sum(n, a, j + 1);
        let s_j = binom_sum(n, a, j);
        let s_jm = binom_sum(n, a, (j - 1) as nat);
        let c_up = binom(n + 1, j) as int;
        let c_j = binom(n, j) as int;
        let c_jm = binom(n, (j - 1) as nat) as int;
        assert(binom_sum(n + 1, a, j + 1) == s_up_j + c_up * pj);
        assert(c_up == c_jm + c_j);
        assert(s_j1 == s_j + c_j * pj);
        assert(s_j == s_jm + c_jm * pj1);
        assert(s_up_j + c_up * pj == s_j1 + a * s_j) by (nonlinear_arith)
            requires
                s_up_j == s_j + a * s_jm,
                c_up == c_jm + c_j,
                pj == pj1 * a,
                s_j1 == s_j + c_j * pj,
                s_j == s_jm + c_jm * pj1,
        ;
    }
}

/// The binomial theorem: `(a + 1) ^ n` is the sum of `C(n, k) * a ^ k`.
pub proof fn lemma_binomial(a: int, n: nat)
    ensures
        pow(a + 1, n) == binom_sum(n, a, n + 1),
    decreases n,
{
    if n == 0 {
        lemma_pow0(a + 1);
        lemma_pow0(a);
        assert(binom_sum(0, a, 0) == 0);
        assert(binom(0, 0) == 1);
        assert(pow(a, 0) == 1);
        assert(binom_sum(0, a, 1) == binom_sum(0, a, 0) + binom(0, 0) * pow(a, 0));
        assert(binom_sum(0, a, 1) == 1);
    } else {
        let m = (n - 1) as nat;
        lemma_binomial(a, m);
        lemma_binom_sum_pascal(m, a, n);
        lemma_binom_above(m, n);
        assert(binom_sum(m, a, n + 1) == binom_sum(m, a, n) + binom(m, n) * pow(a, n));
        assert(binom(m, n) * pow(a, n) == 0 * pow(a, n));
        lemma_pow_adds(a + 1, m, 1);
        lemma_pow1(a + 1);
        let s = binom_sum(m, a, n);
        assert(pow(a + 1, m) * (a + 1) == s + a * s) by (nonlinear_arith)
            requires
                pow(a + 1, m) == s,
        ;
    }
}

/// Modulo a prime, the expansion of `(a + 1) ^ p` without its last term is 1.
proof fn lemma_binom_sum_prime(p: nat, a: int, j: nat)
    requires
        is_prime(p),
        1 <= j <= p,
    ensures
        (binom_sum(p, a, j) - 1) % (p as int) == 0,
    decreases j,
{
    if j == 1 {
        lemma_pow0(a);
        assert(binom_sum(p, a, 0) == 0);
        assert(binom(p, 0) == 1);
        assert(pow(a, 0) == 1);
        assert(binom_sum(p, a, 1) == binom_sum(p, a, 0) + binom(p, 0) * pow(a, 0));
        assert(binom_sum(p, a, 1) == 1);
        lemma_mod_multiples_basic(0, p as int);
    } else {
        let k = (j - 1) as nat;
        lemma_binom_sum_prime(p, a, k);
        lemma_prime_divides_binom(p, k);
        let c = binom(p, k) as int;
        let x = pow(a, k);
        lemma_mod_lin_combo(binom_sum(p, a, k) - 1, c, x, p as int);
        assert(x * c == c * x) by (nonlinear_arith);
    }
}

/// Fermat's little theorem: `a ^ p` is `a` modulo a prime `p`.
pub proof fn lemma_fermat(a: nat, p: nat)
    requires
        is_prime(p),
    ensures
        (pow(a as int, p) - a) % (p as int) == 0,
    decreases a,
{
    if a == 0 {
        lemma_pow_adds(0, (p - 1) as nat, 1);
        lemma_pow1(0);
        let x = pow(0, (p - 1) as nat);
        assert(x * 0 == 0) by (nonlinear_arith);
        lemma_mod_multiples_basic(0, p as int);
    } else {
        let b = (a - 1) as nat;
        lemma_fermat(b, p);
        lemma_binomial(b as int, p);
        lemma_binom_all(p);
        lemma_binom_sum_prime(p, b as int, p);
        let x = pow(b as int, p);
        assert(binom_sum(p, b as int, p + 1) == binom_sum(p, b as int, p) + 1 * x);
        lemma_mod_lin_combo(binom_sum(p, b as int, p) - 1, x - b, 1, p as int);
    }
}

/// `m ^ (1 + j * (p - 1))` is `m` modulo a prime `p`.
proof fn lemma_fermat_iterate(m: nat, p: nat, j: nat)
    requires
        is_prime(p),
    ensures
        (pow(m as int, (1 + j * (p - 1)) as nat) - m) % (p as int) == 0,
    decreases j,
{
    if j == 0 {
        lemma_pow1(m as int);
        lemma_mod_multiples_basic(0, p as int);
    } else {
        let i = (j - 1) as nat;
        lemma_fermat_iterate(m, p, i);
        let e0 = (i * (p - 1)) as nat;
        assert(e0 + p == 1 + j * (p - 1) && e0 + 1 == 1 + i * (p - 1)) by (nonlinear_arith)
            requires
                e0 == i * (p - 1),
                i + 1 == j,
                p > 1,
        ;
        lemma_pow_adds(m as int, e0, p);
        lemma_pow_adds(m as int, e0, 1);
        lemma_pow1(m as int);
        lemma_fermat(m, p);
        let a = pow(m as int, e0);
        let xp = pow(m as int, p);
        let x1 = pow(m as int, e0 + 1);
        assert(pow(m as int, e0 + p) - m == (x1 - m) + a * (xp - m)) by (nonlinear_arith)
            requires
                pow(m as int, e0 + p) == a * xp,
                x1 == a * m,
        ;
        lemma_mod_lin_combo(x1 - m, xp - m, a, p as int);
    }
}

/// A number divisible by two different primes is divisible by their product.
proof fn lemma_two_primes(x: int, p: nat, q: nat)
    requires
        is_prime(p),
        is_prime(q),
        p != q,
        x % (p as int) == 0,
        x % (q as int) == 0,
    ensures
        x % ((p * q) as int) == 0,
{
    lemma_multiple_of(x, p as int);
    let s = x / (p as int);
    assert(p * s == x) by (nonlinear_arith)
        requires
            x == s * p,
    ;
    if p % q == 0 {
        if q < p {
            assert(p % q != 0);
        } else {
            lemma_small_mod(p, q);
        }
    }
    lemma_euclid(q, p, s);
    lemma_multiple_of(s, q as int);
    let t = s / (q as int);
    assert(x == t * (p * q)) by (nonlinear_arith)
        requires
            x == s * p,
            s == t * q,
    ;
    assert(p * q > 0) by (nonlinear_arith)
        requires
            p > 1,
            q > 1,
    ;
    lemma_mod_multiples_basic(t, (p * q) as int);
}

/// Raw RSA round trip on numbers: with `n = p * q` for two different primes
/// and `65537 * d` equal to 1 modulo both `p - 1` and `q - 1` (that is, modulo
/// the Carmichael function of `n`), raising `m ^ d mod n` to 65537 modulo `n`
/// gives back every `m < n`.
pub proof fn lemma_rsa_roundtrip(p: nat, q: nat, d: nat, m: nat)
    requires
        is_prime(p),
        is_prime(q),
        p != q,
        d >= 1,
        (65537 * d - 1) % ((p - 1) as int) == 0,
        (65537 * d - 1) % ((q - 1) as int) == 0,
        m < p * q,
    ensures
        pow(pow(m as int, d) % ((p * q) as int), 65537) % ((p * q) as int) == m,
{
    let n = (p * q) as int;
    assert(n > 0) by (nonlinear_arith)
        requires
            p > 1,
            q > 1,
            n == p * q,
    ;
    let e: nat = 65537;
    vstd::arithmetic::power::lemma_pow_mod_noop(pow(m as int, d), e, n);
    vstd::arithmetic::power::lemma_pow_multiplies(m as int, d, e);
    let de = (d * e) as nat;
    let k = 65537 * d - 1;
    lemma_multiple_of(k, (p - 1) as int);
    lemma_multiple_of(k, (q - 1) as int);
    let jp = k / ((p - 1) as int);
    let jq = k / ((q - 1) as int);
    assert(jp >= 0 && jq >= 0) by (nonlinear_arith)
        requires
            k >= 0,
            k == jp * (p - 1),
            k == jq * (q - 1),
            p > 1,
            q > 1,
    ;
    assert(1 + (jp as nat) * (p - 1) == de && 1 + (jq as nat) * (q - 1) == de) by (nonlinear_arith)
        requires
            k == jp * (p - 1),
            k == jq * (q - 1),
            k == 65537 * d - 1,
            de == d * 65537,
            jp >= 0,
            jq >= 0,
    ;
    lemma_fermat_iterate(m, p, jp as nat);
    lemma_fermat_iterate(m, q, jq as nat);
    let x = pow(m as int, de) - m;
    lemma_two_primes(x, p, q);
    lemma_multiple_of(x, n);
    lemma_mod_multiples_vanish(x / n, m as int, n);
    assert(pow(m as int, de) == n * (x / n) + m) by (nonlinear_arith)
        requires
            x == (x / n) * n,
            x == pow(m as int, de) - m,
    ;
    lemma_small_mod(m, n as nat);
}

} // verus!
