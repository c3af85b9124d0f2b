//! Modular arithmetic over the circular address space.
//!
//! Every address and every field value of the core lives in `[0, modulus)`.
//! The spec functions below are the mathematical model; the executable
//! functions compute them without overflow for every `usize` modulus.

use vstd::prelude::*;

verus! {

/// The representative of `n` in `[0, modulus)`.
pub open spec fn normalize(n: int, modulus: int) -> int {
    ((n % modulus) + modulus) % modulus
}

/// `a + b` on the ring of size `modulus`.
pub open spec fn add_mod(a: int, b: int, modulus: int) -> int {
    (a + b) % modulus
}

/// `a - b` on the ring of size `modulus`; never negative.
pub open spec fn sub_mod(a: int, b: int, modulus: int) -> int {
    (a + modulus - b) % modulus
}

/// `a * b` on the ring of size `modulus`.
pub open spec fn mul_mod(a: int, b: int, modulus: int) -> int {
    (a * b) % modulus
}

/// The successor of `n` on the ring; `modulus - 1` wraps to `0`.
pub open spec fn inc_mod(n: int, modulus: int) -> int {
    if n == modulus - 1 {
        0
    } else {
        n + 1
    }
}

/// The predecessor of `n` on the ring; `0` wraps to `modulus - 1`.
pub open spec fn dec_mod(n: int, modulus: int) -> int {
    if n == 0 {
        modulus - 1
    } else {
        n - 1
    }
}

/// Integer quotient `a / b`, or `None` (a division fault) when `b` is zero.
pub open spec fn div_mod(a: int, b: int) -> Option<int> {
    if b == 0 {
        None
    } else {
        Some(a / b)
    }
}

/// Remainder `a % b`, or `None` (a division fault) when `b` is zero.
pub open spec fn mod_mod(a: int, b: int) -> Option<int> {
    if b == 0 {
        None
    } else {
        Some(a % b)
    }
}

/// Normalizing lands in `[0, modulus)` and agrees with the Euclidean remainder.
pub proof fn lemma_normalize_range(n: int, modulus: int)
    requires
        modulus > 0,
    ensures
        0 <= normalize(n, modulus) < modulus,
        normalize(n, modulus) == n % modulus,
{
    let r = n % modulus;
    assert(0 <= r < modulus);
    assert((r + modulus) % modulus == r) by (nonlinear_arith)
        requires
            0 <= r < modulus,
    ;
}

/// Normalizing twice is the same as normalizing once.
pub proof fn lemma_normalize_idempotent(x: int, modulus: int)
    requires
        modulus > 0,
    ensures
        normalize(normalize(x, modulus), modulus) == normalize(x, modulus),
{
    lemma_normalize_range(x, modulus);
    let r = normalize(x, modulus);
    lemma_normalize_range(r, modulus);
    assert(r % modulus == r) by (nonlinear_arith)
        requires
            0 <= r < modulus,
    ;
}

/// Subtracting what was added gives back the start, for values on the ring.
pub proof fn lemma_sub_add_cancel(a: int, b: int, modulus: int)
    requires
        0 <= a < modulus,
        0 <= b < modulus,
    ensures
        sub_mod(add_mod(a, b, modulus), b, modulus) == a,
{
    let s = add_mod(a, b, modulus);
    if a + b < modulus {
        assert((a + b) % modulus == a + b) by (nonlinear_arith)
            requires
                0 <= a + b < modulus,
        ;
        assert((a + modulus) % modulus == a) by (nonlinear_arith)
            requires
                0 <= a < modulus,
        ;
    } else {
        assert((a + b) % modulus == a + b - modulus) by (nonlinear_arith)
            requires
                modulus <= a + b < 2 * modulus,
        ;
        assert(a % modulus == a) by (nonlinear_arith)
            requires
                0 <= a < modulus,
        ;
    }
}

/// Adding back what was subtracted gives back the start, for values on the ring.
pub proof fn lemma_add_sub_cancel(a: int, b: int, modulus: int)
    requires
        0 <= a < modulus,
        0 <= b < modulus,
    ensures
        add_mod(sub_mod(a, b, modulus), b, modulus) == a,
{
    if a >= b {
        assert((a + modulus - b) % modulus == a - b) by (nonlinear_arith)
            requires
                0 <= a - b < modulus,
        ;
        assert(a % modulus == a) by (nonlinear_arith)
            requires
                0 <= a < modulus,
        ;
    } else {
        assert((a + modulus - b) % modulus == a + modulus - b) by (nonlinear_arith)
            requires
                0 <= a + modulus - b < modulus,
        ;
        assert((a + modulus) % modulus == a) by (nonlinear_arith)
            requires
                0 <= a < modulus,
        ;
    }
}

/// Stepping forward is adding one, and stepping back is subtracting one.
pub proof fn lemma_inc_dec_as_add_sub(n: int, modulus: int)
    requires
        0 <= n < modulus,
    ensures
        inc_mod(n, modulus) == add_mod(n, 1, modulus),
        dec_mod(n, modulus) == sub_mod(n, 1, modulus),
        0 <= inc_mod(n, modulus) < modulus,
        0 <= dec_mod(n, modulus) < modulus,
        dec_mod(inc_mod(n, modulus), modulus) == n,
        inc_mod(dec_mod(n, modulus), modulus) == n,
{
    assert((n + 1) % modulus == if n == modulus - 1 { 0 } else { n + 1 }) by (nonlinear_arith)
        requires
            0 <= n < modulus,
    ;
    assert((n + modulus - 1) % modulus == if n == 0 { modulus - 1 } else { n - 1 })
        by (nonlinear_arith)
        requires
            0 <= n < modulus,
    ;
}

/// Wraps a signed offset onto the ring: negative offsets count back from the end.
pub fn negative_mod(n: isize, modulus: usize) -> (r: usize)
    requires
        modulus > 0,
    ensures
        r == normalize(n as int, modulus as int),
        r < modulus,
{
    proof {
        lemma_normalize_range(n as int, modulus as int);
    }
    if n >= 0 {
        let u: usize = n as usize;
        u % modulus
    } else {
        // |n| - 1, which always fits
        let below: usize = (-(n + 1)) as usize;
        let k: usize = below % modulus;
        proof {
            let m = modulus as int;
            let q = (below as int) / m;
            assert(below as int == q * m + k as int) by (nonlinear_arith)
                requires
                    m > 0,
                    q == (below as int) / m,
                    k as int == (below as int) % m,
            ;
            let v = n as int;
            assert(v == -(below as int) - 1);
            assert(v == (-q - 1) * m + (m - 1 - k as int)) by (nonlinear_arith)
                requires
                    below as int == q * m + k as int,
                    v == -(below as int) - 1,
            ;
            vstd::arithmetic::div_mod::lemma_fundamental_div_mod_converse(
                v,
                m,
                -q - 1,
                m - 1 - k as int,
            );
        }
        modulus - 1 - k
    }
}

/// `a + b` on the ring, for values already on it.
pub fn plus_mod(a: usize, b: usize, modulus: usize) -> (r: usize)
    requires
        a < modulus,
        b < modulus,
    ensures
        r == add_mod(a as int, b as int, modulus as int),
        r < modulus,
{
    let room: usize = modulus - b;
    if a >= room {
        proof {
            let (x, y, m) = (a as int, b as int, modulus as int);
            assert((x + y) % m == x + y - m) by (nonlinear_arith)
                requires
                    m <= x + y < 2 * m,
            ;
        }
        a - room
    } else {
        proof {
            let (x, y, m) = (a as int, b as int, modulus as int);
            assert((x + y) % m == x + y) by (nonlinear_arith)
                requires
                    0 <= x + y < m,
            ;
        }
        a + b
    }
}

/// `a - b` on the ring, for values already on it; never underflows.
pub fn minus_mod(a: usize, b: usize, modulus: usize) -> (r: usize)
    requires
        a < modulus,
        b < modulus,
    ensures
        r == sub_mod(a as int, b as int, modulus as int),
        r < modulus,
{
    if b > a {
        proof {
            let (x, y, m) = (a as int, b as int, modulus as int);
            assert((x + m - y) % m == x + m - y) by (nonlinear_arith)
                requires
                    0 <= x + m - y < m,
            ;
        }
        modulus - b + a
    } else {
        proof {
            let (x, y, m) = (a as int, b as int, modulus as int);
            assert((x + m - y) % m == x - y) by (nonlinear_arith)
                requires
                    0 <= x - y < m,
            ;
        }
        a - b
    }
}

/// `a * b` on the ring, for values already on it.
pub fn times_mod(a: usize, b: usize, modulus: usize) -> (r: usize)
    requires
        a < modulus,
        b < modulus,
    ensures
        r == mul_mod(a as int, b as int, modulus as int),
        r < modulus,
{
    assert((a as int) * (b as int) <= 0xffff_ffff_ffff_ffff * 0xffff_ffff_ffff_ffff)
        by (nonlinear_arith)
        requires
            0 <= a as int <= 0xffff_ffff_ffff_ffff,
            0 <= b as int <= 0xffff_ffff_ffff_ffff,
    ;
    let wide: u128 = (a as u128) * (b as u128);
    let r: u128 = wide % (modulus as u128);
    r as usize
}

/// Integer quotient on the ring; `None` reports a division fault.
pub fn quotient_mod(a: usize, b: usize, modulus: usize) -> (r: Option<usize>)
    requires
        a < modulus,
        b < modulus,
    ensures
        r is Some <==> b != 0,
        r matches Some(q) ==> div_mod(a as int, b as int) == Some(q as int) && q < modulus,
{
    if b == 0 {
        None
    } else {
        let q: usize = a / b;
        assert(q <= a) by (nonlinear_arith)
            requires
                q == (a as int) / (b as int),
                b > 0,
                a >= 0,
        ;
        Some(q)
    }
}

/// Remainder on the ring; `None` reports a division fault.
pub fn remainder_mod(a: usize, b: usize, modulus: usize) -> (r: Option<usize>)
    requires
        a < modulus,
        b < modulus,
    ensures
        r is Some <==> b != 0,
        r matches Some(q) ==> mod_mod(a as int, b as int) == Some(q as int) && q < modulus,
{
    if b == 0 {
        None
    } else {
        Some(a % b)
    }
}

/// Steps `*n` back by one on the ring: `0` becomes `modulus - 1`.
pub fn decrement_mod(n: &mut usize, modulus: usize)
    requires
        *old(n) < modulus,
    ensures
        *final(n) == dec_mod(*old(n) as int, modulus as int),
        *final(n) < modulus,
{
    if *n == 0 {
        *n = modulus - 1;
    } else {
        *n -= 1;
    }
}

/// Steps `*n` forward by one on the ring: `modulus - 1` becomes `0`.
pub fn increment_mod(n: &mut usize, modulus: usize)
    requires
        *old(n) < modulus,
    ensures
        *final(n) == inc_mod(*old(n) as int, modulus as int),
        *final(n) < modulus,
{
    if *n == modulus - 1 {
        *n = 0;
    } else {
        *n += 1;
    }
}

} // verus!
