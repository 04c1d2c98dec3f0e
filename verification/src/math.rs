//! Integer division helpers for the fixed-point signal path.
//!
//! Ghost-code `/` and `%` are Euclidean, while the signal path needs a
//! floor-based fractional part for possibly negative phase accumulators and
//! a truncating (toward zero) division for gain scaling.  The executable
//! helpers here compute on unsigned magnitudes and carry contracts that tie
//! them back to the ghost operators.

use vstd::prelude::*;
use vstd::arithmetic::div_mod::{
    lemma_fundamental_div_mod,
    lemma_fundamental_div_mod_converse,
    lemma_mod_bound,
    lemma_mod_multiples_basic,
};

verus! {

/// Truncating division (round toward zero) of `n` by a positive divisor `d`.
pub open spec fn tdiv(n: int, d: int) -> int
    recommends
        d > 0,
{
    if n >= 0 {
        n / d
    } else {
        -((-n) / d)
    }
}

/// Floor division of `n` by a positive divisor `d`.
///
/// For a positive divisor the ghost `/` is already floor division, so the
/// contract is stated with `/` directly; the bounds say that the quotient
/// never grows in magnitude and keeps the sign of `n`.
pub fn floor_div(n: i128, d: u64) -> (q: i128)
    requires
        d > 0,
        n > i128::MIN,
    ensures
        q == n as int / d as int,
        n >= 0 ==> 0 <= q <= n,
        n < 0 ==> n <= q <= 0,
{
    let du: u128 = d as u128;
    if n >= 0 {
        let nu: u128 = n as u128;
        let qu: u128 = nu / du;
        proof {
            lemma_fundamental_div_mod(nu as int, du as int);
            lemma_mod_bound(nu as int, du as int);
            assert(qu <= nu) by (nonlinear_arith)
                requires
                    du >= 1,
                    nu as int == du as int * qu as int + (nu as int % du as int),
                    0 <= nu as int % du as int,
                    qu >= 0,
            ;
        }
        qu as i128
    } else {
        // Round the magnitude up, so the signed quotient rounds down.
        let m: u128 = (-n) as u128;
        let qc: u128 = (m + du - 1) / du;
        proof {
            let mi: int = m as int;
            let di: int = du as int;
            let qi: int = qc as int;
            lemma_fundamental_div_mod(mi + di - 1, di);
            lemma_mod_bound(mi + di - 1, di);
            let s: int = (mi + di - 1) % di;
            assert(mi + di - 1 == di * qi + s);
            let r: int = di - 1 - s;
            assert(qi * di == di * qi) by (nonlinear_arith);
            assert(n as int == (-qi) * di + r) by (nonlinear_arith)
                requires
                    n as int == -mi,
                    mi + di - 1 == di * qi + s,
                    r == di - 1 - s,
            ;
            lemma_fundamental_div_mod_converse(n as int, di, -qi, r);
            assert(qi <= mi) by (nonlinear_arith)
                requires
                    di >= 1,
                    mi >= 1,
                    qi >= 0,
                    mi + di - 1 == di * qi + s,
                    0 <= s,
            ;
        }
        -(qc as i128)
    }
}

/// Euclidean (always non-negative) remainder of `n` modulo a positive `m`.
pub fn euclid_mod(n: i128, m: u64) -> (r: u64)
    requires
        m > 0,
        n > i128::MIN,
    ensures
        r as int == n as int % m as int,
        r < m,
{
    let mu: u128 = m as u128;
    if n >= 0 {
        let k: u128 = (n as u128) % mu;
        proof {
            lemma_mod_bound(n as int, m as int);
        }
        k as u64
    } else {
        let a: u128 = (-n) as u128;
        let k: u128 = a % mu;
        proof {
            let ai: int = a as int;
            let mi: int = mu as int;
            let ki: int = k as int;
            lemma_fundamental_div_mod(ai, mi);
            lemma_mod_bound(ai, mi);
            let q: int = ai / mi;
            if ki == 0 {
                assert(n as int == (-q) * mi) by (nonlinear_arith)
                    requires
                        n as int == -ai,
                        ai == mi * q + ki,
                        ki == 0,
                ;
                lemma_mod_multiples_basic(-q, mi);
            } else {
                assert(n as int == (-q - 1) * mi + (mi - ki)) by (nonlinear_arith)
                    requires
                        n as int == -ai,
                        ai == mi * q + ki,
                ;
                lemma_fundamental_div_mod_converse(n as int, mi, -q - 1, mi - ki);
            }
        }
        if k == 0 {
            0
        } else {
            m - (k as u64)
        }
    }
}

/// Truncating division of `n` by a positive divisor `d`, i.e. [`tdiv`].
pub fn trunc_div(n: i64, d: u64) -> (q: i64)
    requires
        d > 0,
        n > i64::MIN,
    ensures
        q == tdiv(n as int, d as int),
        n >= 0 ==> 0 <= q <= n,
        n < 0 ==> n <= q <= 0,
{
    if n >= 0 {
        let nu: u64 = n as u64;
        let qu: u64 = nu / d;
        proof {
            lemma_fundamental_div_mod(nu as int, d as int);
            lemma_mod_bound(nu as int, d as int);
            assert(qu <= nu) by (nonlinear_arith)
                requires
                    d >= 1,
                    nu as int == d as int * qu as int + (nu as int % d as int),
                    0 <= nu as int % d as int,
                    qu >= 0,
            ;
        }
        qu as i64
    } else {
        let a: u64 = (-n) as u64;
        let qu: u64 = a / d;
        proof {
            lemma_fundamental_div_mod(a as int, d as int);
            lemma_mod_bound(a as int, d as int);
            assert(qu <= a) by (nonlinear_arith)
                requires
                    d >= 1,
                    a as int == d as int * qu as int + (a as int % d as int),
                    0 <= a as int % d as int,
                    qu >= 0,
            ;
        }
        -(qu as i64)
    }
}

} // verus!
