//! The linear congruential generator that picks commit receivers. It reaches every 64-bit state
//! from every other one, so a search with it always comes to an end.

use vstd::arithmetic::power2::{lemma2_to64, lemma2_to64_rest, lemma_pow2_unfold, pow2};
use vstd::prelude::*;

verus! {

/// The factor of a step.
pub const MULTIPLIER: u64 = 6364136223846793005;

/// The summand of a step.
pub const INCREMENT: u64 = 1442695040888963407;

/// The state after one step.
pub open spec fn step(state: u64) -> u64 {
    state.wrapping_mul(MULTIPLIER).wrapping_add(INCREMENT)
}

/// The state after some steps.
pub open spec fn after(state: u64, steps: nat) -> u64
    decreases steps,
{
    if steps == 0 {
        state
    } else {
        step(after(state, (steps - 1) as nat))
    }
}

/// The state after one step.
pub fn next_state(state: u64) -> (next: u64)
    ensures
        next == step(state),
{
    state.wrapping_mul(MULTIPLIER).wrapping_add(INCREMENT)
}

// The same steps without the limit of 64 bits.
spec fn grown(x: int, steps: nat) -> int
    decreases steps,
{
    if steps == 0 {
        x
    } else {
        MULTIPLIER * grown(x, (steps - 1) as nat) + INCREMENT
    }
}

// 2^j steps take x to (1 + 2^(j+2) * excess(j)) * x + 2^j * odd(j).
spec fn excess(j: nat) -> int
    decreases j,
{
    if j == 0 {
        (MULTIPLIER - 1) / 4
    } else {
        let m = excess((j - 1) as nat);
        m + (pow2(j) * m) * m
    }
}

spec fn odd(j: nat) -> int
    decreases j,
{
    if j == 0 {
        INCREMENT as int
    } else {
        let m = excess((j - 1) as nat);
        odd((j - 1) as nat) * (1 + pow2(j) * m)
    }
}

proof fn lemma_odd(j: nat)
    ensures
        odd(j) % 2 == 1,
    decreases j,
{
    if j > 0 {
        let i = (j - 1) as nat;
        lemma_odd(i);
        lemma_pow2_unfold(j);
        let o = odd(i);
        let m = excess(i);
        let p = pow2(i) as int;
        assert(pow2(j) == 2 * p);
        assert(o * (1 + (2 * p) * m) == o + 2 * (o * (p * m))) by (nonlinear_arith);
        assert(odd(j) == o + 2 * (o * (p * m)));
    }
}

proof fn lemma_grown_adds(x: int, k: nat, n: nat)
    ensures
        grown(x, k + n) == grown(grown(x, k), n),
    decreases n,
{
    if n > 0 {
        lemma_grown_adds(x, k, (n - 1) as nat);
        assert(grown(x, k + n) == MULTIPLIER * grown(x, (k + n - 1) as nat) + INCREMENT);
    }
}

proof fn lemma_power_of_steps(x: int, j: nat)
    ensures
        grown(x, pow2(j)) == x + (4 * pow2(j) * excess(j)) * x + pow2(j) * odd(j),
    decreases j,
{
    if j == 0 {
        assert(pow2(0) == 1) by {
            lemma2_to64();
        }
        assert(grown(x, 1) == MULTIPLIER * x + INCREMENT) by {
            reveal_with_fuel(grown, 2);
        }
        assert(4 * excess(0) == MULTIPLIER - 1);
        assert((MULTIPLIER - 1) * x + x == MULTIPLIER * x) by (nonlinear_arith);
    } else {
        let i = (j - 1) as nat;
        lemma_pow2_unfold(j);
        let p = pow2(i) as int;
        assert(pow2(j) == 2 * p);
        let m = excess(i);
        let o = odd(i);
        lemma_power_of_steps(x, i);
        let y = grown(x, pow2(i));
        lemma_power_of_steps(y, i);
        lemma_grown_adds(x, pow2(i), pow2(i));
        assert(pow2(i) + pow2(i) == pow2(j));
        let z = grown(x, pow2(j));
        assert(y == x + (4 * p * m) * x + p * o);
        assert(z == y + (4 * p * m) * y + p * o);
        let a = 4 * p * m;
        assert((4 * p * m) * x == a * x);
        assert((4 * p * m) * y == a * y);
        assert(z == x + (a * x + a * x + a * (a * x)) + (p * o + p * o + a * (p * o))) by {
            assert(a * y == a * x + a * (a * x) + a * (p * o)) by (nonlinear_arith)
                requires
                    y == x + a * x + p * o,
            ;
        }
        let q = 2 * p;
        assert(excess(j) == m + (q * m) * m);
        assert(odd(j) == o * (1 + q * m));
        let b = 4 * q * excess(j);
        assert(b * x == a * x + a * x + a * (a * x)) by {
            assert(b == a + a + a * a) by (nonlinear_arith)
                requires
                    a == 4 * p * m,
                    q == 2 * p,
                    b == 4 * q * (m + (q * m) * m),
            ;
            assert((a + a + a * a) * x == a * x + a * x + a * (a * x)) by (nonlinear_arith);
        }
        assert(q * odd(j) == p * o + p * o + a * (p * o)) by (nonlinear_arith)
            requires
                a == 4 * p * m,
                q == 2 * p,
                odd(j) == o * (1 + q * m),
        ;
        assert(4 * pow2(j) * excess(j) == b);
    }
}

/// From `x`, some number of steps reaches `target` in its low `j` bits.
proof fn lemma_reaches_low_bits(x: int, target: int, j: nat) -> (r: (nat, int))
    ensures
        grown(x, r.0) == target + r.1 * pow2(j),
    decreases j,
{
    if j == 0 {
        lemma2_to64();
        let p = pow2(j) as int;
        assert((x - target) * p == x - target) by (nonlinear_arith)
            requires
                p == 1,
        ;
        (0, x - target)
    } else {
        let i = (j - 1) as nat;
        let (k, q) = lemma_reaches_low_bits(x, target, i);
        let p = pow2(i) as int;
        lemma_pow2_unfold(j);
        assert(pow2(j) == 2 * p);
        let y = grown(x, k);
        if q % 2 == 0 {
            let h = q / 2;
            assert(q * p == h * (2 * p)) by (nonlinear_arith)
                requires
                    q == 2 * h,
            ;
            assert(h * pow2(j) == h * (2 * p));
            (k, h)
        } else {
            lemma_grown_adds(x, k, pow2(i));
            lemma_power_of_steps(y, i);
            lemma_odd(i);
            let o = odd(i);
            let m = excess(i);
            let w = o / 2;
            let h = q / 2;
            let r = h + 1 + 2 * (m * y) + w;
            assert(y + (4 * p * m) * y + p * o == target + r * (2 * p)) by (nonlinear_arith)
                requires
                    y == target + q * p,
                    q == 2 * h + 1,
                    o == 2 * w + 1,
                    r == h + 1 + 2 * (m * y) + w,
            ;
            assert(r * pow2(j) == r * (2 * p));
            (k + pow2(i), r)
        }
    }
}

proof fn lemma_after_is_grown(state: u64, steps: nat)
    ensures
        after(state, steps) == grown(state as int, steps) % 0x1_0000_0000_0000_0000,
    decreases steps,
{
    if steps > 0 {
        let before = (steps - 1) as nat;
        lemma_after_is_grown(state, before);
        let n = 0x1_0000_0000_0000_0000int;
        let g = grown(state as int, before);
        let s = after(state, before) as int;
        let m = MULTIPLIER as int;
        let c = INCREMENT as int;
        assert(s == g % n);
        let product = (s * m) % n;
        assert(step(after(state, before)) == (product + c) % n) by {
            assert(after(state, before).wrapping_mul(MULTIPLIER) == product);
        }
        vstd::arithmetic::div_mod::lemma_mul_mod_noop_left(g, m, n);
        assert(product == (g * m) % n);
        vstd::arithmetic::div_mod::lemma_add_mod_noop_right(c, g * m, n);
        assert(m * g == g * m) by (nonlinear_arith);
    }
}

/// Every 64-bit state is reached from every other one.
pub proof fn law_every_state_is_reached(from: u64, target: u64) -> (steps: nat)
    ensures
        steps > 0,
        after(from, steps) == target,
{
    let next = step(from);
    let (k, q) = lemma_reaches_low_bits(next as int, target as int, 64);
    lemma_after_is_grown(next, k);
    let n = 0x1_0000_0000_0000_0000int;
    assert(pow2(64) == n) by {
        lemma2_to64();
        lemma2_to64_rest();
    }
    assert(grown(next as int, k) == target + q * n);
    vstd::arithmetic::div_mod::lemma_mod_multiples_vanish(q, target as int, n);
    assert(q * n == n * q) by (nonlinear_arith);
    vstd::arithmetic::div_mod::lemma_small_mod(target as nat, n as nat);
    lemma_step_first(from, k);
    k + 1
}

proof fn lemma_step_first(state: u64, steps: nat)
    ensures
        after(step(state), steps) == after(state, steps + 1),
    decreases steps,
{
    if steps == 0 {
        reveal_with_fuel(after, 2);
    } else {
        lemma_step_first(state, (steps - 1) as nat);
        assert(after(state, steps + 1) == step(after(state, steps)));
    }
}

/// Taking the first step apart from the others leads to the same state.
pub proof fn lemma_first_step_apart(state: u64, steps: nat)
    requires
        steps > 0,
    ensures
        after(state, steps) == after(step(state), (steps - 1) as nat),
{
    lemma_step_first(state, (steps - 1) as nat);
}

} // verus!
