//! The generator's full period: from any state, the 2^64 states it passes
//! through before coming back are all distinct.
use vstd::prelude::*;
use crate::rng::{lcg_next, LCG_INCREMENT, LCG_MULTIPLIER};

verus! {

/// The state reached from `s` after `n` steps of the generator.
pub open spec fn iterate(s: u64, n: nat) -> u64
    decreases n,
{
    if n == 0 {
        s
    } else {
        lcg_next(iterate(s, (n - 1) as nat))
    }
}

/// 2^64, the number of states.
pub open spec fn state_count() -> int {
    0x1_0000_0000_0000_0000int
}

/// `n` is 2^k times the odd number `m`.
spec fn splits_as(n: int, k: nat, m: int) -> bool {
    m % 2 == 1 && n == two_pow(k) * m
}

/// 2^k.
spec fn two_pow(k: nat) -> int
    decreases k,
{
    if k == 0 {
        1
    } else {
        2 * two_pow((k - 1) as nat)
    }
}

/// LCG_MULTIPLIER^n.
spec fn mult_pow(n: nat) -> int
    decreases n,
{
    if n == 0 {
        1
    } else {
        LCG_MULTIPLIER * mult_pow((n - 1) as nat)
    }
}

/// 1 + LCG_MULTIPLIER + ... + LCG_MULTIPLIER^(n-1).
spec fn geo(n: nat) -> int
    decreases n,
{
    if n == 0 {
        0
    } else {
        LCG_MULTIPLIER * geo((n - 1) as nat) + 1
    }
}

proof fn lemma_two_pow_facts(k: nat)
    ensures
        two_pow(k) >= 1,
        k >= 1 ==> two_pow(k) % 2 == 0,
        k >= 64 ==> two_pow(k) >= state_count(),
    decreases k,
{
    if k > 0 {
        lemma_two_pow_facts((k - 1) as nat);
    }
    if k == 64 {
        reveal_with_fuel(two_pow, 65);
    }
}

proof fn lemma_two_pow_adds(a: nat, b: nat)
    ensures
        two_pow(a + b) == two_pow(a) * two_pow(b),
    decreases b,
{
    if b > 0 {
        lemma_two_pow_adds(a, (b - 1) as nat);
        assert(two_pow(a + b) == 2 * two_pow((a + b - 1) as nat));
        assert(two_pow(a) * (2 * two_pow((b - 1) as nat)) == 2 * (two_pow(a) * two_pow(
            (b - 1) as nat,
        ))) by (nonlinear_arith);
    }
}

/// The state after `n` steps in closed form.
proof fn lemma_closed_form(s: u64, n: nat)
    ensures
        mult_pow(n) >= 1,
        geo(n) >= 0,
        iterate(s, n) as int == (mult_pow(n) * s + LCG_INCREMENT * geo(n)) % state_count(),
    decreases n,
{
    let m = state_count();
    if n == 0 {
        vstd::arithmetic::div_mod::lemma_small_mod(s as nat, m as nat);
    } else {
        let k = (n - 1) as nat;
        lemma_closed_form(s, k);
        let p = mult_pow(k) * s + LCG_INCREMENT * geo(k);
        let a = LCG_MULTIPLIER as int;
        let c = LCG_INCREMENT as int;
        let x = iterate(s, k) as int;
        assert(x == p % m);
        assert(mult_pow(n) >= 1 && geo(n) >= 0) by (nonlinear_arith)
            requires
                mult_pow(n) == a * mult_pow(k),
                geo(n) == a * geo(k) + 1,
                mult_pow(k) >= 1,
                geo(k) >= 0,
                a > 0,
        {
        }
        vstd::arithmetic::div_mod::lemma_mul_mod_noop_left(p, a, m);
        vstd::arithmetic::div_mod::lemma_add_mod_noop(x * a, c, m);
        vstd::arithmetic::div_mod::lemma_add_mod_noop(p * a, c, m);
        assert(p * a + c == mult_pow(n) * s + c * geo(n)) by (nonlinear_arith)
            requires
                p == mult_pow(k) * s + c * geo(k),
                mult_pow(n) == a * mult_pow(k),
                geo(n) == a * geo(k) + 1,
        {
        }
    }
}

/// (LCG_MULTIPLIER - 1) * geo(n) == LCG_MULTIPLIER^n - 1.
proof fn lemma_geo_sum(n: nat)
    ensures
        (LCG_MULTIPLIER - 1) * geo(n) == mult_pow(n) - 1,
    decreases n,
{
    if n > 0 {
        let k = (n - 1) as nat;
        lemma_geo_sum(k);
        let a = LCG_MULTIPLIER as int;
        assert((a - 1) * geo(n) == mult_pow(n) - 1) by (nonlinear_arith)
            requires
                (a - 1) * geo(k) == mult_pow(k) - 1,
                mult_pow(n) == a * mult_pow(k),
                geo(n) == a * geo(k) + 1,
        {
        }
    }
}

/// geo(j + k) == LCG_MULTIPLIER^k * geo(j) + geo(k).
proof fn lemma_geo_split(j: nat, k: nat)
    ensures
        geo(j + k) == mult_pow(k) * geo(j) + geo(k),
    decreases k,
{
    if k > 0 {
        let k1 = (k - 1) as nat;
        lemma_geo_split(j, k1);
        let a = LCG_MULTIPLIER as int;
        assert(geo(j + k) == a * geo((j + k1) as nat) + 1);
        assert(a * (mult_pow(k1) * geo(j) + geo(k1)) + 1 == (a * mult_pow(k1)) * geo(j) + (a * geo(
            k1,
        ) + 1)) by (nonlinear_arith);
    }
}

/// LCG_MULTIPLIER^n leaves 1 when divided by 4.
proof fn lemma_mult_pow_mod4(n: nat)
    ensures
        mult_pow(n) % 4 == 1,
    decreases n,
{
    if n > 0 {
        let k = (n - 1) as nat;
        lemma_mult_pow_mod4(k);
        let a = LCG_MULTIPLIER as int;
        assert(a % 4 == 1);
        vstd::arithmetic::div_mod::lemma_mul_mod_noop_left(a, mult_pow(k), 4);
        vstd::arithmetic::div_mod::lemma_mul_mod_noop_right(1, mult_pow(k), 4);
    }
}

/// geo(n) has the parity of n.
proof fn lemma_geo_parity(n: nat)
    ensures
        geo(n) % 2 == n % 2,
    decreases n,
{
    if n > 0 {
        let k = (n - 1) as nat;
        lemma_geo_parity(k);
        let a = LCG_MULTIPLIER as int;
        let g = geo(k);
        assert(a * g + 1 == 2 * ((a / 2) * g) + g + 1) by (nonlinear_arith)
            requires
                a == 2 * (a / 2) + 1,
        {
        }
        vstd::arithmetic::div_mod::lemma_mod_multiples_vanish((a / 2) * g, g + 1, 2);
        assert((g + 1) % 2 == (k + 1) % 2) by {
            vstd::arithmetic::div_mod::lemma_add_mod_noop(g, 1, 2);
            vstd::arithmetic::div_mod::lemma_add_mod_noop(k as int, 1, 2);
        }
    }
}

/// geo(2^k * m) is 2^k times an odd number, for odd m.
proof fn lemma_geo_two_adic(k: nat, m: nat)
    requires
        m % 2 == 1,
    ensures
        two_pow(k) * m >= 0,
        exists|o: int| #[trigger] splits_as(geo((two_pow(k) * m) as nat), k, o),
    decreases k,
{
    lemma_two_pow_facts(k);
    assert(two_pow(k) * m >= 0) by (nonlinear_arith)
        requires
            two_pow(k) >= 1,
    {
    }
    if k == 0 {
        lemma_geo_parity(m);
        assert(geo(m) == two_pow(0) * geo(m));
        assert(splits_as(geo((two_pow(k) * m) as nat), k, geo(m)));
    } else {
        let k1 = (k - 1) as nat;
        lemma_geo_two_adic(k1, m);
        lemma_two_pow_facts(k1);
        let half = two_pow(k1) * m;
        assert(half >= 0) by (nonlinear_arith)
            requires
                two_pow(k1) >= 1,
                half == two_pow(k1) * m,
        {
        }
        let h = half as nat;
        assert(two_pow(k) * m == 2 * half) by (nonlinear_arith)
            requires
                two_pow(k) == 2 * two_pow(k1),
                half == two_pow(k1) * m,
        {
        }
        assert((two_pow(k1) * m) as nat == h);
        let o = choose|o: int| splits_as(geo(h), k1, o);
        lemma_geo_split(h, h);
        assert((h + h) as nat == (two_pow(k) * m) as nat);
        lemma_mult_pow_mod4(h);
        let t = mult_pow(h);
        let q = t / 4;
        assert(t == 4 * q + 1) by {
            vstd::arithmetic::div_mod::lemma_fundamental_div_mod(t, 4);
        }
        let o2 = o * (2 * q + 1);
        let g = geo(h);
        let big = geo((two_pow(k) * m) as nat);
        assert(big == t * g + g);
        assert(big == (2 * q + 1) * (2 * g)) by (nonlinear_arith)
            requires
                big == t * g + g,
                t == 4 * q + 1,
        {
        }
        assert(2 * g == two_pow(k) * o) by (nonlinear_arith)
            requires
                g == two_pow(k1) * o,
                two_pow(k) == 2 * two_pow(k1),
        {
        }
        assert(big == two_pow(k) * o2) by (nonlinear_arith)
            requires
                big == (2 * q + 1) * (2 * g),
                2 * g == two_pow(k) * o,
                o2 == o * (2 * q + 1),
        {
        }
        let r = o / 2;
        assert(o == 2 * r + 1) by {
            vstd::arithmetic::div_mod::lemma_fundamental_div_mod(o, 2);
        }
        assert(o2 == 2 * (2 * r * q + r + q) + 1) by (nonlinear_arith)
            requires
                o == 2 * r + 1,
                o2 == o * (2 * q + 1),
        {
        }
        assert(o2 % 2 == 1) by {
            vstd::arithmetic::div_mod::lemma_mod_multiples_vanish(2 * r * q + r + q, 1, 2);
        }
        assert(splits_as(geo((two_pow(k) * m) as nat), k, o2));
    }
}

/// Every positive number is 2^k times an odd number, with 2^k at most the number.
proof fn lemma_split_two_power(n: nat)
    requires
        n > 0,
    ensures
        exists|k: nat, m: nat| #[trigger] splits_as(n as int, k, m as int) && two_pow(k) <= n,
    decreases n,
{
    if n % 2 == 1 {
        assert(n == two_pow(0) * n);
        assert(splits_as(n as int, 0, n as int));
    } else {
        let h = n / 2;
        lemma_split_two_power(h);
        let (k, m) = choose|k: nat, m: nat| #[trigger] splits_as(h as int, k, m as int) && two_pow(k) <= h;
        assert(two_pow(k + 1) == 2 * two_pow(k));
        assert(n == two_pow(k + 1) * m && two_pow(k + 1) <= n) by (nonlinear_arith)
            requires
                n == 2 * h,
                h == two_pow(k) * m,
                two_pow(k) <= h,
                two_pow(k + 1) == 2 * two_pow(k),
        {
        }
        assert(splits_as(n as int, k + 1, m as int));
    }
}

/// The product of two odd numbers is odd.
proof fn lemma_odd_product(a: int, b: int)
    requires
        a % 2 == 1,
        b % 2 == 1,
    ensures
        (a * b) % 2 == 1,
{
    let x = a / 2;
    let y = b / 2;
    vstd::arithmetic::div_mod::lemma_fundamental_div_mod(a, 2);
    vstd::arithmetic::div_mod::lemma_fundamental_div_mod(b, 2);
    assert(a * b == 2 * (2 * x * y + x + y) + 1) by (nonlinear_arith)
        requires
            a == 2 * x + 1,
            b == 2 * y + 1,
    {
    }
    vstd::arithmetic::div_mod::lemma_mod_multiples_vanish(2 * x * y + x + y, 1, 2);
}

/// Stepping `n` times from `s` lands on `s + geo(n) * q`, modulo 2^64,
/// where `q` is odd.
proof fn lemma_offset_form(s: u64, n: nat) -> (q: int)
    ensures
        q % 2 == 1,
        iterate(s, n) as int == (s + geo(n) * q) % state_count(),
{
    let a = LCG_MULTIPLIER as int;
    let c = LCG_INCREMENT as int;
    let q = (a - 1) * s + c;
    let half = (a - 1) / 2;
    assert(a - 1 == 2 * half);
    assert(q == 2 * (half * s) + c) by (nonlinear_arith)
        requires
            q == (a - 1) * s + c,
            a - 1 == 2 * half,
    {
    }
    vstd::arithmetic::div_mod::lemma_mod_multiples_vanish(half * s, c, 2);
    lemma_closed_form(s, n);
    lemma_geo_sum(n);
    assert(mult_pow(n) * s + c * geo(n) == s + geo(n) * q) by (nonlinear_arith)
        requires
            (a - 1) * geo(n) == mult_pow(n) - 1,
            q == (a - 1) * s + c,
    {
    }
    q
}

/// Stepping `i` and then `j` times is stepping `i + j` times.
proof fn lemma_iterate_adds(s: u64, i: nat, j: nat)
    ensures
        iterate(iterate(s, i), j) == iterate(s, i + j),
    decreases j,
{
    if j > 0 {
        lemma_iterate_adds(s, i, (j - 1) as nat);
    }
}

/// 2^64 is the number of states.
proof fn lemma_two_pow_64()
    ensures
        two_pow(64) == state_count(),
{
    reveal_with_fuel(two_pow, 65);
}

/// Adding `x` to a state leaves it unchanged, modulo 2^64, only where `x` is
/// a multiple of 2^64.
proof fn lemma_fixed_by_multiple(s: u64, x: int)
    requires
        (s + x) % state_count() == s,
    ensures
        x % state_count() == 0,
{
    let m = state_count();
    let r = x % m;
    vstd::arithmetic::div_mod::lemma_mod_bound(x, m);
    vstd::arithmetic::div_mod::lemma_small_mod(s as nat, m as nat);
    vstd::arithmetic::div_mod::lemma_add_mod_noop(s as int, x, m);
    vstd::arithmetic::div_mod::lemma_small_mod(r as nat, m as nat);
    if r != 0 {
        if s + r < m {
            vstd::arithmetic::div_mod::lemma_small_mod((s + r) as nat, m as nat);
        } else {
            vstd::arithmetic::div_mod::lemma_mod_add_multiples_vanish(s + r - m, m);
            vstd::arithmetic::div_mod::lemma_small_mod((s + r - m) as nat, m as nat);
        }
    }
}

/// 2^k times an odd number is no multiple of 2^64 when k < 64.
proof fn lemma_not_multiple(k: nat, w: int)
    requires
        k < 64,
        w % 2 == 1,
    ensures
        (two_pow(k) * w) % state_count() != 0,
{
    let m = state_count();
    let x = two_pow(k) * w;
    if x % m == 0 {
        let t = x / m;
        vstd::arithmetic::div_mod::lemma_fundamental_div_mod(x, m);
        let rest = (64 - k) as nat;
        lemma_two_pow_adds(k, rest);
        lemma_two_pow_64();
        lemma_two_pow_facts(k);
        lemma_two_pow_facts(rest);
        assert(two_pow(k) * w == two_pow(k) * (two_pow(rest) * t)) by (nonlinear_arith)
            requires
                two_pow(k) * w == x,
                x == m * t,
                m == two_pow(k) * two_pow(rest),
        {
        }
        vstd::arithmetic::mul::lemma_mul_equality_converse(two_pow(k), w, two_pow(rest) * t);
        let hp = two_pow(rest) / 2;
        vstd::arithmetic::div_mod::lemma_fundamental_div_mod(two_pow(rest), 2);
        assert(w == 2 * (hp * t)) by (nonlinear_arith)
            requires
                w == two_pow(rest) * t,
                two_pow(rest) == 2 * hp,
        {
        }
        vstd::arithmetic::div_mod::lemma_mod_multiples_vanish(hp * t, 0, 2);
    }
}

/// No state comes back after fewer than 2^64 steps.
proof fn lemma_no_early_return(s: u64, n: nat)
    requires
        0 < n < state_count(),
    ensures
        iterate(s, n) != s,
{
    let q = lemma_offset_form(s, n);
    lemma_split_two_power(n);
    let (k, odd) = choose|k: nat, odd: nat| #[trigger] splits_as(n as int, k, odd as int) && two_pow(k) <= n;
    if k >= 64 {
        lemma_two_pow_facts(k);
    }
    assert(k < 64);
    lemma_geo_two_adic(k, odd);
    assert((two_pow(k) * odd) as nat == n);
    let o = choose|o: int| #[trigger] splits_as(geo(n), k, o);
    let w = o * q;
    lemma_odd_product(o, q);
    let x = geo(n) * q;
    assert(x == two_pow(k) * w) by (nonlinear_arith)
        requires
            x == geo(n) * q,
            geo(n) == two_pow(k) * o,
            w == o * q,
    {
    }
    lemma_not_multiple(k, w);
    if iterate(s, n) == s {
        lemma_fixed_by_multiple(s, x);
    }
}

/// Every state comes back after exactly 2^64 steps.
proof fn lemma_return_after_full_period(s: u64)
    ensures
        iterate(s, state_count() as nat) == s,
{
    let m = state_count();
    let n = m as nat;
    lemma_two_pow_64();
    let q = lemma_offset_form(s, n);
    lemma_geo_two_adic(64, 1);
    assert((two_pow(64) * 1) as nat == n);
    let o = choose|o: int| #[trigger] splits_as(geo(n), 64, o);
    let x = geo(n) * q;
    assert(x == (o * q) * m) by (nonlinear_arith)
        requires
            x == geo(n) * q,
            geo(n) == m * o,
    {
    }
    vstd::arithmetic::div_mod::lemma_mod_multiples_basic(o * q, m);
    vstd::arithmetic::div_mod::lemma_add_mod_noop(s as int, x, m);
    vstd::arithmetic::div_mod::lemma_small_mod(s as nat, m as nat);
    vstd::arithmetic::div_mod::lemma_mod_bound(s as int, m);
}

/// The generator has full period 2^64: from any state, the states after
/// 0, 1, ..., 2^64 - 1 steps are pairwise distinct, and after 2^64 steps it
/// is back where it began.
pub proof fn law_full_period(s: u64, i: nat, j: nat)
    requires
        i < j < state_count(),
    ensures
        iterate(s, i) != iterate(s, j),
        iterate(s, state_count() as nat) == s,
{
    lemma_iterate_adds(s, i, (j - i) as nat);
    lemma_no_early_return(iterate(s, i), (j - i) as nat);
    lemma_return_after_full_period(s);
}

} // verus!
