//! Compound interest on a fixed-point grid.
//!
//! An amount is carried with `FIXED_POINT_SCALE` as its unit and grows once per
//! second by the protocol rate, each step rounded down. Whole tokens are read
//! back by rounding down again, so every figure here is a floor.
use vstd::prelude::*;
use vstd::arithmetic::div_mod::{
    lemma_div_is_ordered, lemma_div_multiples_vanish, lemma_fundamental_div_mod,
    lemma_hoist_over_denominator,
};
use vstd::arithmetic::power2::{pow2, lemma2_to64, lemma_pow2_unfold};
use crate::constants::{INTEREST_RATE_TENTHBPS, MAX_RESERVE_TOKEN_AMOUNT, RATE_DENOMINATOR};

verus! {

/// Number of fixed-point units in one token.
pub const FIXED_POINT_SCALE: u128 = 1_000_000_000_000;

/// Seconds over which any positive scaled amount at least doubles.
pub const DOUBLING_SECONDS: u64 = 2858;

/// One second of compounding on a scaled amount, rounded down.
pub open spec fn grow_step(b: nat) -> nat {
    b + b * (INTEREST_RATE_TENTHBPS as nat) / (RATE_DENOMINATOR as nat)
}

/// The scaled value of `principal` after `seconds` seconds of compounding.
pub open spec fn grown(principal: nat, seconds: nat) -> nat
    decreases seconds,
{
    if seconds == 0 {
        principal * (FIXED_POINT_SCALE as nat)
    } else {
        grow_step(grown(principal, (seconds - 1) as nat))
    }
}

/// Whole tokens of interest owed on `principal` locked for `seconds`.
pub open spec fn interest_owed(principal: nat, seconds: nat) -> int {
    (grown(principal, seconds) / (FIXED_POINT_SCALE as nat)) as int - principal
}

/// `interest_owed`, saturated at the largest `u64`.
pub open spec fn capped_interest(principal: nat, seconds: nat) -> u64 {
    if interest_owed(principal, seconds) > u64::MAX {
        u64::MAX
    } else {
        interest_owed(principal, seconds) as u64
    }
}

/// `seconds` is the longest lock for which `principal` with its interest
/// stays within `max_reserve`.
pub open spec fn is_max_admissible(principal: nat, max_reserve: nat, seconds: nat) -> bool {
    &&& grown(principal, seconds) <= max_reserve * (FIXED_POINT_SCALE as nat)
    &&& max_reserve * (FIXED_POINT_SCALE as nat) < grown(principal, seconds + 1)
}

proof fn lemma_step_monotone(a: nat, b: nat)
    requires
        a <= b,
    ensures
        grow_step(a) == a + a * 35 / 100_000,
        grow_step(b) == b + b * 35 / 100_000,
        grow_step(a) <= grow_step(b),
        a * 35 / 100_000 <= b * 35 / 100_000,
{
    assert(a * 35 <= b * 35) by (nonlinear_arith)
        requires
            a <= b,
    ;
    lemma_div_is_ordered((a * 35) as int, (b * 35) as int, 100_000);
}

/// Compounding never loses: a step adds at least what the smaller amount adds.
proof fn lemma_step_superadditive(b: nat, x: nat)
    ensures
        grow_step(b + x) >= grow_step(b) + x,
{
    lemma_step_monotone(b, b + x);
}

/// A step adds `k` whole units once the amount is `k * 2858` units or more.
proof fn lemma_step_gains(b: nat, k: nat)
    requires
        b >= k * 2858,
    ensures
        grow_step(b) >= b + k,
{
    assert(k * 100_000 <= b * 35) by (nonlinear_arith)
        requires
            b >= k * 2858,
    ;
    lemma_div_is_ordered((k * 100_000) as int, (b * 35) as int, 100_000);
    lemma_div_multiples_vanish(k as int, 100_000);
}

/// A zero principal never grows.
proof fn lemma_grown_zero(seconds: nat)
    ensures
        grown(0, seconds) == 0,
    decreases seconds,
{
    if seconds > 0 {
        lemma_grown_zero((seconds - 1) as nat);
    }
}

/// The scaled amount never falls below the scaled principal.
pub proof fn lemma_grown_lower(principal: nat, seconds: nat)
    ensures
        grown(principal, seconds) >= principal * (FIXED_POINT_SCALE as nat),
    decreases seconds,
{
    if seconds > 0 {
        lemma_grown_lower(principal, (seconds - 1) as nat);
    }
}

/// Over `later` further seconds, an amount gains at least `later` times what
/// its first second adds.
proof fn lemma_grown_run(principal: nat, seconds: nat, later: nat)
    ensures
        grown(principal, seconds + later) >= grown(principal, seconds) + later * (grown(
            principal,
            seconds,
        ) * 35 / 100_000),
    decreases later,
{
    let b = grown(principal, seconds);
    let g = b * 35 / 100_000;
    if later == 0 {
        assert(later * g == 0);
    } else {
        let prev = (later - 1) as nat;
        lemma_grown_run(principal, seconds, prev);
        let x = grown(principal, seconds + prev);
        assert(x >= b + prev * g);
        assert(x >= b) by (nonlinear_arith)
            requires
                x >= b + prev * g,
        ;
        lemma_step_monotone(b, x);
        assert((seconds + later - 1) as nat == seconds + prev);
        assert(grown(principal, seconds + later) == grow_step(x));
        assert(grow_step(x) >= x + g);
        assert(later * g == prev * g + g) by (nonlinear_arith)
            requires
                later == prev + 1,
        ;
    }
}

/// The scaled amount is non-decreasing in time.
pub proof fn lemma_grown_monotone_seconds(principal: nat, s1: nat, s2: nat)
    requires
        s1 <= s2,
    ensures
        grown(principal, s1) <= grown(principal, s2),
{
    lemma_grown_run(principal, s1, (s2 - s1) as nat);
    assert((s2 - s1) as nat * (grown(principal, s1) * 35 / 100_000) >= 0) by (nonlinear_arith);
    assert(s1 + (s2 - s1) as nat == s2);
}

/// A positive principal grows strictly every second, and by whole tokens
/// every second once it is at least 2858 tokens.
pub proof fn lemma_grown_gains(principal: nat, s1: nat, s2: nat)
    requires
        principal >= 1,
        s1 <= s2,
    ensures
        grown(principal, s2) >= grown(principal, s1) + (s2 - s1),
        principal >= DOUBLING_SECONDS ==> grown(principal, s2) >= grown(principal, s1) + (s2
            - s1) * (FIXED_POINT_SCALE as nat),
    decreases s2,
{
    if s1 < s2 {
        let prev = (s2 - 1) as nat;
        lemma_grown_gains(principal, s1, prev);
        let x = grown(principal, prev);
        lemma_grown_lower(principal, prev);
        assert(principal * (FIXED_POINT_SCALE as nat) >= 2858) by (nonlinear_arith)
            requires
                principal >= 1,
        ;
        lemma_step_gains(x, 1);
        if principal >= DOUBLING_SECONDS {
            assert(principal * (FIXED_POINT_SCALE as nat) >= (FIXED_POINT_SCALE as nat) * 2858)
                by (nonlinear_arith)
                requires
                    principal >= 2858,
            ;
            lemma_step_gains(x, FIXED_POINT_SCALE as nat);
            assert((s2 - s1) * (FIXED_POINT_SCALE as nat) == (prev - s1) * (
            FIXED_POINT_SCALE as nat) + (FIXED_POINT_SCALE as nat)) by (nonlinear_arith)
                requires
                    s2 == prev + 1,
            ;
        }
    }
}

/// A larger principal stays ahead by at least the scaled difference.
pub proof fn lemma_grown_principal(p1: nat, p2: nat, seconds: nat)
    requires
        p1 <= p2,
    ensures
        grown(p2, seconds) >= grown(p1, seconds) + (p2 - p1) * (FIXED_POINT_SCALE as nat),
    decreases seconds,
{
    if seconds == 0 {
        assert(p2 * (FIXED_POINT_SCALE as nat) == p1 * (FIXED_POINT_SCALE as nat) + (p2 - p1) * (
        FIXED_POINT_SCALE as nat)) by (nonlinear_arith)
            requires
                p1 <= p2,
        ;
    } else {
        let prev = (seconds - 1) as nat;
        lemma_grown_principal(p1, p2, prev);
        let a = grown(p1, prev);
        let d = ((p2 - p1) * (FIXED_POINT_SCALE as nat)) as nat;
        lemma_step_monotone(a + d, grown(p2, prev));
        lemma_step_superadditive(a, d);
    }
}

/// Any positive principal at least doubles every `DOUBLING_SECONDS` seconds.
proof fn lemma_grown_doubles(principal: nat, seconds: nat)
    requires
        principal >= 1,
    ensures
        grown(principal, seconds + 2858) >= 2 * grown(principal, seconds),
{
    let b = grown(principal, seconds);
    let g = b * 35 / 100_000;
    lemma_grown_run(principal, seconds, 2858);
    lemma_grown_lower(principal, seconds);
    assert(b >= 1_000_000_000_000) by (nonlinear_arith)
        requires
            principal >= 1,
            b >= principal * 1_000_000_000_000,
    ;
    lemma_fundamental_div_mod((b * 35) as int, 100_000);
    assert(2858 * g >= b) by (nonlinear_arith)
        requires
            b * 35 == 100_000 * g + (b * 35) % 100_000,
            (b * 35) % 100_000 < 100_000,
            b >= 1_000_000_000_000,
    ;
}

/// After `DOUBLING_SECONDS * m` seconds a positive principal has grown by
/// a factor of at least `2^m`.
proof fn lemma_grown_exponential(principal: nat, m: nat)
    requires
        principal >= 1,
    ensures
        grown(principal, 2858 * m) >= pow2(m) * (FIXED_POINT_SCALE as nat),
    decreases m,
{
    if m == 0 {
        lemma_grown_lower(principal, 0);
        lemma2_to64();
        assert(principal * (FIXED_POINT_SCALE as nat) >= FIXED_POINT_SCALE as nat)
            by (nonlinear_arith)
            requires
                principal >= 1,
        ;
    } else {
        let prev = (m - 1) as nat;
        lemma_grown_exponential(principal, prev);
        lemma_grown_doubles(principal, 2858 * prev);
        assert(2858 * prev + 2858 == 2858 * m);
        lemma_pow2_unfold(m);
        assert(pow2(m) == 2 * pow2(prev));
        assert(pow2(m) * (FIXED_POINT_SCALE as nat) == 2 * (pow2(prev) * (
        FIXED_POINT_SCALE as nat))) by (nonlinear_arith)
            requires
                pow2(m) == 2 * pow2(prev),
        ;
    }
}

/// After 182_912 seconds any positive principal exceeds every `u64` amount
/// of tokens.
pub proof fn lemma_grown_beyond_u64(principal: nat)
    requires
        principal >= 1,
    ensures
        grown(principal, 182_912) > (u64::MAX as nat) * (FIXED_POINT_SCALE as nat),
{
    lemma_grown_exponential(principal, 64);
    lemma2_to64();
    assert(pow2(64) * (FIXED_POINT_SCALE as nat) > (u64::MAX as nat) * (FIXED_POINT_SCALE as nat))
        by (nonlinear_arith)
        requires
            pow2(64) == 0x10000000000000000,
    ;
}

/// One second of compounding on a scaled amount.
fn step(b: u128) -> (r: u128)
    requires
        b <= 0x1_0000_0000_0000_0000_0000_0000_0000,
    ensures
        r == grow_step(b as nat),
{
    assert(b * 35 <= 0x100_0000_0000_0000_0000_0000_0000_0000) by (nonlinear_arith)
        requires
            b <= 0x1_0000_0000_0000_0000_0000_0000_0000,
    ;
    b + b * (INTEREST_RATE_TENTHBPS as u128) / (RATE_DENOMINATOR as u128)
}

/// Interest owed on `principal` locked for `seconds` at the protocol rate,
/// in whole tokens, rounded down and saturated at the largest `u64`.
pub fn accrued_interest(principal: u64, seconds: u64) -> (r: u64)
    ensures
        r == capped_interest(principal as nat, seconds as nat),
{
    let ghost p = principal as nat;
    if principal == 0 {
        proof {
            lemma_grown_zero(seconds as nat);
        }
        return 0;
    }
    // Once the scaled amount reaches this, the interest exceeds every u64.
    let ceiling: u128 = (principal as u128 + u64::MAX as u128 + 1) * FIXED_POINT_SCALE;
    let mut b: u128 = principal as u128 * FIXED_POINT_SCALE;
    let mut i: u64 = 0;
    assert(ceiling <= 0x1_0000_0000_0000_0000_0000_0000_0000) by (nonlinear_arith)
        requires
            ceiling == (p + u64::MAX + 1) * 1_000_000_000_000,
            p <= u64::MAX,
    ;
    while i < seconds
        invariant
            p == principal as nat,
            i <= seconds,
            ceiling <= 0x1_0000_0000_0000_0000_0000_0000_0000,
            b == grown(p, i as nat),
            b < ceiling,
            ceiling == (p + u64::MAX + 1) * (FIXED_POINT_SCALE as nat),
        decreases seconds - i,
    {
        b = step(b);
        i = i + 1;
        if b >= ceiling {
            proof {
                lemma_grown_monotone_seconds(p, i as nat, seconds as nat);
                lemma_div_is_ordered(ceiling as int, grown(p, seconds as nat) as int, 1_000_000_000_000);
                lemma_div_multiples_vanish((p + u64::MAX + 1) as int, 1_000_000_000_000);
                assert(grown(p, seconds as nat) / (FIXED_POINT_SCALE as nat) >= p + u64::MAX + 1);
                assert(interest_owed(p, seconds as nat) > u64::MAX);
            }
            return u64::MAX;
        }
    }
    proof {
        lemma_grown_lower(p, seconds as nat);
        lemma_div_is_ordered(b as int, ceiling as int, 1_000_000_000_000);
        lemma_div_multiples_vanish((p + u64::MAX + 1) as int, 1_000_000_000_000);
        lemma_div_is_ordered((p * 1_000_000_000_000) as int, b as int, 1_000_000_000_000);
        lemma_div_multiples_vanish(p as int, 1_000_000_000_000);
        if b / FIXED_POINT_SCALE == p + u64::MAX + 1 {
            lemma_fundamental_div_mod(b as int, 1_000_000_000_000);
        }
    }
    (b / FIXED_POINT_SCALE - principal as u128) as u64
}

/// The longest lock, in seconds, for which `principal` together with its
/// interest stays within `max_reserve`: the floor of the solution `d` of
/// `principal * (1 + rate)^d = max_reserve`. No principal above the reserve
/// is admitted, and a zero principal never reaches it.
pub fn max_admissible_duration(principal: u64, max_reserve: u64) -> (r: u64)
    ensures
        principal == 0 ==> r == u64::MAX,
        principal > max_reserve ==> r == 0,
        0 < principal <= max_reserve ==> is_max_admissible(
            principal as nat,
            max_reserve as nat,
            r as nat,
        ),
{
    if principal == 0 {
        return u64::MAX;
    }
    if principal > max_reserve {
        return 0;
    }
    let ghost p = principal as nat;
    let limit: u128 = max_reserve as u128 * FIXED_POINT_SCALE;
    let mut b: u128 = principal as u128 * FIXED_POINT_SCALE;
    let mut next: u128 = step(b);
    let mut d: u64 = 0;
    proof {
        lemma_grown_beyond_u64(p);
    }
    while next <= limit
        invariant
            1 <= p <= max_reserve,
            limit == max_reserve * (FIXED_POINT_SCALE as nat),
            b == grown(p, d as nat),
            next == grown(p, d as nat + 1),
            b <= limit,
            d < 182_912,
            grown(p, 182_912) > (u64::MAX as nat) * (FIXED_POINT_SCALE as nat),
        decreases limit - b,
    {
        proof {
            lemma_grown_gains(p, d as nat, d as nat + 1);
            if d + 1 >= 182_912 {
                lemma_grown_monotone_seconds(p, 182_912, d as nat + 1);
                assert((max_reserve as nat) * (FIXED_POINT_SCALE as nat) <= (u64::MAX as nat) * (
                FIXED_POINT_SCALE as nat)) by (nonlinear_arith)
                    requires
                        max_reserve <= u64::MAX,
                ;
            }
        }
        b = next;
        d = d + 1;
        next = step(b);
    }
    d
}

/// The longest admissible lock for a deposit of `deposit_lamports` against
/// the protocol's reserve cap.
pub fn max_time(deposit_lamports: u64) -> (r: u64)
    ensures
        deposit_lamports == 0 ==> r == u64::MAX,
        deposit_lamports > MAX_RESERVE_TOKEN_AMOUNT ==> r == 0,
        0 < deposit_lamports <= MAX_RESERVE_TOKEN_AMOUNT ==> is_max_admissible(
            deposit_lamports as nat,
            MAX_RESERVE_TOKEN_AMOUNT as nat,
            r as nat,
        ),
{
    max_admissible_duration(deposit_lamports, MAX_RESERVE_TOKEN_AMOUNT)
}

/// Interest owed is never negative.
pub proof fn lemma_interest_nonnegative(principal: nat, seconds: nat)
    ensures
        interest_owed(principal, seconds) >= 0,
        interest_owed(principal, seconds) == grown(principal, seconds) as int / 1_000_000_000_000
            - principal,
{
    lemma_grown_lower(principal, seconds);
    lemma_div_is_ordered(
        (principal * 1_000_000_000_000) as int,
        grown(principal, seconds) as int,
        1_000_000_000_000,
    );
    lemma_div_multiples_vanish(principal as int, 1_000_000_000_000);
}

/// Interest never falls as a lock grows longer. With a principal of at least
/// `DOUBLING_SECONDS` tokens, every extra second adds at least one token of
/// interest until the figure saturates.
pub proof fn lemma_interest_monotone_in_duration(principal: u64, s1: u64, s2: u64)
    requires
        s1 < s2,
    ensures
        capped_interest(principal as nat, s1 as nat) <= capped_interest(principal as nat, s2 as nat),
        principal >= DOUBLING_SECONDS && capped_interest(principal as nat, s2 as nat) < u64::MAX
            ==> capped_interest(principal as nat, s1 as nat) < capped_interest(
            principal as nat,
            s2 as nat,
        ),
{
    let p = principal as nat;
    let g1 = grown(p, s1 as nat);
    let g2 = grown(p, s2 as nat);
    lemma_interest_nonnegative(p, s1 as nat);
    lemma_interest_nonnegative(p, s2 as nat);
    lemma_grown_monotone_seconds(p, s1 as nat, s2 as nat);
    lemma_div_is_ordered(g1 as int, g2 as int, 1_000_000_000_000);
    if principal >= DOUBLING_SECONDS {
        lemma_grown_gains(p, s1 as nat, s2 as nat);
        assert((s2 - s1) * 1_000_000_000_000 >= 1_000_000_000_000) by (nonlinear_arith)
            requires
                s1 < s2,
        ;
        lemma_div_is_ordered(g1 as int + 1_000_000_000_000, g2 as int, 1_000_000_000_000);
        lemma_hoist_over_denominator(g1 as int, 1, 1_000_000_000_000);
    }
}

/// Interest never falls as the principal grows, for a fixed lock.
pub proof fn lemma_interest_monotone_in_principal(p1: u64, p2: u64, seconds: u64)
    requires
        p1 <= p2,
    ensures
        capped_interest(p1 as nat, seconds as nat) <= capped_interest(p2 as nat, seconds as nat),
{
    let g1 = grown(p1 as nat, seconds as nat);
    let g2 = grown(p2 as nat, seconds as nat);
    let k = (p2 - p1) as int;
    lemma_interest_nonnegative(p1 as nat, seconds as nat);
    lemma_interest_nonnegative(p2 as nat, seconds as nat);
    lemma_grown_principal(p1 as nat, p2 as nat, seconds as nat);
    lemma_div_is_ordered(g1 + k * 1_000_000_000_000, g2 as int, 1_000_000_000_000);
    lemma_hoist_over_denominator(g1 as int, k, 1_000_000_000_000);
}

} // verus!
