//! Numbers as binary floating point holds them, by whole numbers alone.
//!
//! A percentage is computed and printed from a floating-point number, which
//! holds the nearest binary fraction with so many digits. Where a half is to be
//! rounded, it is that fraction that decides: a twentieth of a percent prints as
//! `0.1`, since the fraction next to it is a little more.

use vstd::prelude::*;

verus! {

/// A double holds whole numbers below this, the 53rd power of two.
pub const DOUBLE_LIMIT: u128 = 0x20_0000_0000_0000;

/// A single holds whole numbers below this, the 24th power of two.
pub const SINGLE_LIMIT: u128 = 0x100_0000;

/// `n / d` to the nearest whole number, a half going to the even one.
pub open spec fn half_even(n: int, d: int) -> int {
    let q = n / d;
    let r = n % d;
    if 2 * r < d || (2 * r == d && q % 2 == 0) {
        q
    } else {
        q + 1
    }
}

/// `n / d` to the nearest whole number, a half going to the even one.
pub fn round_half_even(n: u128, d: u128) -> (r: u128)
    requires
        0 < d <= 0x8000_0000_0000_0000_0000_0000_0000_0000,
    ensures
        r == half_even(n as int, d as int),
        r <= n + 1,
        r <= n as int / d as int + 1,
{
    let q: u128 = n / d;
    let rest: u128 = n % d;
    assert(q <= n && (d == 1 ==> rest == 0) && (d >= 2 ==> 2 * q <= n)) by (nonlinear_arith)
        requires
            q == n / d,
            rest == n % d,
            d > 0,
    ;
    if rest < d - rest || (rest == d - rest && q % 2 == 0) {
        q
    } else {
        q + 1
    }
}

/// `n / d`, below the limit of whole numbers, as a binary fraction: doubled until
/// it is at least half of the limit, rounded there, and halved again. `limit` is
/// that limit times `d`.
pub open spec fn held_below(n: int, d: int, limit: int) -> (int, int)
    decreases limit - n,
{
    if 0 < n && 2 * n < limit {
        let r = held_below(2 * n, d, limit);
        (r.0, 2 * r.1)
    } else {
        (half_even(n, d), 1)
    }
}

/// `n / d` as a binary fraction, over and under the line. One beyond the limit
/// of whole numbers is halved until it is below, and doubled again.
pub open spec fn held(n: int, d: int, limit: int) -> (int, int)
    decreases
            (if n >= limit {
                n - limit + 1
            } else {
                0
            }),
{
    if 0 < limit <= n {
        let r = held(n, 2 * d, 2 * limit);
        (2 * r.0, r.1)
    } else {
        held_below(n, d, limit)
    }
}

/// `n / d` as a double holds it.
pub open spec fn double(n: int, d: int) -> (int, int) {
    held(n, d, DOUBLE_LIMIT * d)
}

/// `n / d` as a single holds it.
pub open spec fn single(n: int, d: int) -> (int, int) {
    held(n, d, SINGLE_LIMIT * d)
}

/// A whole number as a double holds it.
pub open spec fn whole_double(n: int) -> int {
    if n < DOUBLE_LIMIT {
        n
    } else {
        double(n, 1).0
    }
}

/// `n / d` as a binary fraction; `limit` is the limit of whole numbers times `d`.
fn hold(n: u128, d: u128, limit: u128) -> (r: (u128, u128))
    requires
        n <= 0x400_0000_0000_0000_0000,
        0 < d <= 0x4_0000_0000_0000_0000,
        SINGLE_LIMIT * d <= limit <= DOUBLE_LIMIT * d,
    ensures
        (r.0 as int, r.1 as int) == held(n as int, d as int, limit as int),
        r.0 <= 2 * n + DOUBLE_LIMIT,
        0 < r.1 <= limit,
        n > 0 ==> r.0 > 0,
        n >= limit ==> r.0 <= 2 * n,
{
    let ghost whole = held(n as int, d as int, limit as int);
    let ghost start = limit;
    let mut twos: u128 = 1;
    let mut under: u128 = d;
    let mut limit: u128 = limit;
    while n >= limit
        invariant
            n <= 0x400_0000_0000_0000_0000,
            0 < d <= under,
            0 < twos <= under,
            twos * d == under,
            SINGLE_LIMIT * under <= limit <= DOUBLE_LIMIT * under,
            start <= limit,
            twos == 1 ==> under == d && limit == start,
            twos > 1 ==> under <= n && limit <= 2 * n && n >= start,
            d <= 0x4_0000_0000_0000_0000,
            whole == (
                twos * held(n as int, under as int, limit as int).0,
                held(n as int, under as int, limit as int).1,
            ),
        decreases
                (if n >= limit {
                    n - limit + 1
                } else {
                    0
                }),
    {
        proof {
            let inner = held(n as int, 2 * under as int, 2 * limit as int).0;
            assert(twos * (2 * inner) == (2 * twos) * inner) by (nonlinear_arith);
            assert((2 * twos) * d == 2 * under) by (nonlinear_arith)
                requires
                    twos * d == under,
            ;
        }
        twos = 2 * twos;
        under = 2 * under;
        limit = 2 * limit;
    }
    let ghost rest = held_below(n as int, under as int, limit as int);
    let mut over: u128 = n;
    let mut halves: u128 = 1;
    while 0 < over && 2 * over < limit
        invariant
            n <= 0x400_0000_0000_0000_0000,
            limit <= 0x80_0000_0000_0000_0000_0000_0000_0000,
            n <= over,
            n < limit,
            over < limit || over == n,
            over == 0 ==> n == 0,
            0 < halves,
            halves == 1 ==> over == n,
            halves > 1 ==> halves <= over && 2 * n < limit,
            rest == (
                held_below(over as int, under as int, limit as int).0,
                halves * held_below(over as int, under as int, limit as int).1,
            ),
        decreases limit - over,
    {
        proof {
            let inner = held_below(2 * over as int, under as int, limit as int).1;
            assert(halves * (2 * inner) == (2 * halves) * inner) by (nonlinear_arith);
        }
        halves = 2 * halves;
        over = 2 * over;
    }
    let m: u128 = round_half_even(over, under);
    proof {
        assert(m <= DOUBLE_LIMIT && m * under <= over + under && (2 * over >= limit ==> m > 0)) by (
        nonlinear_arith)
            requires
                m <= over as int / under as int + 1,
                m == half_even(over as int, under as int),
                0 < under,
                over < limit,
                SINGLE_LIMIT * under <= limit <= DOUBLE_LIMIT * under,
                SINGLE_LIMIT == 16777216,
                DOUBLE_LIMIT == 9007199254740992,
        ;
        assert(twos * m <= m * under) by (nonlinear_arith)
            requires
                twos <= under,
                0 <= m,
        ;
        assert(n > 0 ==> twos * m > 0) by (nonlinear_arith)
            requires
                twos > 0,
                n > 0 ==> m > 0,
        ;
        if twos == 1 {
            assert(twos * m == m) by (nonlinear_arith)
                requires
                    twos == 1,
            ;
        }
    }
    (twos * m, halves)
}

/// `n / d` as a double holds it.
pub fn as_double(n: u128, d: u128) -> (r: (u128, u128))
    requires
        n <= 0x400_0000_0000_0000_0000,
        0 < d <= 0x4_0000_0000_0000_0000,
    ensures
        (r.0 as int, r.1 as int) == double(n as int, d as int),
        r.0 <= 2 * n + DOUBLE_LIMIT,
        0 < r.1 <= DOUBLE_LIMIT * d,
{
    hold(n, d, DOUBLE_LIMIT * d)
}

/// `n / d` as a single holds it.
pub fn as_single(n: u128, d: u128) -> (r: (u128, u128))
    requires
        n <= 0x400_0000_0000_0000_0000,
        0 < d <= 0x4_0000_0000_0000_0000,
    ensures
        (r.0 as int, r.1 as int) == single(n as int, d as int),
        r.0 <= 2 * n + DOUBLE_LIMIT,
        0 < r.1 <= SINGLE_LIMIT * d,
{
    hold(n, d, SINGLE_LIMIT * d)
}

/// A whole number as a double holds it.
pub fn as_whole_double(n: u128) -> (r: u128)
    requires
        n <= 0x400_0000_0000_0000_0000,
    ensures
        r == whole_double(n as int),
        r <= 2 * n,
        n > 0 ==> r > 0,
{
    if n < DOUBLE_LIMIT {
        n
    } else {
        hold(n, 1, DOUBLE_LIMIT).0
    }
}

proof fn lemma_held_below(n: int, d: int, limit: int)
    requires
        0 <= n,
        0 < d,
    ensures
        ({
            let r = held_below(n, d, limit);
            &&& r.1 > 0
            &&& -d <= 2 * (r.0 * d - n * r.1) <= d
        }),
    decreases limit - n,
{
    if 0 < n && 2 * n < limit {
        lemma_held_below(2 * n, d, limit);
        let r = held_below(2 * n, d, limit);
        assert((2 * n) * r.1 == n * (2 * r.1)) by (nonlinear_arith);
    } else {
        let q = n / d;
        assert(n == q * d + n % d && 0 <= n % d < d && (q + 1) * d == q * d + d) by (
        nonlinear_arith)
            requires
                q == n / d,
                d > 0,
        ;
    }
}

/// What is held of a fraction below the limit is its nearest multiple: no more
/// than half of a step away.
pub proof fn law_held_is_nearest(n: int, d: int, limit: int)
    requires
        0 <= n < limit,
        0 < d,
    ensures
        ({
            let r = held(n, d, limit);
            &&& r.1 > 0
            &&& -d <= 2 * (r.0 * d - n * r.1) <= d
        }),
{
    lemma_held_below(n, d, limit);
}

/// A whole number below the limit is held as it is.
pub proof fn law_whole_numbers_are_exact(n: int)
    requires
        0 <= n < DOUBLE_LIMIT,
    ensures
        double(n, 1).0 == n * double(n, 1).1,
        whole_double(n) == n,
{
    lemma_held_below(n, 1, DOUBLE_LIMIT as int);
}

proof fn lemma_held_below_fine(n: int, d: int, limit: int)
    requires
        0 < n,
    ensures
        2 * n * held_below(n, d, limit).1 >= limit || limit <= 2 * n,
        held_below(n, d, limit).1 >= 1,
    decreases limit - n,
{
    if 2 * n < limit {
        lemma_held_below_fine(2 * n, d, limit);
        let r = held_below(2 * n, d, limit).1;
        assert(2 * (2 * n) * r == 2 * n * (2 * r)) by (nonlinear_arith);
        if limit <= 2 * (2 * n) {
            assert(2 * n * (2 * r) >= 4 * n) by (nonlinear_arith)
                requires
                    n > 0,
                    r >= 1,
            ;
        }
    }
}

/// What is held of a fraction below the limit has as many digits as there is room
/// for: twice the fraction, in steps, reaches the limit.
pub proof fn law_held_uses_all_digits(n: int, d: int, limit: int)
    requires
        0 < n < limit,
    ensures
        2 * n * held(n, d, limit).1 >= limit,
        held(n, d, limit).1 >= 1,
{
    lemma_held_below_fine(n, d, limit);
    let r = held(n, d, limit).1;
    if limit <= 2 * n {
        assert(2 * n * r >= 2 * n) by (nonlinear_arith)
            requires
                n > 0,
                r >= 1,
        ;
    }
}

/// A half goes to the even number, and everything else to the nearest.
pub proof fn law_rounding_goes_to_the_nearest(n: int, d: int)
    requires
        0 < d,
    ensures
        -d <= 2 * (half_even(n, d) * d - n) <= d,
        2 * (half_even(n, d) * d - n) == d || 2 * (half_even(n, d) * d - n) == -d ==> half_even(n, d)
            % 2 == 0,
{
    let q = n / d;
    assert(n == q * d + n % d && 0 <= n % d < d && (q + 1) * d == q * d + d) by (nonlinear_arith)
        requires
            q == n / d,
            d > 0,
    ;
}

} // verus!
