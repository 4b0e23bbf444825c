//! Round schedule: the number of full and partial rounds for a width.
//!
//! A schedule `(rf, rp)` is secure when `rf` reaches each of the bounds of the
//! statistical, interpolation and two Groebner-basis attacks, for an S-box `x^5`,
//! a security level of `SECURITY_LEVEL` bits and a nominal field size of
//! `NOMINAL_FIELD_BITS` bits. Fractional coefficients are kept exact in hundredths.
//! In the interpolation bound `ceil(0.43 * M + log2 t)`, the fractional part
//! `2^0.04` of `2^(0.43 * M)` is taken as `FRAC_POW_NUM / FRAC_POW_DEN`, rounded up.

use vstd::prelude::*;
use crate::error::ParamError;

verus! {

/// Smallest supported width (arity one).
pub const MIN_WIDTH: usize = 2;

/// Largest supported width.
pub const MAX_WIDTH: usize = 64;

/// Security level, in bits.
pub const SECURITY_LEVEL: u64 = 128;

/// Field size, in bits, that the security bounds are computed for.
pub const NOMINAL_FIELD_BITS: u64 = 255;

/// Largest number of full rounds searched.
pub const MAX_SEARCH_FULL: usize = 1000;

/// Bound (exclusive) on the number of partial rounds searched.
pub const MAX_SEARCH_PARTIAL: usize = 200;

/// `2^0.04`, rounded up to five decimals: numerator.
pub const FRAC_POW_NUM: u64 = 102812;

/// `2^0.04`, rounded up to five decimals: denominator.
pub const FRAC_POW_DEN: u64 = 100000;

/// The least `k >= j` (at most 64) with `2^k >= 2^0.04 * t`: from `j == 0`, this is
/// `ceil(0.04 + log2 t)`.
pub open spec fn frac_log2_ceil(t: nat, j: nat) -> nat
    decreases 64 - j,
{
    if j >= 64 || crate::round_constants::pow2(j) * FRAC_POW_DEN >= FRAC_POW_NUM * t {
        j
    } else {
        frac_log2_ceil(t, j + 1)
    }
}

/// `ceil(a / b)` for `b > 0`, and 0 when `a <= 0`.
pub open spec fn ceil_div_pos(a: int, b: int) -> int {
    if a <= 0 || b <= 0 {
        0
    } else {
        (a + b - 1) / b
    }
}

pub open spec fn stat_bound(t: int) -> int {
    if SECURITY_LEVEL <= (NOMINAL_FIELD_BITS - 3) * (t + 1) {
        6
    } else {
        10
    }
}

/// `ceil(0.43 * M + log2 t) - rp`.
pub open spec fn interp_bound(t: int, rp: int) -> int {
    (43 * SECURITY_LEVEL) / 100 + frac_log2_ceil(t as nat, 0) - rp
}

/// `ceil(0.21 * n) - rp`.
pub open spec fn grobner1_bound(rp: int) -> int {
    ceil_div_pos(21 * NOMINAL_FIELD_BITS, 100) - rp
}

/// `ceil((0.14 * n - 1 - rp) / (t - 1))`.
pub open spec fn grobner2_bound(t: int, rp: int) -> int {
    ceil_div_pos(14 * NOMINAL_FIELD_BITS - 100 - 100 * rp, 100 * (t - 1))
}

/// The schedule with `rf` full and `rp` partial rounds resists the known attacks.
pub open spec fn is_secure(t: int, rf: int, rp: int) -> bool {
    rf >= stat_bound(t) && rf >= interp_bound(t, rp) && rf >= grobner1_bound(rp) && rf
        >= grobner2_bound(t, rp)
}

/// A point of the search space.
pub open spec fn in_search(rf: int, rp: int) -> bool {
    2 <= rf <= MAX_SEARCH_FULL && rf % 2 == 0 && 4 <= rp < MAX_SEARCH_PARTIAL
}

/// The schedule taken for a secure point: with the security margin, two more full
/// rounds and 7.5% more partial rounds, rounded up.
pub open spec fn with_margin(security: bool, rf: int, rp: int) -> (int, int) {
    if security {
        (rf + 2, (43 * rp + 39) / 40)
    } else {
        (rf, rp)
    }
}

/// Number of S-boxes that a schedule evaluates.
pub open spec fn sbox_cost(t: int, s: (int, int)) -> int {
    t * s.0 + s.1
}

/// `s` is at least as good as `best`: fewer S-boxes, or as many and no more full rounds.
pub open spec fn no_better(t: int, s: (int, int), best: (int, int)) -> bool {
    sbox_cost(t, s) > sbox_cost(t, best) || (sbox_cost(t, s) == sbox_cost(t, best) && s.0
        >= best.0)
}

/// The schedule that `calc_round_numbers` picks: the margin applied to a secure
/// point of the search, with the fewest S-boxes, and among those the fewest full rounds.
pub open spec fn is_chosen_schedule(t: int, security: bool, s: (int, int)) -> bool {
    &&& exists|rf: int, rp: int|
        in_search(rf, rp) && is_secure(t, rf, rp) && s == with_margin(security, rf, rp)
    &&& forall|rf: int, rp: int|
        in_search(rf, rp) && #[trigger] is_secure(t, rf, rp) ==> no_better(
            t,
            with_margin(security, rf, rp),
            s,
        )
}

pub open spec fn valid_width(width: int) -> bool {
    MIN_WIDTH <= width <= MAX_WIDTH
}

proof fn lemma_ceil_div_le(a: int, b: int)
    requires
        b >= 1,
    ensures
        ceil_div_pos(a, b) <= if a > 0 { a } else { 0 },
        b >= 100 ==> ceil_div_pos(a, b) <= if a > 0 { a / 100 + 1 } else { 0 },
{
    if a > 0 {
        assert((a + b - 1) / b <= a) by (nonlinear_arith)
            requires
                a > 0,
                b >= 1,
        ;
        if b >= 100 {
            assert((a + b - 1) / b <= a / b + 1) by (nonlinear_arith)
                requires
                    a > 0,
                    b >= 1,
            ;
            assert(a / b <= a / 100) by (nonlinear_arith)
                requires
                    a > 0,
                    b >= 100,
            ;
        }
    }
}

proof fn lemma_frac_log2_le(t: nat, j: nat)
    requires
        j <= 64,
    ensures
        frac_log2_ceil(t, j) <= 64,
    decreases 64 - j,
{
    if j < 64 {
        lemma_frac_log2_le(t, j + 1);
    }
}

fn exec_frac_log2_ceil(t: u64) -> (r: u64)
    requires
        t <= 64,
    ensures
        r == frac_log2_ceil(t as nat, 0),
{
    let mut j: u64 = 0;
    let mut p: u64 = 1;
    while j < 64 && p * FRAC_POW_DEN < FRAC_POW_NUM * t
        invariant
            t <= 64,
            j <= 64,
            p == crate::round_constants::pow2(j as nat),
            p <= 128,
            frac_log2_ceil(t as nat, j as nat) == frac_log2_ceil(t as nat, 0),
        decreases 64 - j,
    {
        p = p * 2;
        j = j + 1;
    }
    j
}

fn exec_ceil_div_pos(a: i64, b: i64) -> (r: i64)
    requires
        -1000000 <= a <= 1000000,
        0 < b <= 1000000,
    ensures
        r == ceil_div_pos(a as int, b as int),
{
    if a <= 0 {
        0
    } else {
        (a + b - 1) / b
    }
}

fn check_secure(t: usize, rf: usize, rp: usize) -> (r: bool)
    requires
        valid_width(t as int),
        in_search(rf as int, rp as int),
    ensures
        r == is_secure(t as int, rf as int, rp as int),
{
    proof {
        lemma_frac_log2_le(t as nat, 0);
    }
    let stat: i64 = if SECURITY_LEVEL <= (NOMINAL_FIELD_BITS - 3) * (t as u64 + 1) {
        6
    } else {
        10
    };
    let interp: i64 = ((43 * SECURITY_LEVEL) / 100) as i64 + exec_frac_log2_ceil(t as u64) as i64
        - rp as i64;
    let grob1: i64 = exec_ceil_div_pos((21 * NOMINAL_FIELD_BITS) as i64, 100) - rp as i64;
    let grob2: i64 = exec_ceil_div_pos(
        (14 * NOMINAL_FIELD_BITS) as i64 - 100 - 100 * rp as i64,
        100 * (t as i64 - 1),
    );
    let f = rf as i64;
    f >= stat && f >= interp && f >= grob1 && f >= grob2
}

/// Computes `(full_rounds, partial_rounds)` for `width`, with the security margin
/// when `security` is set. `full_rounds` is always even.
pub fn calc_round_numbers(width: usize, security: bool) -> (r: Result<(usize, usize), ParamError>)
    ensures
        r is Err <==> !valid_width(width as int),
        r is Err ==> r == Err::<(usize, usize), ParamError>(ParamError::InvalidWidth),
        r matches Ok((rf, rp)) ==> {
            &&& is_chosen_schedule(width as int, security, (rf as int, rp as int))
            &&& rf % 2 == 0
            &&& rf <= MAX_SEARCH_FULL + 2
            &&& rp <= MAX_SEARCH_PARTIAL + 15
        },
{
    if width < MIN_WIDTH || width > MAX_WIDTH {
        return Err(ParamError::InvalidWidth);
    }
    let t = width;
    let mut found = false;
    let mut best_rf: usize = 0;
    let mut best_rp: usize = 0;
    let mut rf: usize = 2;
    while rf <= MAX_SEARCH_FULL
        invariant
            valid_width(t as int),
            2 <= rf <= MAX_SEARCH_FULL + 2,
            rf % 2 == 0,
            best_rf <= MAX_SEARCH_FULL + 2,
            best_rp <= MAX_SEARCH_PARTIAL + 15,
            found ==> {
                &&& exists|a: int, b: int|
                    in_search(a, b) && is_secure(t as int, a, b) && (best_rf as int, best_rp as int)
                        == with_margin(security, a, b)
                &&& best_rf % 2 == 0
            },
            forall|a: int, b: int|
                in_search(a, b) && a < rf && #[trigger] is_secure(t as int, a, b) ==> found && no_better(
                    t as int,
                    with_margin(security, a, b),
                    (best_rf as int, best_rp as int),
                ),
        decreases MAX_SEARCH_FULL + 2 - rf,
    {
        let mut rp: usize = 4;
        while rp < MAX_SEARCH_PARTIAL
            invariant
                valid_width(t as int),
                2 <= rf <= MAX_SEARCH_FULL,
                rf % 2 == 0,
                4 <= rp <= MAX_SEARCH_PARTIAL,
                best_rf <= MAX_SEARCH_FULL + 2,
                best_rp <= MAX_SEARCH_PARTIAL + 15,
                found ==> {
                    &&& exists|a: int, b: int|
                        in_search(a, b) && is_secure(t as int, a, b) && (
                        best_rf as int,
                        best_rp as int,
                    ) == with_margin(security, a, b)
                    &&& best_rf % 2 == 0
                },
                forall|a: int, b: int|
                    in_search(a, b) && (a < rf || (a == rf && b < rp)) && #[trigger] is_secure(t as int, a, b)
                        ==> found && no_better(
                        t as int,
                        with_margin(security, a, b),
                        (best_rf as int, best_rp as int),
                    ),
            decreases MAX_SEARCH_PARTIAL - rp,
        {
            if check_secure(t, rf, rp) {
                let (crf, crp) = if security {
                    (rf + 2, (43 * rp + 39) / 40)
                } else {
                    (rf, rp)
                };
                assert(t * crf <= 64 * 1002) by (nonlinear_arith)
                    requires
                        t <= 64,
                        crf <= 1002,
                ;
                assert(t * best_rf <= 64 * 1002) by (nonlinear_arith)
                    requires
                        t <= 64,
                        best_rf <= 1002,
                ;
                let cost = t * crf + crp;
                let best_cost = t * best_rf + best_rp;
                if !found || cost < best_cost || (cost == best_cost && crf < best_rf) {
                    best_rf = crf;
                    best_rp = crp;
                    found = true;
                    assert(in_search(rf as int, rp as int) && is_secure(t as int, rf as int, rp as int)
                        && (best_rf as int, best_rp as int) == with_margin(
                        security,
                        rf as int,
                        rp as int,
                    ));
                }
            }
            rp = rp + 1;
        }
        rf = rf + 2;
    }
    proof {
        lemma_frac_log2_le(t as nat, 0);
        lemma_ceil_div_le(14 * NOMINAL_FIELD_BITS - 100 - 100 * 4, 100 * (t - 1));
        assert(in_search(1000, 4) && is_secure(t as int, 1000, 4));
        assert(no_better(t as int, with_margin(security, 1000, 4), (best_rf as int, best_rp as int)));
    }
    Ok((best_rf, best_rp))
}

/// Every schedule that the calculator can pick has an even number of full rounds,
/// split in two equal halves.
pub proof fn lemma_schedule_full_rounds_even(t: int, security: bool, s: (int, int))
    requires
        is_chosen_schedule(t, security, s),
    ensures
        s.0 % 2 == 0,
        (s.0 / 2) * 2 == s.0,
{
}

/// For a width and a security flag, one schedule is picked.
pub proof fn lemma_schedule_unique(t: int, security: bool, s1: (int, int), s2: (int, int))
    requires
        is_chosen_schedule(t, security, s1),
        is_chosen_schedule(t, security, s2),
    ensures
        s1 == s2,
{
    let (a1, b1) = choose|rf: int, rp: int|
        in_search(rf, rp) && is_secure(t, rf, rp) && s1 == with_margin(security, rf, rp);
    let (a2, b2) = choose|rf: int, rp: int|
        in_search(rf, rp) && is_secure(t, rf, rp) && s2 == with_margin(security, rf, rp);
    assert(no_better(t, with_margin(security, a1, b1), s2));
    assert(no_better(t, with_margin(security, a2, b2), s1));
}

} // verus!
