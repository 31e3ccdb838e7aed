//! Exact arithmetic for the diversity demotion formula.
//!
//! Scores are fixed-point numbers: a `u64` in a unit the caller chooses
//! (the unit cancels out of every comparison the ranking makes).
//!
//! A candidate whose site, title and URL fingerprints have already been
//! taken `site_taken`, `title_taken` and `url_taken` times is demoted to
//!
//! ```text
//! adjusted = raw * (14 / (14 + site_taken))
//!               * (0.1 / (0.1 + url_taken))
//!               * (6 / (6 + title_taken))
//! ```
//!
//! (lower scale means a stronger penalty). The adjuster is the exact
//! rational `84 / ((14 + site_taken) * (1 + 10 * url_taken) * (6 + title_taken))`,
//! so two adjusted scores compare as `raw_a * den_b` against `raw_b * den_a`,
//! which this module evaluates exactly in 128-bit integers.

use vstd::prelude::*;

verus! {

/// Largest taken-count the demotion arithmetic accepts; keeps the exact
/// denominator inside `u64` and every cross-product inside `u128`.
pub const MAX_TAKEN: u64 = 300_000;

/// Denominator of the exact demotion adjuster `84 / demotion_den`.
pub open spec fn demotion_den(site_taken: int, title_taken: int, url_taken: int) -> int {
    (14 + site_taken) * (1 + 10 * url_taken) * (6 + title_taken)
}

/// `raw_a * 84 / den_a >= raw_b * 84 / den_b`, written without division
/// (valid whenever both denominators are positive).
pub open spec fn adjusted_ge(raw_a: int, den_a: int, raw_b: int, den_b: int) -> bool {
    raw_a * den_b >= raw_b * den_a
}

/// Computes the exact demotion denominator.
pub fn demotion_den_exec(site_taken: u64, title_taken: u64, url_taken: u64) -> (d: u64)
    requires
        site_taken <= MAX_TAKEN,
        title_taken <= MAX_TAKEN,
        url_taken <= MAX_TAKEN,
    ensures
        d == demotion_den(site_taken as int, title_taken as int, url_taken as int),
        1 <= d <= 0x400_0000_0000_0000u128,
{
    proof {
        lemma_demotion_den_bounds(site_taken as int, title_taken as int, url_taken as int);
    }
    let site_factor: u64 = 14 + site_taken;
    let url_factor: u64 = 1 + 10 * url_taken;
    let title_factor: u64 = 6 + title_taken;
    assert(site_factor * url_factor <= 900_042_300_014u64) by (nonlinear_arith)
        requires site_factor <= 300_014u64, url_factor <= 3_000_001u64;
    let partial: u64 = site_factor * url_factor;
    assert(partial * title_factor <= 0x400_0000_0000_0000u64) by (nonlinear_arith)
        requires partial <= 900_042_300_014u64, title_factor <= 300_006u64;
    assert(partial * title_factor
        == demotion_den(site_taken as int, title_taken as int, url_taken as int));
    partial * title_factor
}

/// A product of two 64-bit values fits in 128 bits.
proof fn lemma_mul_fits_u128(a: int, b: int)
    requires
        0 <= a <= u64::MAX,
        0 <= b <= u64::MAX,
    ensures
        0 <= a * b <= u128::MAX,
{
    assert(0 <= a * b && a * b <= u128::MAX) by (nonlinear_arith)
        requires 0 <= a <= u64::MAX, 0 <= b <= u64::MAX;
}

/// Decides `raw_a * 84 / den_a >= raw_b * 84 / den_b` exactly.
pub fn adjusted_ge_exec(raw_a: u64, den_a: u64, raw_b: u64, den_b: u64) -> (r: bool)
    requires
        1 <= den_a,
        1 <= den_b,
    ensures
        r == adjusted_ge(raw_a as int, den_a as int, raw_b as int, den_b as int),
{
    proof {
        lemma_mul_fits_u128(raw_a as int, den_b as int);
        lemma_mul_fits_u128(raw_b as int, den_a as int);
    }
    let left: u128 = (raw_a as u128) * (den_b as u128);
    let right: u128 = (raw_b as u128) * (den_a as u128);
    left >= right
}

/// The demotion denominator is at least 84 and, under [`MAX_TAKEN`],
/// bounded well inside `u64`.
pub proof fn lemma_demotion_den_bounds(site_taken: int, title_taken: int, url_taken: int)
    requires
        0 <= site_taken <= MAX_TAKEN,
        0 <= title_taken <= MAX_TAKEN,
        0 <= url_taken <= MAX_TAKEN,
    ensures
        84 <= demotion_den(site_taken, title_taken, url_taken),
        demotion_den(site_taken, title_taken, url_taken) <= 0x400_0000_0000_0000,
{
    let s = 14 + site_taken;
    let u = 1 + 10 * url_taken;
    let t = 6 + title_taken;
    assert(84 <= s * u * t && s * u * t <= 0x400_0000_0000_0000) by (nonlinear_arith)
        requires
            14 <= s <= 300_014,
            1 <= u <= 3_000_001,
            6 <= t <= 300_006;
}

/// The demotion formula is monotone in every count: raising any of the
/// taken-counts strictly lowers the adjuster, and strictly lowers the
/// adjusted score of any document with a positive raw score.
pub proof fn lemma_demotion_monotone(
    site_a: int, title_a: int, url_a: int,
    site_b: int, title_b: int, url_b: int,
    raw: int,
)
    requires
        0 <= site_a <= site_b,
        0 <= title_a <= title_b,
        0 <= url_a <= url_b,
        site_a < site_b || title_a < title_b || url_a < url_b,
        raw > 0,
    ensures
        demotion_den(site_a, title_a, url_a) < demotion_den(site_b, title_b, url_b),
        !adjusted_ge(
            raw,
            demotion_den(site_b, title_b, url_b),
            raw,
            demotion_den(site_a, title_a, url_a),
        ),
{
    let sa = 14 + site_a;
    let ua = 1 + 10 * url_a;
    let ta = 6 + title_a;
    let sb = 14 + site_b;
    let ub = 1 + 10 * url_b;
    let tb = 6 + title_b;
    assert(sa * ua * ta < sb * ub * tb) by (nonlinear_arith)
        requires
            14 <= sa <= sb,
            1 <= ua <= ub,
            6 <= ta <= tb,
            sa < sb || ua < ub || ta < tb;
    assert(raw * (sa * ua * ta) < raw * (sb * ub * tb)) by (nonlinear_arith)
        requires raw > 0, sa * ua * ta < sb * ub * tb;
}

/// The exact comparison of demoted scores is transitive.
pub proof fn lemma_adjusted_ge_trans(sa: int, da: int, sb: int, db: int, sc: int, dc: int)
    requires
        da >= 1,
        db >= 1,
        dc >= 1,
        sa >= 0,
        sb >= 0,
        sc >= 0,
        adjusted_ge(sa, da, sb, db),
        adjusted_ge(sb, db, sc, dc),
    ensures
        adjusted_ge(sa, da, sc, dc),
{
    assert(sa * dc >= sc * da) by (nonlinear_arith)
        requires
            da >= 1,
            db >= 1,
            dc >= 1,
            sa >= 0,
            sb >= 0,
            sc >= 0,
            sa * db >= sb * da,
            sb * dc >= sc * db;
}

} // verus!
