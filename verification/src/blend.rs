//! Per-channel blend formulas and straight-alpha "over" composition.
//!
//! All arithmetic is exact: a channel value `c` stands for the real number
//! `c / 255`, the blend term `B(base, overlay)` is carried as an exact
//! fraction (or, for soft light's square-root branch, characterized by
//! integer bounds), and the real-valued channel is rounded to the nearest
//! 8-bit value exactly once, at the end, with halves rounded up.

use vstd::prelude::*;

use crate::color::Rgba;

verus! {

/// The blend-mode function applied to each color channel when a layer is
/// composited onto the accumulated image below it.
#[derive(Clone, Copy, Debug, PartialEq, Eq, Structural)]
pub enum BlendMode {
    Normal,
    Multiply,
    Screen,
    Overlay,
    SoftLight,
    HardLight,
    ColorDodge,
    ColorBurn,
    Darken,
    Lighten,
    Difference,
    Exclusion,
}

/// `n / d` rounded to the nearest integer, halves up.
pub open spec fn div_round(n: int, d: int) -> int {
    (2 * n + d) / (2 * d)
}

/// The soft-light auxiliary polynomial `((16a - 12)a + 4)a` over channels
/// normalized to `[0, 1]`, scaled so that `g(a) = soft_poly(a) / 65025` on
/// the 0..=255 input scale (so `soft_poly` ranges over `0..=255 * 65025`).
pub open spec fn soft_poly(a: int) -> int {
    4 * a * (4 * (a * a) - 765 * a + 65025)
}

/// Whether the blend term needs a square root: soft light with the overlay
/// at or above one half and the base above one quarter uses `sqrt(base)`.
pub open spec fn softlight_sqrt_case(mode: BlendMode, a: int, o: int) -> bool {
    mode == BlendMode::SoftLight && o >= 128 && 4 * a > 255
}

/// The blend-mode function `B(a, o)` as an exact fraction: the returned
/// pair `(bn, bd)` means `B = bn / (65025 * bd)`, with `a` the base (lower)
/// channel and `o` the overlay channel, both 0..=255. Each arm is the
/// standard formula over channels normalized to `[0, 1]`; the one case this
/// fraction cannot express — `softlight_sqrt_case` — is handled by
/// `soft_sqrt_channel` instead and gets a placeholder here.
pub open spec fn blend_frac(mode: BlendMode, a: int, o: int) -> (int, int) {
    match mode {
        BlendMode::Normal => (255 * o, 1),
        BlendMode::Multiply => (a * o, 1),
        BlendMode::Screen => (65025 - (255 - a) * (255 - o), 1),
        BlendMode::Overlay => if a < 128 {
            (2 * a * o, 1)
        } else {
            (65025 - 2 * (255 - a) * (255 - o), 1)
        },
        BlendMode::SoftLight => if o < 128 {
            (65025 * a - (255 - 2 * o) * (a * (255 - a)), 255)
        } else if 4 * a <= 255 {
            (255 * (65025 * a) + (2 * o - 255) * (soft_poly(a) - 65025 * a), 65025)
        } else {
            (0, 1)
        },
        BlendMode::HardLight => if o < 128 {
            (2 * a * o, 1)
        } else {
            (65025 - 2 * (255 - a) * (255 - o), 1)
        },
        BlendMode::ColorDodge => if o == 255 {
            (65025, 1)
        } else if a >= 255 - o {
            (65025, 1)
        } else {
            (65025 * a, 255 - o)
        },
        BlendMode::ColorBurn => if o == 0 {
            (0, 1)
        } else if 255 - a >= o {
            (0, 1)
        } else {
            (65025 * (a + o - 255), o)
        },
        BlendMode::Darken => (255 * (if a <= o { a } else { o }), 1),
        BlendMode::Lighten => (255 * (if a >= o { a } else { o }), 1),
        BlendMode::Difference => (255 * (if a >= o { a - o } else { o - a }), 1),
        BlendMode::Exclusion => (255 * a + 255 * o - 2 * a * o, 1),
    }
}

/// `t` is the integer square root of `n`, rounded down.
pub open spec fn is_sqrt_floor(n: int, t: int) -> bool {
    &&& 0 <= t
    &&& t * t <= n
    &&& n < (t + 1) * (t + 1)
}

/// The integer square root of `n`, rounded down, for `n >= 0`.
pub open spec fn sqrt_floor(n: int) -> int {
    choose|t: int| is_sqrt_floor(n, t)
}

/// `v` is the soft-light channel of the square-root branch: writing
/// `s = sqrt(255 * bc)`, `A = (2*oc - 255) * cov` and `C` for the
/// alpha-weighted base terms, the exact channel is `(A*s + C) / den`, and
/// `v` is its nearest integer (halves up). The two clauses are
/// `v - 1/2 <= (A*s + C)/den < v + 1/2` with the square root eliminated by
/// squaring, which keeps every comparison over the integers.
pub open spec fn is_soft_sqrt_channel(v: int, bc: int, oc: int, ba: int, cov: int) -> bool {
    let den = 255 * cov + ba * (65025 - cov);
    let aa = (2 * oc - 255) * cov;
    let c2 = 2 * ((bc * (510 - 2 * oc)) * cov + (bc * ba) * (65025 - cov));
    let quad = 4 * ((aa * aa) * (255 * bc));
    let lo = (2 * v - 1) * den - c2;
    let hi = (2 * v + 1) * den - c2;
    &&& (lo <= 0 || lo * lo <= quad)
    &&& (hi > 0 && quad < hi * hi)
}

/// The soft-light channel of the square-root branch.
pub open spec fn soft_sqrt_channel(bc: int, oc: int, ba: int, cov: int) -> int {
    choose|v: int| is_soft_sqrt_channel(v, bc, oc, ba, cov)
}

/// One color channel of compositing `overlay` onto `base` with
/// straight-alpha "over". `cov` is the overlay coverage, the overlay alpha
/// scaled by the layer opacity, as a numerator over 65025. The value is the
/// exact real expression `255 * (B*ov_a + bc'*ba'*(1 - ov_a)) / result_a`
/// rounded once to the nearest integer, the blend term `B` kept exact.
pub open spec fn composite_channel_spec(mode: BlendMode, bc: int, oc: int, ba: int, cov: int) -> int {
    if softlight_sqrt_case(mode, bc, oc) {
        soft_sqrt_channel(bc, oc, ba, cov)
    } else {
        let f = blend_frac(mode, bc, oc);
        div_round(
            f.0 * cov + f.1 * ((bc * ba) * (65025 - cov)),
            f.1 * (255 * cov + ba * (65025 - cov)),
        )
    }
}

/// The alpha channel of straight-alpha "over": `cov + ba * (1 - cov)`,
/// scaled to 0..=255 and rounded once.
pub open spec fn composite_alpha_spec(ba: int, cov: int) -> int {
    div_round(255 * cov + ba * (65025 - cov), 65025)
}

/// Compositing one overlay pixel onto one base pixel: the blend-mode color
/// term under straight-alpha "over", with `opacity` scaling the overlay's
/// alpha. Zero coverage leaves the base pixel untouched.
pub open spec fn blend_pixels_spec(base: Rgba, overlay: Rgba, mode: BlendMode, opacity: u8) -> Rgba {
    let cov = (overlay.a as int) * (opacity as int);
    if cov == 0 {
        base
    } else {
        Rgba {
            r: composite_channel_spec(mode, base.r as int, overlay.r as int, base.a as int, cov) as u8,
            g: composite_channel_spec(mode, base.g as int, overlay.g as int, base.a as int, cov) as u8,
            b: composite_channel_spec(mode, base.b as int, overlay.b as int, base.a as int, cov) as u8,
            a: composite_alpha_spec(base.a as int, cov) as u8,
        }
    }
}

proof fn lemma_div_round_le(n: int, d: int, k: int)
    requires
        d >= 1,
        k >= 0,
        n <= k * d,
    ensures
        div_round(n, d) <= k,
{
    assert((2 * n + d) / (2 * d) <= k) by (nonlinear_arith)
        requires
            d >= 1,
            k >= 0,
            n <= k * d,
    ;
}

proof fn lemma_div_round_nonneg(n: int, d: int)
    requires
        d >= 1,
        n >= 0,
    ensures
        div_round(n, d) >= 0,
{
    assert((2 * n + d) / (2 * d) >= 0) by (nonlinear_arith)
        requires
            d >= 1,
            n >= 0,
    ;
}

/// Rounding a value that is an exact multiple of the denominator.
pub proof fn lemma_div_round_exact(k: int, d: int)
    requires
        d >= 1,
    ensures
        div_round(k * d, d) == k,
{
    assert((2 * (k * d) + d) / (2 * d) == k) by (nonlinear_arith)
        requires
            d >= 1,
    ;
}

/// The rounded quotient brackets the numerator: `q - 1/2 <= n/d < q + 1/2`.
proof fn lemma_div_round_bounds(n: int, d: int)
    requires
        d >= 1,
    ensures
        (2 * div_round(n, d) - 1) * d <= 2 * n,
        2 * n < (2 * div_round(n, d) + 1) * d,
{
    assert((2 * ((2 * n + d) / (2 * d)) - 1) * d <= 2 * n
        && 2 * n < (2 * ((2 * n + d) / (2 * d)) + 1) * d) by (nonlinear_arith)
        requires
            d >= 1,
    ;
}

/// A floor square root exists for every nonnegative argument, so the
/// chosen value of `sqrt_floor` is a genuine witness.
proof fn lemma_sqrt_floor_exists(n: int)
    requires
        n >= 0,
    ensures
        is_sqrt_floor(n, sqrt_floor(n)),
    decreases n,
{
    if n == 0 {
        assert((0 + 1) * (0 + 1) == 1) by (nonlinear_arith);
        assert(is_sqrt_floor(0, 0));
    } else {
        lemma_sqrt_floor_exists(n - 1);
        let t = sqrt_floor(n - 1);
        if n < (t + 1) * (t + 1) {
            assert(is_sqrt_floor(n, t));
        } else {
            assert((t + 1) * (t + 1) < (t + 2) * (t + 2)) by (nonlinear_arith)
                requires
                    t >= 0,
            ;
            assert(is_sqrt_floor(n, t + 1));
        }
    }
}

/// Builds a witness for the square-root channel: from the floor square root
/// `t` of `A^2 * 255 * bc` and the rounded candidate `v0`, either `v0` or
/// `v0 + 1` satisfies the channel characterization, decided by the same
/// squared test the executable code performs.
proof fn lemma_soft_sqrt_construct(bc: int, oc: int, ba: int, cov: int, t: int, v0: int)
    requires
        0 <= bc <= 255,
        128 <= oc <= 255,
        0 <= ba <= 255,
        1 <= cov <= 65025,
        is_sqrt_floor((((2 * oc - 255) * cov) * ((2 * oc - 255) * cov)) * (255 * bc), t),
        v0 == div_round(t + ((bc * (510 - 2 * oc)) * cov + (bc * ba) * (65025 - cov)),
            255 * cov + ba * (65025 - cov)),
    ensures
        ({
            let den = 255 * cov + ba * (65025 - cov);
            let c2 = 2 * ((bc * (510 - 2 * oc)) * cov + (bc * ba) * (65025 - cov));
            let quad = 4 * ((((2 * oc - 255) * cov) * ((2 * oc - 255) * cov)) * (255 * bc));
            let hi0 = (2 * v0 + 1) * den - c2;
            if hi0 > 0 && quad < hi0 * hi0 {
                is_soft_sqrt_channel(v0, bc, oc, ba, cov)
            } else {
                is_soft_sqrt_channel(v0 + 1, bc, oc, ba, cov)
            }
        }),
{
    let den = 255 * cov + ba * (65025 - cov);
    let cc = (bc * (510 - 2 * oc)) * cov + (bc * ba) * (65025 - cov);
    let quad = 4 * ((((2 * oc - 255) * cov) * ((2 * oc - 255) * cov)) * (255 * bc));
    assert(255 * cov + ba * (65025 - cov) >= 255
        && (bc * (510 - 2 * oc)) * cov + (bc * ba) * (65025 - cov) >= 0) by (nonlinear_arith)
        requires
            0 <= bc <= 255,
            128 <= oc <= 255,
            0 <= ba <= 255,
            1 <= cov <= 65025,
    ;
    lemma_div_round_bounds(t + cc, den);
    let lo0 = (2 * v0 - 1) * den - 2 * cc;
    let hi0 = (2 * v0 + 1) * den - 2 * cc;
    assert(lo0 <= 2 * t && 2 * t < hi0);
    assert(4 * (t * t) <= quad && quad < 4 * ((t + 1) * (t + 1)));
    if hi0 > 0 && quad < hi0 * hi0 {
        if lo0 > 0 {
            assert(lo0 * lo0 <= (2 * t) * (2 * t) && (2 * t) * (2 * t) == 4 * (t * t))
                by (nonlinear_arith)
                requires
                    0 < lo0 <= 2 * t,
            ;
        }
        assert(is_soft_sqrt_channel(v0, bc, oc, ba, cov));
    } else {
        let hi1 = (2 * (v0 + 1) + 1) * den - 2 * cc;
        assert((2 * (v0 + 1) + 1) * den == (2 * v0 + 1) * den + 2 * den) by (nonlinear_arith);
        assert(hi1 == hi0 + 2 * den);
        assert((2 * t + 2) * (2 * t + 2) == 4 * ((t + 1) * (t + 1))
            && (2 * t + 2) * (2 * t + 2) <= hi1 * hi1) by (nonlinear_arith)
            requires
                t >= 0,
                hi1 >= 2 * t + 2,
        ;
        assert(is_soft_sqrt_channel(v0 + 1, bc, oc, ba, cov));
    }
}

/// The square-root channel characterization picks out a single value, so
/// `soft_sqrt_channel` agrees with any witness.
proof fn lemma_soft_sqrt_channel_eq(bc: int, oc: int, ba: int, cov: int, v: int)
    requires
        0 <= bc <= 255,
        128 <= oc <= 255,
        0 <= ba <= 255,
        1 <= cov <= 65025,
        is_soft_sqrt_channel(v, bc, oc, ba, cov),
    ensures
        soft_sqrt_channel(bc, oc, ba, cov) == v,
{
    assert(exists|x: int| is_soft_sqrt_channel(x, bc, oc, ba, cov));
    let c = soft_sqrt_channel(bc, oc, ba, cov);
    assert(is_soft_sqrt_channel(c, bc, oc, ba, cov));
    let den = 255 * cov + ba * (65025 - cov);
    assert(255 * cov + ba * (65025 - cov) >= 255) by (nonlinear_arith)
        requires
            0 <= ba <= 255,
            1 <= cov <= 65025,
    ;
    let c2 = 2 * ((bc * (510 - 2 * oc)) * cov + (bc * ba) * (65025 - cov));
    if v < c {
        assert((2 * v + 1) * den <= (2 * c - 1) * den) by (nonlinear_arith)
            requires
                v + 1 <= c,
                den >= 1,
        ;
        assert(((2 * c - 1) * den - c2) * ((2 * c - 1) * den - c2)
            >= ((2 * v + 1) * den - c2) * ((2 * v + 1) * den - c2)) by (nonlinear_arith)
            requires
                0 < (2 * v + 1) * den - c2 <= (2 * c - 1) * den - c2,
        ;
    }
    if c < v {
        assert((2 * c + 1) * den <= (2 * v - 1) * den) by (nonlinear_arith)
            requires
                c + 1 <= v,
                den >= 1,
        ;
        assert(((2 * v - 1) * den - c2) * ((2 * v - 1) * den - c2)
            >= ((2 * c + 1) * den - c2) * ((2 * c + 1) * den - c2)) by (nonlinear_arith)
            requires
                0 < (2 * c + 1) * den - c2 <= (2 * v - 1) * den - c2,
        ;
    }
}

/// A witness of the square-root channel is an 8-bit value: the underlying
/// real blend term lies in `[0, 1]`, so the channel lies in `[0, 255]`.
proof fn lemma_soft_sqrt_value_bounds(bc: int, oc: int, ba: int, cov: int, v: int)
    requires
        0 <= bc <= 255,
        128 <= oc <= 255,
        0 <= ba <= 255,
        1 <= cov <= 65025,
        is_soft_sqrt_channel(v, bc, oc, ba, cov),
    ensures
        0 <= v <= 255,
{
    let den = 255 * cov + ba * (65025 - cov);
    let aa = (2 * oc - 255) * cov;
    let c2 = 2 * ((bc * (510 - 2 * oc)) * cov + (bc * ba) * (65025 - cov));
    let quad = 4 * ((aa * aa) * (255 * bc));
    // The real blend term is at most one: 510*A + 2*C <= 510*den, and the
    // squared radicand is within the square of 510*A.
    assert(255 * cov + ba * (65025 - cov) >= 255
        && 2 * ((bc * (510 - 2 * oc)) * cov + (bc * ba) * (65025 - cov)) >= 0
        && (2 * oc - 255) * cov >= 1
        && 510 * ((2 * oc - 255) * cov)
            + 2 * ((bc * (510 - 2 * oc)) * cov + (bc * ba) * (65025 - cov))
            <= 510 * (255 * cov + ba * (65025 - cov))
        && 4 * ((((2 * oc - 255) * cov) * ((2 * oc - 255) * cov)) * (255 * bc))
            <= (510 * ((2 * oc - 255) * cov)) * (510 * ((2 * oc - 255) * cov)))
        by (nonlinear_arith)
        requires
            0 <= bc <= 255,
            128 <= oc <= 255,
            0 <= ba <= 255,
            1 <= cov <= 65025,
    ;
    if v < 0 {
        assert((2 * v + 1) * den <= 0) by (nonlinear_arith)
            requires
                v <= -1,
                den >= 1,
        ;
    }
    if v > 255 {
        assert((2 * v - 1) * den - c2 >= 511 * den - c2) by (nonlinear_arith)
            requires
                v >= 256,
                den >= 1,
        ;
        let lo = (2 * v - 1) * den - c2;
        assert(lo > 510 * aa);
        assert(lo * lo > (510 * aa) * (510 * aa)) by (nonlinear_arith)
            requires
                lo > 510 * aa >= 0,
        ;
    }
}

/// The blend fraction is a genuine fraction in `[0, 1]`: positive
/// denominator and a numerator at most `65025` times it.
proof fn lemma_blend_frac_bounds(mode: BlendMode, a: int, o: int)
    requires
        0 <= a <= 255,
        0 <= o <= 255,
        !softlight_sqrt_case(mode, a, o),
    ensures
        1 <= blend_frac(mode, a, o).1 <= 65025,
        0 <= blend_frac(mode, a, o).0 <= 65025 * blend_frac(mode, a, o).1,
{
    match mode {
        BlendMode::Normal => {},
        BlendMode::Multiply => {
            assert(0 <= a * o <= 65025) by (nonlinear_arith)
                requires 0 <= a <= 255 && 0 <= o <= 255,
            ;
        },
        BlendMode::Screen => {
            assert(0 <= (255 - a) * (255 - o) <= 65025) by (nonlinear_arith)
                requires 0 <= a <= 255 && 0 <= o <= 255,
            ;
        },
        BlendMode::Overlay => {
            assert(0 <= 2 * a * o && (a < 128 ==> 2 * a * o <= 65025)
                && 0 <= 2 * (255 - a) * (255 - o)
                && (a >= 128 ==> 2 * (255 - a) * (255 - o) <= 65025)) by (nonlinear_arith)
                requires 0 <= a <= 255 && 0 <= o <= 255,
            ;
        },
        BlendMode::HardLight => {
            assert(0 <= 2 * a * o && (o < 128 ==> 2 * a * o <= 65025)
                && 0 <= 2 * (255 - a) * (255 - o)
                && (o >= 128 ==> 2 * (255 - a) * (255 - o) <= 65025)) by (nonlinear_arith)
                requires 0 <= a <= 255 && 0 <= o <= 255,
            ;
        },
        BlendMode::SoftLight => {
            if o < 128 {
                assert(0 <= (255 - 2 * o) * (a * (255 - a))
                    && (255 - 2 * o) * (a * (255 - a)) <= 65025 * a) by (nonlinear_arith)
                    requires 0 <= a <= 255 && 0 <= o < 128,
                ;
            } else {
                assert(65025 * a <= soft_poly(a) && soft_poly(a) <= 252 * 65025
                    && 0 <= (2 * o - 255) * (soft_poly(a) - 65025 * a)
                    && 255 * (65025 * a) + (2 * o - 255) * (soft_poly(a) - 65025 * a)
                        <= 65025 * 65025) by (nonlinear_arith)
                    requires 0 <= a && 4 * a <= 255 && 128 <= o <= 255,
                ;
            }
        },
        BlendMode::ColorDodge => {
            if o != 255 && a < 255 - o {
                assert(0 <= 65025 * a && 65025 * a <= 65025 * (255 - o)) by (nonlinear_arith)
                    requires 0 <= a && a <= 255 - o,
                ;
            }
        },
        BlendMode::ColorBurn => {
            if o != 0 && 255 - a < o {
                assert(0 <= 65025 * (a + o - 255) && 65025 * (a + o - 255) <= 65025 * o)
                    by (nonlinear_arith)
                    requires a + o >= 255 && a <= 255,
                ;
            }
        },
        BlendMode::Darken => {},
        BlendMode::Lighten => {},
        BlendMode::Difference => {},
        BlendMode::Exclusion => {
            assert(0 <= 255 * a + 255 * o - 2 * a * o
                && 255 * a + 255 * o - 2 * a * o <= 65025) by (nonlinear_arith)
                requires 0 <= a <= 255 && 0 <= o <= 255,
            ;
        },
    }
}

/// The composite of 8-bit inputs stays 8-bit, whichever branch computes it.
proof fn lemma_composite_channel_bounds(mode: BlendMode, bc: int, oc: int, ba: int, cov: int)
    requires
        0 <= bc <= 255,
        0 <= oc <= 255,
        0 <= ba <= 255,
        1 <= cov <= 65025,
    ensures
        0 <= composite_channel_spec(mode, bc, oc, ba, cov) <= 255,
{
    if softlight_sqrt_case(mode, bc, oc) {
        lemma_soft_sqrt_channel_exists(bc, oc, ba, cov);
        let c = soft_sqrt_channel(bc, oc, ba, cov);
        lemma_soft_sqrt_value_bounds(bc, oc, ba, cov, c);
    } else {
        lemma_blend_frac_bounds(mode, bc, oc);
        let bn = blend_frac(mode, bc, oc).0;
        let bd = blend_frac(mode, bc, oc).1;
        assert(bd * (255 * cov + ba * (65025 - cov)) >= 255
            && 0 <= bn * cov + bd * ((bc * ba) * (65025 - cov))
            && bn * cov + bd * ((bc * ba) * (65025 - cov))
                <= 255 * (bd * (255 * cov + ba * (65025 - cov)))) by (nonlinear_arith)
            requires
                0 <= bc <= 255,
                0 <= ba <= 255,
                1 <= cov <= 65025,
                1 <= bd <= 65025,
                0 <= bn <= 65025 * bd,
        ;
        lemma_div_round_nonneg(
            bn * cov + bd * ((bc * ba) * (65025 - cov)),
            bd * (255 * cov + ba * (65025 - cov)),
        );
        lemma_div_round_le(
            bn * cov + bd * ((bc * ba) * (65025 - cov)),
            bd * (255 * cov + ba * (65025 - cov)),
            255,
        );
    }
}

/// The square-root channel has a witness, so the chosen value satisfies
/// its characterization.
proof fn lemma_soft_sqrt_channel_exists(bc: int, oc: int, ba: int, cov: int)
    requires
        0 <= bc <= 255,
        128 <= oc <= 255,
        0 <= ba <= 255,
        1 <= cov <= 65025,
    ensures
        is_soft_sqrt_channel(soft_sqrt_channel(bc, oc, ba, cov), bc, oc, ba, cov),
{
    let aa = (2 * oc - 255) * cov;
    assert((((2 * oc - 255) * cov) * ((2 * oc - 255) * cov)) * (255 * bc) >= 0)
        by (nonlinear_arith)
        requires
            128 <= oc <= 255,
            0 <= bc,
            1 <= cov,
    ;
    lemma_sqrt_floor_exists((aa * aa) * (255 * bc));
    let t = sqrt_floor((aa * aa) * (255 * bc));
    let den = 255 * cov + ba * (65025 - cov);
    let cc = (bc * (510 - 2 * oc)) * cov + (bc * ba) * (65025 - cov);
    let v0 = div_round(t + cc, den);
    lemma_soft_sqrt_construct(bc, oc, ba, cov, t, v0);
    let hi0 = (2 * v0 + 1) * den - 2 * cc;
    let quad = 4 * ((aa * aa) * (255 * bc));
    if hi0 > 0 && quad < hi0 * hi0 {
        assert(is_soft_sqrt_channel(v0, bc, oc, ba, cov));
    } else {
        assert(is_soft_sqrt_channel(v0 + 1, bc, oc, ba, cov));
    }
}

/// The composed alpha of 8-bit inputs stays 8-bit.
proof fn lemma_composite_alpha_bounds(ba: int, cov: int)
    requires
        0 <= ba <= 255,
        1 <= cov <= 65025,
    ensures
        0 <= composite_alpha_spec(ba, cov) <= 255,
{
    assert(0 <= 255 * cov + ba * (65025 - cov)
        && 255 * cov + ba * (65025 - cov) <= 255 * 65025) by (nonlinear_arith)
        requires
            0 <= ba <= 255,
            1 <= cov <= 65025,
    ;
    lemma_div_round_nonneg(255 * cov + ba * (65025 - cov), 65025);
    lemma_div_round_le(255 * cov + ba * (65025 - cov), 65025, 255);
}

/// A fully-opaque Normal-mode overlay pixel at full opacity replaces the
/// base pixel outright.
pub proof fn lemma_blend_pixel_opaque_normal(base: Rgba, overlay: Rgba)
    requires
        overlay.a == 255,
    ensures
        blend_pixels_spec(base, overlay, BlendMode::Normal, 255) == overlay,
{
    let ba = base.a as int;
    assert((overlay.a as int) * 255 == 65025);
    assert(ba * (65025 - 65025) == 0) by (nonlinear_arith);
    lemma_div_round_exact(255, 65025);
    lemma_chan_at_full(base.r as int, overlay.r as int, ba);
    lemma_chan_at_full(base.g as int, overlay.g as int, ba);
    lemma_chan_at_full(base.b as int, overlay.b as int, ba);
}

proof fn lemma_chan_at_full(bc: int, oc: int, ba: int)
    requires
        0 <= bc <= 255,
        0 <= oc <= 255,
        0 <= ba <= 255,
    ensures
        composite_channel_spec(BlendMode::Normal, bc, oc, ba, 65025) == oc,
{
    assert((255 * oc) * 65025 + 1 * ((bc * ba) * (65025 - 65025)) == oc * (255 * 65025)
        && 1 * (255 * 65025 + ba * (65025 - 65025)) == 255 * 65025) by (nonlinear_arith);
    lemma_div_round_exact(oc, (255 * 65025) as int);
}

/// An overlay pixel with zero coverage — transparent, or on a layer of zero
/// opacity — leaves the base pixel untouched.
pub proof fn lemma_blend_pixel_no_coverage(base: Rgba, overlay: Rgba, mode: BlendMode, opacity: u8)
    requires
        overlay.a == 0 || opacity == 0,
    ensures
        blend_pixels_spec(base, overlay, mode, opacity) == base,
{
    assert((overlay.a as int) * (opacity as int) == 0) by (nonlinear_arith)
        requires
            overlay.a == 0 || opacity == 0,
    ;
}

/// Identities of the blend table: Normal's blend term is the overlay
/// channel, and Multiply's is the same at a fully-lit base, the base
/// channel at a fully-lit overlay (`B(1, o) = o` and `B(a, 1) = a`).
pub proof fn lemma_blend_identities(a: int, o: int)
    requires
        0 <= a <= 255,
        0 <= o <= 255,
    ensures
        blend_frac(BlendMode::Normal, a, o) == (255 * o, 1int),
        blend_frac(BlendMode::Multiply, 255, o) == (255 * o, 1int),
        blend_frac(BlendMode::Multiply, a, 255) == (255 * a, 1int),
{
}

fn div_round_u64(n: u64, d: u64) -> (r: u64)
    requires
        1 <= d <= 0x4_0000_0000_0000,
        n <= 0x4_0000_0000_0000,
    ensures
        r as int == div_round(n as int, d as int),
{
    (2 * n + d) / (2 * d)
}

/// The integer square root, rounded down, by bisection.
fn isqrt_floor(n: u64) -> (t: u64)
    ensures
        is_sqrt_floor(n as int, t as int),
{
    if n == 0 {
        proof {
            assert((0 + 1) * (0 + 1) == 1) by (nonlinear_arith);
        }
        return 0;
    }
    let mut lo: u64 = 0;
    let mut hi: u64 = 0x1_0000_0000;
    proof {
        assert((0x1_0000_0000 as int) * (0x1_0000_0000 as int) > u64::MAX) by (nonlinear_arith);
    }
    while hi - lo > 1
        invariant
            lo < hi,
            hi <= 0x1_0000_0000,
            (lo as int) * (lo as int) <= n as int,
            (n as int) < (hi as int) * (hi as int),
        decreases hi - lo,
    {
        let mid = lo + (hi - lo) / 2;
        proof {
            assert((mid as int) * (mid as int) <= 0x1_0000_0000_0000_0000) by (nonlinear_arith)
                requires
                    mid <= 0x1_0000_0000,
            ;
        }
        let sq: u128 = mid as u128 * (mid as u128);
        if sq <= n as u128 {
            lo = mid;
        } else {
            hi = mid;
        }
    }
    lo
}

/// The soft-light channel of the square-root branch: computes the floor
/// square root of `A^2 * 255 * bc`, rounds the resulting candidate, and
/// corrects it by the same squared comparison that characterizes the value.
fn soft_sqrt_exec(bc: u8, oc: u8, ba: u8, cov: u32) -> (r: u8)
    requires
        128 <= oc,
        1 <= cov <= 65025,
    ensures
        r as int == soft_sqrt_channel(bc as int, oc as int, ba as int, cov as int),
{
    let b = bc as u64;
    let o = oc as u64;
    let alpha = ba as u64;
    let c = cov as u64;
    proof {
        assert((2 * o - 255) * c <= 16581375 && b * (510 - 2 * o) <= 65025
            && (b * (510 - 2 * o)) * c <= 65025 * 65025 && b * alpha <= 65025
            && (b * alpha) * (65025 - c) <= 65025 * 65025
            && 0 <= alpha * (65025 - c) <= 255 * 65025
            && 255 * c + alpha * (65025 - c) <= 16581375
            && 16581375 * 16581375 >= ((2 * o - 255) * c) * ((2 * o - 255) * c))
            by (nonlinear_arith)
            requires
                b <= 255,
                128 <= o <= 255,
                alpha <= 255,
                1 <= c <= 65025,
        ;
    }
    let p: u64 = 255 * b;
    let aa: u64 = (2 * o - 255) * c;
    let cc: u64 = (b * (510 - 2 * o)) * c + (b * alpha) * (65025 - c);
    let den: u64 = 255 * c + alpha * (65025 - c);
    proof {
        assert((aa * aa) * p <= (16581375 * 16581375) * 65025) by (nonlinear_arith)
            requires
                aa * aa <= 16581375 * 16581375,
                p <= 65025,
        ;
    }
    let tq: u64 = (aa * aa) * p;
    let t = isqrt_floor(tq);
    proof {
        assert(t <= 0xFFFF_FFFF) by (nonlinear_arith)
            requires
                (t as int) * (t as int) <= u64::MAX,
                t >= 0,
        ;
        assert(t + cc <= (t + cc) * den) by (nonlinear_arith)
            requires
                den >= 255,
                t + cc >= 0,
        ;
    }
    let v0 = div_round_u64(t + cc, den);
    proof {
        lemma_div_round_le((t + cc) as int, den as int, (t + cc) as int);
        lemma_soft_sqrt_construct(bc as int, oc as int, ba as int, cov as int, t as int, v0 as int);
        assert(0 <= (2 * (v0 as int) + 1) * (den as int)
            && (2 * (v0 as int) + 1) * (den as int) < 0x2000_0000_0000_0000) by (nonlinear_arith)
            requires
                0 <= v0 <= 0x8_0000_0000,
                1 <= den <= 0x100_0000,
        ;
    }
    let hi0: i128 = (2 * (v0 as i128) + 1) * (den as i128) - 2 * (cc as i128);
    proof {
        assert(hi0 * hi0 < 0x4000_0000_0000_0000_0000_0000_0000_0000) by (nonlinear_arith)
            requires
                -0x4000_0000_0000_0000 < hi0 < 0x4000_0000_0000_0000,
        ;
    }
    let take_first = hi0 > 0 && 4 * (tq as i128) < hi0 * hi0;
    let v = if take_first {
        v0
    } else {
        v0 + 1
    };
    proof {
        lemma_soft_sqrt_channel_eq(bc as int, oc as int, ba as int, cov as int, v as int);
        lemma_soft_sqrt_value_bounds(bc as int, oc as int, ba as int, cov as int, v as int);
    }
    v as u8
}

fn composite_channel(mode: BlendMode, bc: u8, oc: u8, ba: u8, cov: u32) -> (r: u8)
    requires
        1 <= cov <= 65025,
    ensures
        r as int == composite_channel_spec(mode, bc as int, oc as int, ba as int, cov as int),
{
    proof {
        lemma_composite_channel_bounds(mode, bc as int, oc as int, ba as int, cov as int);
    }
    if mode == BlendMode::SoftLight && oc >= 128 && bc >= 64 {
        return soft_sqrt_exec(bc, oc, ba, cov);
    }
    let b = bc as u64;
    let o = oc as u64;
    let alpha = ba as u64;
    let c = cov as u64;
    proof {
        assert(b * o <= 65025 && (255 - b) * (255 - o) <= 65025 && (2 * b) * o <= 130050
            && (2 * (255 - b)) * (255 - o) <= 130050 && b * (255 - b) <= 65025
            && (255 - 2 * o) * (b * (255 - b)) <= 255 * 65025 && b * b <= 65025
            && (b >= 128 ==> (2 * (255 - b)) * (255 - o) <= 65025)
            && (o >= 128 ==> (2 * (255 - b)) * (255 - o) <= 65025)
            && (b < 128 ==> (2 * b) * o <= 65025)
            && (o < 128 ==> (2 * b) * o <= 65025)
            && (4 * b <= 255 ==> b * b <= 3969)
            && (2 * b) * o <= 255 * b + 255 * o
            && b * alpha <= 65025)
            by (nonlinear_arith)
            requires
                b <= 255,
                o <= 255,
                alpha <= 255,
        ;
    }
    let f: (u64, u64) = match mode {
        BlendMode::Normal => (255 * o, 1),
        BlendMode::Multiply => (b * o, 1),
        BlendMode::Screen => (65025 - (255 - b) * (255 - o), 1),
        BlendMode::Overlay => if bc < 128 {
            ((2 * b) * o, 1)
        } else {
            (65025 - (2 * (255 - b)) * (255 - o), 1)
        },
        BlendMode::SoftLight => if oc < 128 {
            proof {
                assert((255 - 2 * o) * (b * (255 - b)) <= 65025 * b) by (nonlinear_arith)
                    requires
                        b <= 255,
                        o < 128,
                ;
            }
            (65025 * b - (255 - 2 * o) * (b * (255 - b)), 255)
        } else {
            // bc < 64 here: the square-root branch returned above.
            let inner: u64 = 4 * (b * b) + 65025 - 765 * b;
            proof {
                assert(65025 * b <= (4 * b) * (4 * (b * b) + 65025 - 765 * b)) by (nonlinear_arith)
                    requires
                        0 <= b,
                        4 * b <= 255,
                ;
                assert((4 * b) * inner <= 252 * 80901
                    && (2 * o - 255) * ((4 * b) * inner - 65025 * b) <= 255 * (252 * 65025))
                    by (nonlinear_arith)
                    requires
                        4 * b <= 255,
                        128 <= o <= 255,
                        inner <= 80901,
                        65025 * b <= (4 * b) * inner,
                ;
            }
            (255 * (65025 * b) + (2 * o - 255) * ((4 * b) * inner - 65025 * b), 65025)
        },
        BlendMode::HardLight => if oc < 128 {
            ((2 * b) * o, 1)
        } else {
            (65025 - (2 * (255 - b)) * (255 - o), 1)
        },
        BlendMode::ColorDodge => if oc == 255 {
            (65025, 1)
        } else if b >= 255 - o {
            (65025, 1)
        } else {
            (65025 * b, 255 - o)
        },
        BlendMode::ColorBurn => if oc == 0 {
            (0, 1)
        } else if 255 - b >= o {
            (0, 1)
        } else {
            (65025 * (b + o - 255), o)
        },
        BlendMode::Darken => (255 * (if b <= o { b } else { o }), 1),
        BlendMode::Lighten => (255 * (if b >= o { b } else { o }), 1),
        BlendMode::Difference => (255 * (if b >= o { b - o } else { o - b }), 1),
        BlendMode::Exclusion => (255 * b + 255 * o - (2 * b) * o, 1),
    };
    let (bn, bd) = f;
    proof {
        lemma_blend_frac_bounds(mode, bc as int, oc as int);
        assert(bn * c <= (65025 * 65025) * 65025 && (b * alpha) * (65025 - c) <= 65025 * 65025
            && bd * ((b * alpha) * (65025 - c)) <= 65025 * (65025 * 65025)
            && alpha * (65025 - c) <= 255 * 65025
            && 1 <= bd * (255 * c + alpha * (65025 - c))
            && bd * (255 * c + alpha * (65025 - c)) <= 65025 * (255 * 65025))
            by (nonlinear_arith)
            requires
                b <= 255,
                alpha <= 255,
                1 <= c <= 65025,
                1 <= bd <= 65025,
                0 <= bn,
                bn <= 65025 * bd,
        ;
    }
    let num: u64 = bn * c + bd * ((b * alpha) * (65025 - c));
    let den: u64 = bd * (255 * c + alpha * (65025 - c));
    div_round_u64(num, den) as u8
}

fn composite_alpha(ba: u8, cov: u32) -> (r: u8)
    requires
        1 <= cov <= 65025,
    ensures
        r as int == composite_alpha_spec(ba as int, cov as int),
{
    let c = cov as u64;
    proof {
        lemma_composite_alpha_bounds(ba as int, cov as int);
        assert((ba as u64) * (65025 - c) <= 255 * 65025) by (nonlinear_arith)
            requires
                ba <= 255,
                1 <= c <= 65025,
        ;
    }
    div_round_u64(255 * c + (ba as u64) * (65025 - c), 65025) as u8
}

/// Composites one overlay pixel onto one base pixel under the given blend
/// mode and layer opacity, exactly as `blend_pixels_spec` describes it.
pub fn blend_pixels(base: Rgba, overlay: Rgba, blend_mode: &BlendMode, opacity: u8) -> (r: Rgba)
    ensures
        r == blend_pixels_spec(base, overlay, *blend_mode, opacity),
{
    proof {
        assert(overlay.a as u32 * (opacity as u32) <= 65025) by (nonlinear_arith)
            requires
                overlay.a <= 255,
                opacity <= 255,
        ;
    }
    let cov: u32 = overlay.a as u32 * opacity as u32;
    if cov == 0 {
        base
    } else {
        proof {
            lemma_composite_channel_bounds(
                *blend_mode, base.r as int, overlay.r as int, base.a as int, cov as int);
            lemma_composite_channel_bounds(
                *blend_mode, base.g as int, overlay.g as int, base.a as int, cov as int);
            lemma_composite_channel_bounds(
                *blend_mode, base.b as int, overlay.b as int, base.a as int, cov as int);
            lemma_composite_alpha_bounds(base.a as int, cov as int);
        }
        Rgba {
            r: composite_channel(*blend_mode, base.r, overlay.r, base.a, cov),
            g: composite_channel(*blend_mode, base.g, overlay.g, base.a, cov),
            b: composite_channel(*blend_mode, base.b, overlay.b, base.a, cov),
            a: composite_alpha(base.a, cov),
        }
    }
}

} // verus!
