use paintmate::blend::blend_pixels;
use paintmate::{BlendMode, Rgba};

/// With both pixels fully opaque and the layer fully opaque, the composed
/// channel is exactly `round(255 * B(a, o))` of the blend table.
fn opaque_channel(mode: BlendMode, a: u8, o: u8) -> u8 {
    blend_pixels(Rgba::new(a, 0, 0, 255), Rgba::new(o, 0, 0, 255), &mode, 255).r
}

#[test]
fn normal_returns_overlay_channel() {
    for o in [0u8, 1, 37, 127, 128, 200, 255] {
        for a in [0u8, 50, 255] {
            assert_eq!(opaque_channel(BlendMode::Normal, a, o), o);
        }
    }
}

#[test]
fn multiply_identity_at_full_base() {
    for o in [0u8, 1, 37, 127, 128, 200, 255] {
        assert_eq!(opaque_channel(BlendMode::Multiply, 255, o), o);
    }
}

#[test]
fn multiply_identity_at_full_overlay() {
    for a in [0u8, 1, 37, 127, 128, 200, 255] {
        assert_eq!(opaque_channel(BlendMode::Multiply, a, 255), a);
    }
}

#[test]
fn multiply_exact_values() {
    assert_eq!(opaque_channel(BlendMode::Multiply, 100, 200), 78);
    assert_eq!(opaque_channel(BlendMode::Multiply, 0, 200), 0);
}

#[test]
fn screen_exact_values() {
    assert_eq!(opaque_channel(BlendMode::Screen, 100, 200), 222);
    assert_eq!(opaque_channel(BlendMode::Screen, 0, 0), 0);
    assert_eq!(opaque_channel(BlendMode::Screen, 255, 7), 255);
}

#[test]
fn overlay_exact_values() {
    assert_eq!(opaque_channel(BlendMode::Overlay, 100, 200), 157);
    assert_eq!(opaque_channel(BlendMode::Overlay, 200, 100), 188);
}

#[test]
fn hard_light_swaps_overlay_operands() {
    assert_eq!(opaque_channel(BlendMode::HardLight, 100, 200), 188);
    assert_eq!(
        opaque_channel(BlendMode::HardLight, 100, 200),
        opaque_channel(BlendMode::Overlay, 200, 100)
    );
}

#[test]
fn soft_light_exact_values() {
    // Low overlay, polynomial branch, and square-root branch.
    assert_eq!(opaque_channel(BlendMode::SoftLight, 100, 60), 68);
    assert_eq!(opaque_channel(BlendMode::SoftLight, 50, 200), 86);
    assert_eq!(opaque_channel(BlendMode::SoftLight, 100, 200), 134);
}

#[test]
fn color_dodge_exact_values() {
    assert_eq!(opaque_channel(BlendMode::ColorDodge, 100, 200), 255);
    assert_eq!(opaque_channel(BlendMode::ColorDodge, 10, 100), 16);
    assert_eq!(opaque_channel(BlendMode::ColorDodge, 100, 255), 255);
    assert_eq!(opaque_channel(BlendMode::ColorDodge, 0, 100), 0);
}

#[test]
fn color_burn_exact_values() {
    assert_eq!(opaque_channel(BlendMode::ColorBurn, 100, 200), 57);
    assert_eq!(opaque_channel(BlendMode::ColorBurn, 200, 50), 0);
    assert_eq!(opaque_channel(BlendMode::ColorBurn, 100, 0), 0);
    assert_eq!(opaque_channel(BlendMode::ColorBurn, 255, 200), 255);
}

#[test]
fn darken_lighten_difference() {
    assert_eq!(opaque_channel(BlendMode::Darken, 100, 200), 100);
    assert_eq!(opaque_channel(BlendMode::Lighten, 100, 200), 200);
    assert_eq!(opaque_channel(BlendMode::Difference, 100, 200), 100);
    assert_eq!(opaque_channel(BlendMode::Difference, 200, 100), 100);
}

#[test]
fn exclusion_exact_value() {
    assert_eq!(opaque_channel(BlendMode::Exclusion, 100, 200), 143);
    assert_eq!(opaque_channel(BlendMode::Exclusion, 255, 255), 0);
    assert_eq!(opaque_channel(BlendMode::Exclusion, 0, 200), 200);
}

#[test]
fn single_rounding_multiply_with_translucent_operands() {
    // The blend term is kept exact through the alpha weighting; rounding
    // the term to 8 bits first would give 20 here instead of 21.
    let out = blend_pixels(
        Rgba::new(32, 0, 0, 60),
        Rgba::new(130, 0, 0, 127),
        &BlendMode::Multiply,
        195,
    );
    assert_eq!((out.r, out.g, out.b, out.a), (21, 0, 0, 134));
}

#[test]
fn single_rounding_hard_light_with_translucent_operands() {
    // Rounding the blend term to 8 bits first would give 130 here.
    let out = blend_pixels(
        Rgba::new(31, 0, 0, 25),
        Rgba::new(203, 0, 0, 250),
        &BlendMode::HardLight,
        57,
    );
    assert_eq!((out.r, out.g, out.b, out.a), (129, 0, 0, 75));
}

#[test]
fn soft_light_sqrt_branch_with_translucent_operands() {
    let out = blend_pixels(
        Rgba::new(100, 200, 80, 180),
        Rgba::new(203, 150, 230, 250),
        &BlendMode::SoftLight,
        200,
    );
    assert_eq!((out.r, out.g, out.b, out.a), (129, 204, 122, 238));
}

#[test]
fn zero_coverage_leaves_base_pixel() {
    let base = Rgba::new(10, 20, 30, 40);
    let overlay = Rgba::new(200, 100, 50, 255);
    assert_eq!(blend_pixels(base, overlay, &BlendMode::Normal, 0), base);
    let transparent_overlay = Rgba::new(200, 100, 50, 0);
    assert_eq!(blend_pixels(base, transparent_overlay, &BlendMode::Multiply, 255), base);
}

#[test]
fn opaque_normal_overlay_replaces_base() {
    let base = Rgba::new(10, 20, 30, 40);
    let overlay = Rgba::new(200, 100, 50, 255);
    assert_eq!(blend_pixels(base, overlay, &BlendMode::Normal, 255), overlay);
}

#[test]
fn normal_at_half_opacity_exact() {
    let base = Rgba::new(10, 20, 30, 255);
    let overlay = Rgba::new(200, 100, 50, 255);
    let out = blend_pixels(base, overlay, &BlendMode::Normal, 128);
    assert_eq!((out.r, out.g, out.b, out.a), (105, 60, 40, 255));
}

#[test]
fn normal_over_transparent_backdrop_keeps_pixel() {
    let backdrop = Rgba::new(255, 255, 255, 0);
    let overlay = Rgba::new(10, 20, 30, 200);
    assert_eq!(blend_pixels(backdrop, overlay, &BlendMode::Normal, 255), overlay);
}
