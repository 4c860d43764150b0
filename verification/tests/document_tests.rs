use paintmate::{BlendMode, ImageData, Rgba};

fn pixel_of(pb: &paintmate::PixelBuffer, x: u32, y: u32) -> (u8, u8, u8, u8) {
    let c = pb.get_pixel(x, y);
    (c.r, c.g, c.b, c.a)
}

#[test]
fn new_document_shape() {
    let d = ImageData::new(8, 6);
    assert_eq!(d.width(), 8);
    assert_eq!(d.height(), 6);
    assert_eq!(d.layer_count(), 1);
    assert_eq!(d.get_active_layer().name, "Background");
    assert!(d.get_active_layer().visible);
    assert_eq!(d.get_active_layer().opacity, 255);
    assert_eq!(d.get_active_layer().blend_mode, BlendMode::Normal);
    assert_eq!(pixel_of(&d.get_active_layer().pixels, 0, 0), (255, 255, 255, 0));
}

#[test]
fn draw_pixel_lands_on_active_layer() {
    let mut d = ImageData::new(4, 4);
    d.draw_pixel(2, 1, Rgba::new(9, 8, 7, 255));
    assert_eq!(pixel_of(&d.get_active_layer().pixels, 2, 1), (9, 8, 7, 255));
    assert_eq!(pixel_of(&d.get_active_layer().pixels, 1, 2), (255, 255, 255, 0));
}

#[test]
fn draw_pixel_out_of_bounds_is_a_no_op() {
    let mut d = ImageData::new(4, 4);
    d.draw_pixel(4, 0, Rgba::new(9, 8, 7, 255));
    d.draw_pixel(0, 17, Rgba::new(9, 8, 7, 255));
    for y in 0..4 {
        for x in 0..4 {
            assert_eq!(pixel_of(&d.get_active_layer().pixels, x, y), (255, 255, 255, 0));
        }
    }
}

#[test]
fn flatten_single_opaque_normal_layer_returns_its_pixels() {
    let mut d = ImageData::new(3, 3);
    // Cover the whole canvas with one opaque color.
    d.draw_circle(1, 1, 10, Rgba::new(1, 2, 3, 255));
    let flat = d.flatten();
    for y in 0..3 {
        for x in 0..3 {
            assert_eq!(pixel_of(&flat, x, y), pixel_of(&d.get_active_layer().pixels, x, y));
            assert_eq!(pixel_of(&flat, x, y), (1, 2, 3, 255));
        }
    }
}

#[test]
fn flatten_ignores_a_transparent_added_layer() {
    let mut d = ImageData::new(4, 3);
    d.draw_circle(1, 1, 1, Rgba::new(40, 50, 60, 255));
    let before = d.flatten();
    d.add_layer("Layer 2".to_string());
    let with_empty_layer = d.flatten();
    assert_eq!(before.data, with_empty_layer.data);
    // A painted layer turned fully transparent by opacity is ignored too.
    d.draw_pixel(0, 0, Rgba::new(200, 0, 0, 255));
    d.set_layer_opacity(1, 0);
    let with_zero_opacity = d.flatten();
    assert_eq!(before.data, with_zero_opacity.data);
}

#[test]
fn flatten_skips_invisible_layers() {
    let mut d = ImageData::new(2, 2);
    d.draw_pixel(0, 0, Rgba::new(10, 10, 10, 255));
    let before = d.flatten();
    d.add_layer("Layer 2".to_string());
    d.draw_pixel(0, 0, Rgba::new(200, 200, 200, 255));
    d.set_layer_visible(1, false);
    let hidden = d.flatten();
    assert_eq!(before.data, hidden.data);
}

#[test]
fn get_composite_serves_fresh_pixels_after_edits() {
    let mut d = ImageData::new(2, 2);
    let first = d.get_composite();
    assert_eq!(pixel_of(&first, 0, 0), (255, 255, 255, 0));
    d.draw_pixel(0, 0, Rgba::new(5, 6, 7, 255));
    let second = d.get_composite();
    assert_eq!(pixel_of(&second, 0, 0), (5, 6, 7, 255));
    // Serving from the cache returns the same image.
    let third = d.get_composite();
    assert_eq!(second.data, third.data);
}

#[test]
fn add_layer_makes_it_active() {
    let mut d = ImageData::new(2, 2);
    d.add_layer("Layer 2".to_string());
    assert_eq!(d.layer_count(), 2);
    assert_eq!(d.get_active_layer().name, "Layer 2");
}

#[test]
fn remove_layer_clamps_active_index() {
    let mut d = ImageData::new(2, 2);
    d.add_layer("Layer 2".to_string());
    d.add_layer("Layer 3".to_string());
    d.remove_layer(2);
    assert_eq!(d.layer_count(), 2);
    assert_eq!(d.get_active_layer().name, "Layer 2");
}

#[test]
fn remove_last_layer_is_a_no_op() {
    let mut d = ImageData::new(2, 2);
    d.remove_layer(0);
    assert_eq!(d.layer_count(), 1);
    d.remove_layer(5);
    assert_eq!(d.layer_count(), 1);
}

#[test]
fn duplicate_active_layer_copies_pixels() {
    let mut d = ImageData::new(2, 2);
    d.draw_pixel(1, 1, Rgba::new(1, 2, 3, 4));
    d.duplicate_active_layer();
    assert_eq!(d.layer_count(), 2);
    assert_eq!(pixel_of(&d.get_active_layer().pixels, 1, 1), (1, 2, 3, 4));
}

#[test]
fn draw_circle_paints_a_disc() {
    let mut d = ImageData::new(5, 5);
    d.draw_circle(2, 2, 1, Rgba::new(7, 7, 7, 255));
    // Distance 0 and 1 are painted, distance > 1 is not.
    assert_eq!(pixel_of(&d.get_active_layer().pixels, 2, 2), (7, 7, 7, 255));
    assert_eq!(pixel_of(&d.get_active_layer().pixels, 1, 2), (7, 7, 7, 255));
    assert_eq!(pixel_of(&d.get_active_layer().pixels, 3, 2), (7, 7, 7, 255));
    assert_eq!(pixel_of(&d.get_active_layer().pixels, 2, 1), (7, 7, 7, 255));
    assert_eq!(pixel_of(&d.get_active_layer().pixels, 2, 3), (7, 7, 7, 255));
    assert_eq!(pixel_of(&d.get_active_layer().pixels, 1, 1), (255, 255, 255, 0));
    assert_eq!(pixel_of(&d.get_active_layer().pixels, 0, 2), (255, 255, 255, 0));
}

#[test]
fn set_active_layer_targets_edits() {
    let mut d = ImageData::new(2, 2);
    d.add_layer("Layer 2".to_string());
    d.set_active_layer(0);
    assert_eq!(d.get_active_layer().name, "Background");
    d.set_active_layer(7);
    assert_eq!(d.get_active_layer().name, "Background");
}

#[test]
fn direct_layer_edits_need_mark_dirty() {
    let mut d = ImageData::new(2, 2);
    let _ = d.get_composite();
    let layer = d.get_active_layer_mut();
    layer.pixels.put_pixel(0, 0, Rgba::new(1, 2, 3, 255));
    d.mark_dirty();
    let fresh = d.get_composite();
    assert_eq!(pixel_of(&fresh, 0, 0), (1, 2, 3, 255));
}

#[test]
fn multiply_layer_at_half_opacity_scenario() {
    let mut d = ImageData::new(10, 10);
    d.draw_pixel(5, 5, Rgba::new(255, 0, 0, 255));
    let mut history = paintmate::ImageHistory::new();
    history.push_state(d.clone());
    d.add_layer("Layer 2".to_string());
    // An opacity of one half is not representable on the 0..=255 scale:
    // it falls between 127 and 128; this scenario pins the 128 choice.
    d.set_layer_opacity(1, 128);
    d.set_layer_blend_mode(1, BlendMode::Multiply);
    d.draw_pixel(5, 5, Rgba::new(0, 0, 255, 255));
    history.push_state(d.clone());
    let flat = d.flatten();
    // The red base pixel under a half-covering blue Multiply overlay.
    let expected = paintmate::blend::blend_pixels(
        Rgba::new(255, 0, 0, 255),
        Rgba::new(0, 0, 255, 255),
        &BlendMode::Multiply,
        128,
    );
    assert_eq!(pixel_of(&flat, 5, 5), (expected.r, expected.g, expected.b, expected.a));
    assert_eq!(pixel_of(&flat, 5, 5), (127, 0, 0, 255));
    // One undo restores the single-layer red-pixel document.
    let restored = history.undo().expect("an earlier state exists").clone();
    assert_eq!(restored.layer_count(), 1);
    let restored_flat = restored.flatten();
    assert_eq!(pixel_of(&restored_flat, 5, 5), (255, 0, 0, 255));
}
