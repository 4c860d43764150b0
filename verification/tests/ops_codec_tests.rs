use paintmate::app_state::parse_dimension;
use paintmate::{FullscreenBackground, ImageData, ImageOperations, MenuBar, PixelBuffer, Rgba, Tool, ToolType};

fn grid_2x2() -> PixelBuffer {
    // a b
    // c d
    let mut doc = ImageData::new(2, 2);
    doc.draw_pixel(0, 0, Rgba::new(1, 0, 0, 255));
    doc.draw_pixel(1, 0, Rgba::new(2, 0, 0, 255));
    doc.draw_pixel(0, 1, Rgba::new(3, 0, 0, 255));
    doc.draw_pixel(1, 1, Rgba::new(4, 0, 0, 255));
    doc.flatten()
}

fn marks(pb: &PixelBuffer) -> Vec<u8> {
    let mut out = Vec::new();
    for y in 0..pb.height {
        for x in 0..pb.width {
            out.push(pb.get_pixel(x, y).r);
        }
    }
    out
}

#[test]
fn rotate_90_quarter_turn_clockwise() {
    let r = ImageOperations::rotate_90(&grid_2x2());
    assert_eq!((r.width, r.height), (2, 2));
    assert_eq!(marks(&r), vec![3, 1, 4, 2]);
}

#[test]
fn rotate_180_half_turn() {
    let r = ImageOperations::rotate_180(&grid_2x2());
    assert_eq!(marks(&r), vec![4, 3, 2, 1]);
}

#[test]
fn rotate_270_quarter_turn_counter_clockwise() {
    let r = ImageOperations::rotate_270(&grid_2x2());
    assert_eq!(marks(&r), vec![2, 4, 1, 3]);
}

#[test]
fn rotating_twice_matches_half_turn() {
    let once = ImageOperations::rotate_90(&grid_2x2());
    let twice = ImageOperations::rotate_90(&once);
    let half = ImageOperations::rotate_180(&grid_2x2());
    assert_eq!(twice.data, half.data);
}

#[test]
fn flips_mirror_the_grid() {
    let h = ImageOperations::flip_horizontal(&grid_2x2());
    assert_eq!(marks(&h), vec![2, 1, 4, 3]);
    let v = ImageOperations::flip_vertical(&grid_2x2());
    assert_eq!(marks(&v), vec![3, 4, 1, 2]);
}

#[test]
fn crop_takes_the_requested_rectangle() {
    let c = ImageOperations::crop(&grid_2x2(), 1, 0, 1, 2);
    assert_eq!((c.width, c.height), (1, 2));
    assert_eq!(marks(&c), vec![2, 4]);
}

#[test]
fn crop_clamps_to_the_canvas() {
    let c = ImageOperations::crop(&grid_2x2(), 1, 1, 10, 10);
    assert_eq!((c.width, c.height), (1, 1));
    assert_eq!(marks(&c), vec![4]);
    let empty = ImageOperations::crop(&grid_2x2(), 5, 5, 1, 1);
    assert_eq!((empty.width, empty.height), (0, 0));
}

#[test]
fn resize_fits_within_the_bounds() {
    let mut doc = ImageData::new(8, 4);
    doc.draw_circle(4, 2, 10, Rgba::new(10, 20, 30, 255));
    let r = ImageOperations::resize(&doc.flatten(), 4, 4);
    assert!(r.width >= 1 && r.width <= 4);
    assert!(r.height >= 1 && r.height <= 4);
    // Aspect ratio 2:1 is preserved within the box.
    assert_eq!((r.width, r.height), (4, 2));
}

#[test]
fn png_round_trip_restores_the_composite() {
    let mut doc = ImageData::new(3, 2);
    doc.draw_pixel(0, 0, Rgba::new(11, 22, 33, 255));
    doc.draw_pixel(2, 1, Rgba::new(200, 100, 50, 255));
    let flat = doc.flatten();
    let bytes = doc.to_png_bytes().expect("encoding a small canvas succeeds");
    assert!(!bytes.is_empty());
    let reopened = ImageData::from_source(&bytes).expect("the encoder's output decodes");
    assert_eq!(reopened.width(), 3);
    assert_eq!(reopened.height(), 2);
    assert_eq!(reopened.layer_count(), 1);
    assert_eq!(reopened.get_active_layer().name, "Background");
    assert_eq!(reopened.get_active_layer().pixels.data, flat.data);
}

#[test]
fn from_source_rejects_garbage() {
    let garbage = vec![1u8, 2, 3, 4, 5];
    assert!(ImageData::from_source(&garbage).is_err());
}

#[test]
fn parse_dimension_reads_digits() {
    assert_eq!(parse_dimension("800", 640), 800);
    assert_eq!(parse_dimension("1", 640), 1);
    assert_eq!(parse_dimension("0", 640), 0);
    assert_eq!(parse_dimension("4294967295", 640), 4294967295);
}

#[test]
fn parse_dimension_falls_back_on_bad_input() {
    assert_eq!(parse_dimension("", 640), 640);
    assert_eq!(parse_dimension("12a", 640), 640);
    assert_eq!(parse_dimension("-3", 640), 640);
    assert_eq!(parse_dimension("4294967296", 640), 640);
    assert_eq!(parse_dimension("99999999999999999999", 640), 640);
}

#[test]
fn tool_names_and_icons() {
    assert_eq!(ToolType::Brush.name(), "Brush");
    assert_eq!(ToolType::Eraser.name(), "Eraser");
    assert_eq!(ToolType::Eyedropper.name(), "Eyedropper");
    assert_eq!(ToolType::Brush.icon(), "🖌");
    assert_eq!(ToolType::Fill.icon(), "🪣");
    let t = Tool::default();
    assert_eq!(t.tool_type, ToolType::Brush);
    assert!(!t.is_active);
}

#[test]
fn apply_tool_dispatches_by_tool() {
    let mut d = ImageData::new(5, 5);
    paintmate::tools::apply_tool(&mut d, &ToolType::Brush, 2, 2, 1, Rgba::new(1, 1, 1, 255));
    assert_eq!(d.get_active_layer().pixels.get_pixel(1, 2).r, 1);
    paintmate::tools::apply_tool(&mut d, &ToolType::Eraser, 2, 2, 1, Rgba::new(1, 1, 1, 255));
    assert_eq!(d.get_active_layer().pixels.get_pixel(2, 2).a, 0);
    paintmate::tools::apply_tool(&mut d, &ToolType::Fill, 0, 0, 3, Rgba::new(9, 9, 9, 255));
    assert_eq!(d.get_active_layer().pixels.get_pixel(0, 0).r, 9);
    // A single-pixel tool does not paint a disc.
    assert_eq!(d.get_active_layer().pixels.get_pixel(1, 0).r, 255);
}

#[test]
fn fullscreen_background_cycles() {
    assert_eq!(FullscreenBackground::Black.cycled(), FullscreenBackground::Alpha);
    assert_eq!(FullscreenBackground::Alpha.cycled(), FullscreenBackground::White);
    assert_eq!(FullscreenBackground::White.cycled(), FullscreenBackground::Black);
}

#[test]
fn menu_bar_default_offers_800_by_600() {
    let m = MenuBar::default();
    assert!(!m.show_new_dialog);
    assert!(!m.show_about);
    assert_eq!(m.new_width, "800");
    assert_eq!(m.new_height, "600");
}
