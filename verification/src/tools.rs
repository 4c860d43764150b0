//! The painting tools: their identities, display names and icons, and how
//! a tool application maps to a document edit.

use vstd::prelude::*;

use crate::color::Rgba;
use crate::image_data::{circle_target, put_pixel_target, ImageData};
use crate::pixel_buffer::pixel_xy;

verus! {

/// Every tool the toolbar offers.
#[derive(Debug, Clone, Copy, PartialEq, Eq, Structural)]
pub enum ToolType {
    Brush,
    Pencil,
    Eraser,
    Fill,
    Rectangle,
    Circle,
    Line,
    Text,
    Crop,
    Eyedropper,
}

impl Default for ToolType {
    /// The tool selected at startup.
    fn default() -> (t: Self)
        ensures
            t == ToolType::Brush,
    {
        ToolType::Brush
    }
}

/// The display name of each tool.
pub open spec fn tool_name_spec(t: ToolType) -> Seq<char> {
    match t {
        ToolType::Brush => "Brush"@,
        ToolType::Pencil => "Pencil"@,
        ToolType::Eraser => "Eraser"@,
        ToolType::Fill => "Fill"@,
        ToolType::Rectangle => "Rectangle"@,
        ToolType::Circle => "Circle"@,
        ToolType::Line => "Line"@,
        ToolType::Text => "Text"@,
        ToolType::Crop => "Crop"@,
        ToolType::Eyedropper => "Eyedropper"@,
    }
}

/// The toolbar icon of each tool.
pub open spec fn tool_icon_spec(t: ToolType) -> Seq<char> {
    match t {
        ToolType::Brush => "🖌"@,
        ToolType::Pencil => "✏"@,
        ToolType::Eraser => "🧹"@,
        ToolType::Fill => "🪣"@,
        ToolType::Rectangle => "⬜"@,
        ToolType::Circle => "⭕"@,
        ToolType::Line => "📏"@,
        ToolType::Text => "🔤"@,
        ToolType::Crop => "✂"@,
        ToolType::Eyedropper => "💧"@,
    }
}

impl ToolType {
    /// The tool's display name.
    pub fn name(&self) -> (r: &'static str)
        ensures
            r@ == tool_name_spec(*self),
    {
        match self {
            ToolType::Brush => "Brush",
            ToolType::Pencil => "Pencil",
            ToolType::Eraser => "Eraser",
            ToolType::Fill => "Fill",
            ToolType::Rectangle => "Rectangle",
            ToolType::Circle => "Circle",
            ToolType::Line => "Line",
            ToolType::Text => "Text",
            ToolType::Crop => "Crop",
            ToolType::Eyedropper => "Eyedropper",
        }
    }

    /// The tool's toolbar icon.
    pub fn icon(&self) -> (r: &'static str)
        ensures
            r@ == tool_icon_spec(*self),
    {
        match self {
            ToolType::Brush => "🖌",
            ToolType::Pencil => "✏",
            ToolType::Eraser => "🧹",
            ToolType::Fill => "🪣",
            ToolType::Rectangle => "⬜",
            ToolType::Circle => "⭕",
            ToolType::Line => "📏",
            ToolType::Text => "🔤",
            ToolType::Crop => "✂",
            ToolType::Eyedropper => "💧",
        }
    }
}

/// The currently selected tool and whether a stroke is in progress.
#[derive(Debug, Clone, Copy, PartialEq, Eq, Structural)]
pub struct Tool {
    pub tool_type: ToolType,
    pub is_active: bool,
}

impl Default for Tool {
    /// An idle brush.
    fn default() -> (t: Self)
        ensures
            t == (Tool { tool_type: ToolType::Brush, is_active: false }),
    {
        Tool { tool_type: ToolType::Brush, is_active: false }
    }
}

/// Applies one tool action at canvas position `(x, y)`: brush-like tools
/// paint a filled circle of the given radius, the eraser paints a
/// transparent circle, and every other tool writes a single pixel.
pub fn apply_tool(img: &mut ImageData, tool: &ToolType, x: u32, y: u32, radius: u32, color: Rgba)
    requires
        old(img).wf(),
    ensures
        final(img).wf(),
        final(img).width == old(img).width,
        final(img).height == old(img).height,
        final(img).active_layer == old(img).active_layer,
        final(img).layers@.len() == old(img).layers@.len(),
        forall|i: int| 0 <= i < old(img).layers@.len() && i != old(img).active_layer as int
            ==> final(img)@.layers[i] == old(img)@.layers[i],
        (*tool == ToolType::Brush || *tool == ToolType::Pencil) ==> forall|xx: int, yy: int|
            0 <= xx < old(img).width as int && 0 <= yy < old(img).height as int
            ==> pixel_xy(final(img).layers@[old(img).active_layer as int].pixels@,
                old(img).width as int, xx, yy)
                == #[trigger] circle_target(
                    old(img).layers@[old(img).active_layer as int].pixels@,
                    old(img).width as int, xx, yy, x as int, y as int, radius as int, color),
        *tool == ToolType::Eraser ==> forall|xx: int, yy: int|
            0 <= xx < old(img).width as int && 0 <= yy < old(img).height as int
            ==> pixel_xy(final(img).layers@[old(img).active_layer as int].pixels@,
                old(img).width as int, xx, yy)
                == #[trigger] circle_target(
                    old(img).layers@[old(img).active_layer as int].pixels@,
                    old(img).width as int, xx, yy, x as int, y as int, radius as int,
                    (Rgba { r: 0, g: 0, b: 0, a: 0 })),
        !(*tool == ToolType::Brush || *tool == ToolType::Pencil || *tool == ToolType::Eraser)
            ==> final(img)@.layers == put_pixel_target(old(img)@, x as int, y as int, color),
{
    match tool {
        ToolType::Brush | ToolType::Pencil => {
            img.draw_circle(x, y, radius, color);
        },
        ToolType::Eraser => {
            img.draw_circle(x, y, radius, Rgba::new(0, 0, 0, 0));
        },
        _ => {
            img.draw_pixel(x, y, color);
        },
    }
}

} // verus!
