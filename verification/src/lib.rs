//! Core of a layered raster paint program.
//!
//! A document owns an ordered stack of RGBA pixel layers and flattens them
//! into one displayable image under per-layer opacity and blend-mode rules;
//! a bounded history manager snapshots documents for undo/redo. All pixel
//! arithmetic is exact fixed-point over the 0..=255 channel scale.

pub mod app_state;
pub mod blend;
pub mod codec;
pub mod color;
pub mod history;
pub mod image_data;
pub mod ops;
pub mod pixel_buffer;
pub mod tools;

pub use app_state::{FileOperation, FullscreenBackground, MenuBar};
pub use blend::BlendMode;
pub use color::Rgba;
pub use history::ImageHistory;
pub use image_data::{ImageData, Layer};
pub use ops::ImageOperations;
pub use pixel_buffer::PixelBuffer;
pub use tools::{Tool, ToolType};
