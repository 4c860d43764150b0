//! Decoding and encoding raster files, delegated to the image codec
//! library: the document model itself never parses file formats.

use vstd::prelude::*;

use crate::blend::BlendMode;
use crate::image_data::{flatten_spec, ImageData, Layer};
use crate::pixel_buffer::PixelBuffer;

verus! {

/// What decoding an image file gives: the size and raw RGBA bytes of the
/// decoded picture, or nothing when the bytes are not a readable image. The
/// result depends on the bytes alone.
pub uninterp spec fn decoded_rgba_of(bytes: Seq<u8>) -> Option<(u32, u32, Seq<u8>)>;

/// What PNG-encoding a raw RGBA buffer gives. The result depends on the
/// dimensions and bytes alone.
pub uninterp spec fn png_bytes_of(w: u32, h: u32, data: Seq<u8>) -> Seq<u8>;

/// Relies on image::load_from_memory and DynamicImage::to_rgba8: a
/// successful decode yields a raw RGBA buffer of exactly four bytes per
/// pixel; failure reports the codec's message.
#[verifier::external_body]
fn decode_rgba(bytes: &Vec<u8>) -> (r: Result<(u32, u32, Vec<u8>), String>)
    ensures
        match r {
            Ok(t) => decoded_rgba_of(bytes@) == Some((t.0, t.1, t.2@))
                && t.2@.len() == t.0 as int * (t.1 as int) * 4
                && t.0 as int * (t.1 as int) * 4 <= usize::MAX,
            Err(_) => decoded_rgba_of(bytes@) is None,
        },
{
    match image::load_from_memory(bytes) {
        Ok(img) => {
            let rgba = img.to_rgba8();
            let (w, h) = rgba.dimensions();
            Ok((w, h, rgba.into_raw()))
        },
        Err(e) => Err(e.to_string()),
    }
}

/// Relies on image::RgbaImage::from_raw and DynamicImage::write_to with the
/// PNG format: the encoder writes a byte stream determined by the pixel
/// data alone, and writing an RGBA8 buffer of matching length to an
/// in-memory cursor fails only when a dimension is zero; otherwise the
/// failure is reported with the codec's message.
#[verifier::external_body]
fn encode_png(w: u32, h: u32, data: &Vec<u8>) -> (r: Result<Vec<u8>, String>)
    requires
        data@.len() == w as int * (h as int) * 4,
    ensures
        match r {
            Ok(v) => v@ == png_bytes_of(w, h, data@),
            Err(_) => true,
        },
        w >= 1 && h >= 1 ==> r is Ok,
{
    let img = match image::RgbaImage::from_raw(w, h, data.clone()) {
        Some(img) => img,
        None => return Err("pixel buffer does not match its dimensions".to_string()),
    };
    let mut out = std::io::Cursor::new(Vec::new());
    match image::DynamicImage::ImageRgba8(img).write_to(&mut out, image::ImageOutputFormat::Png) {
        Ok(()) => Ok(out.into_inner()),
        Err(e) => Err(e.to_string()),
    }
}

impl ImageData {
    /// Decodes a raster file into a single-layer document: the decoded
    /// picture becomes a fully-opaque Normal-mode "Background" layer. The
    /// document state is untouched by a failed decode, which is reported
    /// with the codec's message.
    pub fn from_source(bytes: &Vec<u8>) -> (r: Result<ImageData, String>)
        ensures
            match r {
                Ok(d) => ({
                    &&& decoded_rgba_of(bytes@) matches Some(t)
                    &&& d.wf()
                    &&& d.width == t.0
                    &&& d.height == t.1
                    &&& d.layers@.len() == 1
                    &&& d@.layers[0].pixels == t.2
                    &&& d@.layers[0].name == "Background"@
                    &&& d@.layers[0].visible == true
                    &&& d@.layers[0].opacity == 255
                    &&& d@.layers[0].blend_mode == BlendMode::Normal
                    &&& d.active_layer == 0
                    &&& d.needs_update == true
                }),
                Err(_) => decoded_rgba_of(bytes@) is None,
            },
    {
        match decode_rgba(bytes) {
            Ok((w, h, data)) => {
                let layer = Layer {
                    name: "Background".to_string(),
                    visible: true,
                    opacity: 255,
                    blend_mode: BlendMode::Normal,
                    pixels: PixelBuffer { width: w, height: h, data },
                };
                let mut layers: Vec<Layer> = Vec::new();
                layers.push(layer);
                Ok(ImageData {
                    layers,
                    active_layer: 0,
                    width: w,
                    height: h,
                    needs_update: true,
                    composite_cache: None,
                })
            },
            Err(e) => Err(e),
        }
    }

    /// Flattens the document and encodes the composite as a PNG byte
    /// stream. Encoding succeeds on every canvas with at least one pixel;
    /// a failure — possible only for a zero-sized canvas — is reported with
    /// the codec's message and changes nothing.
    pub fn to_png_bytes(&self) -> (r: Result<Vec<u8>, String>)
        requires
            self.wf(),
        ensures
            match r {
                Ok(v) => v@ == png_bytes_of(self.width, self.height, flatten_spec(self@)),
                Err(_) => true,
            },
            self.width >= 1 && self.height >= 1 ==> r is Ok,
    {
        let flat = self.flatten();
        encode_png(self.width, self.height, &flat.data)
    }
}

} // verus!
