//! Whole-image operations: the exact geometric transforms, implemented and
//! proved pixel by pixel, and interpolating resize, delegated to the image
//! codec library.

use vstd::prelude::*;

use crate::pixel_buffer::{pixel_at, pixel_xy, PixelBuffer};

verus! {

/// A pixel-exact coordinate transform: each output pixel is a copy of one
/// source pixel.
#[derive(Clone, Copy)]
enum Remap {
    Rot90,
    Rot180,
    Rot270,
    FlipH,
    FlipV,
    Crop(u32, u32),
}

/// The source coordinates that output pixel `(x, y)` copies, for a source
/// of size `sw x sh`.
spec fn remap_src(op: Remap, sw: int, sh: int, x: int, y: int) -> (int, int) {
    match op {
        Remap::Rot90 => (y, sh - 1 - x),
        Remap::Rot180 => (sw - 1 - x, sh - 1 - y),
        Remap::Rot270 => (sw - 1 - y, x),
        Remap::FlipH => (sw - 1 - x, y),
        Remap::FlipV => (x, sh - 1 - y),
        Remap::Crop(cx, cy) => (cx + x, cy + y),
    }
}

/// Copies source pixels into a fresh `out_w x out_h` grid along the given
/// coordinate transform.
fn remap(src: &PixelBuffer, out_w: u32, out_h: u32, op: Remap) -> (r: PixelBuffer)
    requires
        src.wf(),
        out_w as int * (out_h as int) * 4 <= usize::MAX,
        forall|x: int, y: int|
            #![trigger remap_src(op, src.width as int, src.height as int, x, y)]
            0 <= x < out_w as int && 0 <= y < out_h as int
            ==> ({
                let s = remap_src(op, src.width as int, src.height as int, x, y);
                0 <= s.0 < src.width as int && 0 <= s.1 < src.height as int
            }),
    ensures
        r.wf(),
        r.width == out_w,
        r.height == out_h,
        forall|x: int, y: int| 0 <= x < out_w as int && 0 <= y < out_h as int
            ==> #[trigger] pixel_xy(r@, out_w as int, x, y) == pixel_xy(
                src@,
                src.width as int,
                remap_src(op, src.width as int, src.height as int, x, y).0,
                remap_src(op, src.width as int, src.height as int, x, y).1,
            ),
{
    proof {
        assert(out_w as int * (out_h as int) <= usize::MAX
            && out_w as usize * (out_h as usize) * 4 == out_w as int * (out_h as int) * 4)
            by (nonlinear_arith)
            requires
                out_w as int * (out_h as int) * 4 <= usize::MAX,
        ;
    }
    let mut data: Vec<u8> = Vec::new();
    let ghost ow = out_w as int;
    let mut y: u32 = 0;
    let mut count: usize = 0;
    while y < out_h
        invariant
            src.wf(),
            y <= out_h,
            ow == out_w as int,
            out_w as int * (out_h as int) * 4 <= usize::MAX,
            count == y as int * ow,
            count <= out_w as int * (out_h as int),
            data@.len() == 4 * count,
            forall|x: int, y: int|
                #![trigger remap_src(op, src.width as int, src.height as int, x, y)]
                0 <= x < out_w as int && 0 <= y < out_h as int
                ==> ({
                    let s = remap_src(op, src.width as int, src.height as int, x, y);
                    0 <= s.0 < src.width as int && 0 <= s.1 < src.height as int
                }),
            forall|xx: int, yy: int| 0 <= xx < ow && 0 <= yy < y as int
                ==> #[trigger] pixel_xy(data@, ow, xx, yy) == pixel_xy(
                    src@,
                    src.width as int,
                    remap_src(op, src.width as int, src.height as int, xx, yy).0,
                    remap_src(op, src.width as int, src.height as int, xx, yy).1,
                ),
        decreases out_h - y,
    {
        proof {
            assert((y as int + 1) * ow == y as int * ow + ow && y as int * ow + ow
                <= out_w as int * (out_h as int)) by (nonlinear_arith)
                requires
                    ow == out_w as int,
                    0 <= y as int && (y as int) < out_h as int,
            ;
        }
        let ghost row_end = y as int * ow + ow;
        let mut x: u32 = 0;
        while x < out_w
            invariant
                src.wf(),
                y < out_h,
                x <= out_w,
                ow == out_w as int,
                out_w as int * (out_h as int) * 4 <= usize::MAX,
                count == y as int * ow + x as int,
                row_end == y as int * ow + ow,
                row_end <= out_w as int * (out_h as int),
                count <= out_w as int * (out_h as int),
                data@.len() == 4 * count,
                forall|x: int, y: int|
                    #![trigger remap_src(op, src.width as int, src.height as int, x, y)]
                    0 <= x < out_w as int && 0 <= y < out_h as int
                    ==> ({
                        let s = remap_src(op, src.width as int, src.height as int, x, y);
                        0 <= s.0 < src.width as int && 0 <= s.1 < src.height as int
                    }),
                forall|xx: int, yy: int| 0 <= xx < ow && 0 <= yy < y as int
                    ==> #[trigger] pixel_xy(data@, ow, xx, yy) == pixel_xy(
                        src@,
                        src.width as int,
                        remap_src(op, src.width as int, src.height as int, xx, yy).0,
                        remap_src(op, src.width as int, src.height as int, xx, yy).1,
                    ),
                forall|xx: int| 0 <= xx < x as int
                    ==> #[trigger] pixel_xy(data@, ow, xx, y as int) == pixel_xy(
                        src@,
                        src.width as int,
                        remap_src(op, src.width as int, src.height as int, xx, y as int).0,
                        remap_src(op, src.width as int, src.height as int, xx, y as int).1,
                    ),
            decreases out_w - x,
        {
            proof {
                assert(({
                    let s = remap_src(op, src.width as int, src.height as int, x as int, y as int);
                    0 <= s.0 < src.width as int && 0 <= s.1 < src.height as int
                }));
            }
            let (sx, sy): (u32, u32) = match op {
                Remap::Rot90 => (y, src.height - 1 - x),
                Remap::Rot180 => (src.width - 1 - x, src.height - 1 - y),
                Remap::Rot270 => (src.width - 1 - y, x),
                Remap::FlipH => (src.width - 1 - x, y),
                Remap::FlipV => (x, src.height - 1 - y),
                Remap::Crop(cx, cy) => (cx + x, cy + y),
            };
            let c = src.get_pixel(sx, sy);
            let ghost prev = data@;
            data.push(c.r);
            data.push(c.g);
            data.push(c.b);
            data.push(c.a);
            count = count + 1;
            proof {
                let k = y as int * ow + x as int;
                assert(data@[4 * k] == c.r && data@[4 * k + 1] == c.g && data@[4 * k + 2] == c.b
                    && data@[4 * k + 3] == c.a);
                assert(pixel_at(data@, k) == c);
                assert forall|xx: int, yy: int| 0 <= xx < ow && 0 <= yy < y as int
                    implies #[trigger] pixel_xy(data@, ow, xx, yy) == pixel_xy(
                        src@,
                        src.width as int,
                        remap_src(op, src.width as int, src.height as int, xx, yy).0,
                        remap_src(op, src.width as int, src.height as int, xx, yy).1,
                    ) by {
                    assert(0 <= yy * ow + xx < k) by (nonlinear_arith)
                        requires
                            0 <= xx < ow,
                            0 <= yy < y as int,
                            k == y as int * ow + x as int,
                            0 <= x as int,
                    ;
                    let j = yy * ow + xx;
                    assert(data@[4 * j] == prev[4 * j] && data@[4 * j + 1] == prev[4 * j + 1]
                        && data@[4 * j + 2] == prev[4 * j + 2]
                        && data@[4 * j + 3] == prev[4 * j + 3]);
                    assert(pixel_xy(data@, ow, xx, yy) == pixel_xy(prev, ow, xx, yy));
                }
                assert forall|xx: int| 0 <= xx < x as int + 1
                    implies #[trigger] pixel_xy(data@, ow, xx, y as int) == pixel_xy(
                        src@,
                        src.width as int,
                        remap_src(op, src.width as int, src.height as int, xx, y as int).0,
                        remap_src(op, src.width as int, src.height as int, xx, y as int).1,
                    ) by {
                    if xx < x as int {
                        let j = y as int * ow + xx;
                        assert(0 <= j < k);
                        assert(data@[4 * j] == prev[4 * j] && data@[4 * j + 1] == prev[4 * j + 1]
                            && data@[4 * j + 2] == prev[4 * j + 2]
                            && data@[4 * j + 3] == prev[4 * j + 3]);
                        assert(pixel_xy(data@, ow, xx, y as int) == pixel_xy(prev, ow, xx, y as int));
                    } else {
                        assert(pixel_xy(data@, ow, xx, y as int) == pixel_at(data@, k));
                    }
                }
            }
            x = x + 1;
        }
        y = y + 1;
    }
    proof {
        assert(out_h as int * ow == out_w as int * (out_h as int)) by (nonlinear_arith)
            requires
                ow == out_w as int,
        ;
    }
    PixelBuffer { width: out_w, height: out_h, data }
}

/// The width that survives cropping a span of `want` pixels starting at
/// `pos` out of `avail` available: clamped to what is actually there.
pub open spec fn clamped_span(pos: int, want: int, avail: int) -> int {
    if pos >= avail {
        0
    } else if want <= avail - pos {
        want
    } else {
        avail - pos
    }
}

/// What scaling an image to fit within a bounding box returns: the size and
/// raw RGBA bytes of the Lanczos-resampled image. The result depends only
/// on the source pixels and the bounds.
pub uninterp spec fn lanczos_resize_of(w: u32, h: u32, data: Seq<u8>, nw: u32, nh: u32) -> (u32, u32, Seq<u8>);

/// Relies on image::DynamicImage::resize with the Lanczos3 filter: the
/// result preserves aspect ratio and fits within the requested bounds
/// (never degenerating below one pixel), and its raw RGBA buffer holds four
/// bytes per pixel.
#[verifier::external_body]
fn lanczos_resize_raw(w: u32, h: u32, data: &Vec<u8>, nw: u32, nh: u32) -> (r: (u32, u32, Vec<u8>))
    requires
        data@.len() == w as int * (h as int) * 4,
        w >= 1,
        h >= 1,
        nw >= 1,
        nh >= 1,
    ensures
        (r.0, r.1, r.2@) == lanczos_resize_of(w, h, data@, nw, nh),
        1 <= r.0 <= nw,
        1 <= r.1 <= nh,
        r.2@.len() == r.0 as int * (r.1 as int) * 4,
{
    let img = image::RgbaImage::from_raw(w, h, data.clone()).unwrap();
    let resized = image::DynamicImage::ImageRgba8(img)
        .resize(nw, nh, image::imageops::FilterType::Lanczos3)
        .to_rgba8();
    let (rw, rh) = resized.dimensions();
    (rw, rh, resized.into_raw())
}

/// Whole-image operations on pixel grids, as offered by the image menu.
pub struct ImageOperations;

impl ImageOperations {
    /// Scales the image to the largest size that fits within
    /// `width x height`, preserving aspect ratio, with Lanczos resampling.
    pub fn resize(img: &PixelBuffer, width: u32, height: u32) -> (r: PixelBuffer)
        requires
            img.wf(),
            img.width >= 1,
            img.height >= 1,
            width >= 1,
            height >= 1,
        ensures
            r.wf(),
            1 <= r.width <= width,
            1 <= r.height <= height,
            (r.width, r.height, r@) == lanczos_resize_of(img.width, img.height, img@, width, height),
    {
        let (rw, rh, data) = lanczos_resize_raw(img.width, img.height, &img.data, width, height);
        PixelBuffer { width: rw, height: rh, data }
    }

    /// The rectangle `[x, x + width) x [y, y + height)` of the image,
    /// clamped to the canvas: pixel `(i, j)` of the result is source pixel
    /// `(x + i, y + j)`.
    pub fn crop(img: &PixelBuffer, x: u32, y: u32, width: u32, height: u32) -> (r: PixelBuffer)
        requires
            img.wf(),
        ensures
            r.wf(),
            r.width as int == clamped_span(x as int, width as int, img.width as int),
            r.height as int == clamped_span(y as int, height as int, img.height as int),
            forall|i: int, j: int| 0 <= i < r.width as int && 0 <= j < r.height as int
                ==> #[trigger] pixel_xy(r@, r.width as int, i, j)
                    == pixel_xy(img@, img.width as int, x as int + i, y as int + j),
    {
        let cw: u32 = if x >= img.width {
            0
        } else if width <= img.width - x {
            width
        } else {
            img.width - x
        };
        let ch: u32 = if y >= img.height {
            0
        } else if height <= img.height - y {
            height
        } else {
            img.height - y
        };
        proof {
            crate::pixel_buffer::lemma_vec_len_bound(&img.data);
            assert(cw as int * (ch as int) * 4 <= img.width as int * (img.height as int) * 4)
                by (nonlinear_arith)
                requires
                    cw <= img.width,
                    ch <= img.height,
            ;
        }
        remap(img, cw, ch, Remap::Crop(x, y))
    }

    /// A quarter turn clockwise: pixel `(i, j)` of the result is source
    /// pixel `(j, height - 1 - i)`.
    pub fn rotate_90(img: &PixelBuffer) -> (r: PixelBuffer)
        requires
            img.wf(),
        ensures
            r.wf(),
            r.width == img.height,
            r.height == img.width,
            forall|i: int, j: int| 0 <= i < img.height as int && 0 <= j < img.width as int
                ==> #[trigger] pixel_xy(r@, img.height as int, i, j)
                    == pixel_xy(img@, img.width as int, j, img.height as int - 1 - i),
    {
        proof {
            crate::pixel_buffer::lemma_vec_len_bound(&img.data);
            assert(img.height as int * (img.width as int) * 4
                == img.width as int * (img.height as int) * 4) by (nonlinear_arith);
        }
        remap(img, img.height, img.width, Remap::Rot90)
    }

    /// A half turn: pixel `(i, j)` of the result is source pixel
    /// `(width - 1 - i, height - 1 - j)`.
    pub fn rotate_180(img: &PixelBuffer) -> (r: PixelBuffer)
        requires
            img.wf(),
        ensures
            r.wf(),
            r.width == img.width,
            r.height == img.height,
            forall|i: int, j: int| 0 <= i < img.width as int && 0 <= j < img.height as int
                ==> #[trigger] pixel_xy(r@, img.width as int, i, j) == pixel_xy(
                    img@,
                    img.width as int,
                    img.width as int - 1 - i,
                    img.height as int - 1 - j,
                ),
    {
        proof {
            crate::pixel_buffer::lemma_vec_len_bound(&img.data);
        }
        remap(img, img.width, img.height, Remap::Rot180)
    }

    /// A quarter turn counter-clockwise: pixel `(i, j)` of the result is
    /// source pixel `(width - 1 - j, i)`.
    pub fn rotate_270(img: &PixelBuffer) -> (r: PixelBuffer)
        requires
            img.wf(),
        ensures
            r.wf(),
            r.width == img.height,
            r.height == img.width,
            forall|i: int, j: int| 0 <= i < img.height as int && 0 <= j < img.width as int
                ==> #[trigger] pixel_xy(r@, img.height as int, i, j)
                    == pixel_xy(img@, img.width as int, img.width as int - 1 - j, i),
    {
        proof {
            crate::pixel_buffer::lemma_vec_len_bound(&img.data);
            assert(img.height as int * (img.width as int) * 4
                == img.width as int * (img.height as int) * 4) by (nonlinear_arith);
        }
        remap(img, img.height, img.width, Remap::Rot270)
    }

    /// A left-right mirror: pixel `(i, j)` of the result is source pixel
    /// `(width - 1 - i, j)`.
    pub fn flip_horizontal(img: &PixelBuffer) -> (r: PixelBuffer)
        requires
            img.wf(),
        ensures
            r.wf(),
            r.width == img.width,
            r.height == img.height,
            forall|i: int, j: int| 0 <= i < img.width as int && 0 <= j < img.height as int
                ==> #[trigger] pixel_xy(r@, img.width as int, i, j)
                    == pixel_xy(img@, img.width as int, img.width as int - 1 - i, j),
    {
        proof {
            crate::pixel_buffer::lemma_vec_len_bound(&img.data);
        }
        remap(img, img.width, img.height, Remap::FlipH)
    }

    /// A top-bottom mirror: pixel `(i, j)` of the result is source pixel
    /// `(i, height - 1 - j)`.
    pub fn flip_vertical(img: &PixelBuffer) -> (r: PixelBuffer)
        requires
            img.wf(),
        ensures
            r.wf(),
            r.width == img.width,
            r.height == img.height,
            forall|i: int, j: int| 0 <= i < img.width as int && 0 <= j < img.height as int
                ==> #[trigger] pixel_xy(r@, img.width as int, i, j)
                    == pixel_xy(img@, img.width as int, i, img.height as int - 1 - j),
    {
        proof {
            crate::pixel_buffer::lemma_vec_len_bound(&img.data);
        }
        remap(img, img.width, img.height, Remap::FlipV)
    }
}

} // verus!
