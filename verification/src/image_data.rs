//! The layered document: an ordered stack of pixel layers with an active
//! index, lazily recomposited into a single displayable image.

use vstd::prelude::*;

use crate::blend::{blend_pixels, blend_pixels_spec, BlendMode};
use crate::color::Rgba;
use crate::pixel_buffer::{lemma_pixel_index_bounds, pixel_at, pixel_xy, PixelBuffer};

verus! {

/// The mathematical content of a layer: its metadata and raw pixel bytes.
pub ghost struct LayerView {
    pub name: Seq<char>,
    pub visible: bool,
    pub opacity: u8,
    pub blend_mode: BlendMode,
    pub pixels: Seq<u8>,
}

/// One paintable layer: a pixel grid with visibility, opacity and blend-mode
/// metadata. Opacity is on the 0..=255 scale, 255 meaning fully opaque.
pub struct Layer {
    pub name: String,
    pub visible: bool,
    pub opacity: u8,
    pub blend_mode: BlendMode,
    pub pixels: PixelBuffer,
}

impl View for Layer {
    type V = LayerView;

    open spec fn view(&self) -> LayerView {
        LayerView {
            name: self.name@,
            visible: self.visible,
            opacity: self.opacity,
            blend_mode: self.blend_mode,
            pixels: self.pixels@,
        }
    }
}

impl Layer {
    /// A fully transparent white layer of the given size, visible, fully
    /// opaque, in Normal mode.
    pub fn new(name: String, width: u32, height: u32) -> (l: Layer)
        requires
            width as int * (height as int) * 4 <= usize::MAX,
        ensures
            l.pixels.wf(),
            l.pixels.width == width,
            l.pixels.height == height,
            l@.name == name@,
            l.visible == true,
            l.opacity == 255,
            l.blend_mode == BlendMode::Normal,
            forall|k: int| 0 <= k < width as int * (height as int)
                ==> pixel_at(l@.pixels, k) == Rgba::transparent_white(),
    {
        let data = PixelBuffer::new_filled(width, height, Rgba::transparent_white());
        Layer {
            name,
            visible: true,
            opacity: 255,
            blend_mode: BlendMode::Normal,
            pixels: data,
        }
    }
}

impl Clone for Layer {
    /// A clone carries the same metadata and the same pixel bytes.
    fn clone(&self) -> (r: Self)
        ensures
            r@ == self@,
            r.pixels.width == self.pixels.width,
            r.pixels.height == self.pixels.height,
    {
        Layer {
            name: self.name.clone(),
            visible: self.visible,
            opacity: self.opacity,
            blend_mode: self.blend_mode,
            pixels: self.pixels.clone(),
        }
    }
}

/// The mathematical content of a document: its layer stack, bottom first,
/// the active-layer index, and its dimensions.
pub ghost struct DocView {
    pub layers: Seq<LayerView>,
    pub active_layer: int,
    pub width: int,
    pub height: int,
}

/// A layered document. Layer order is back-to-front: index 0 is the bottom.
/// The layer list is never empty, every layer matches the document's
/// dimensions, and `active_layer` is always a valid index. `needs_update`
/// gates `composite_cache`: whenever it is false the cache holds the exact
/// flattened composite, so any direct mutation of a layer must set it.
pub struct ImageData {
    pub layers: Vec<Layer>,
    pub active_layer: usize,
    pub width: u32,
    pub height: u32,
    pub needs_update: bool,
    pub composite_cache: Option<PixelBuffer>,
}

impl View for ImageData {
    type V = DocView;

    open spec fn view(&self) -> DocView {
        DocView {
            layers: self.layers@.map_values(|l: Layer| l@),
            active_layer: self.active_layer as int,
            width: self.width as int,
            height: self.height as int,
        }
    }
}

/// The backdrop a composite starts from: every sample transparent white.
pub open spec fn background_seq(w: int, h: int) -> Seq<u8> {
    Seq::new((w * h * 4) as nat, |i: int| if i % 4 == 3 { 0u8 } else { 255u8 })
}

/// One channel of an RGBA sample, by channel index 0..=3.
pub open spec fn rgba_channel(c: Rgba, j: int) -> u8 {
    if j == 0 {
        c.r
    } else if j == 1 {
        c.g
    } else if j == 2 {
        c.b
    } else {
        c.a
    }
}

/// Compositing a whole overlay byte sequence onto a base of the same size:
/// every pixel is blended independently.
pub open spec fn blend_seq_spec(base: Seq<u8>, over: Seq<u8>, mode: BlendMode, opacity: u8) -> Seq<u8> {
    Seq::new(
        base.len(),
        |i: int| rgba_channel(
            blend_pixels_spec(pixel_at(base, i / 4), pixel_at(over, i / 4), mode, opacity),
            i % 4,
        ),
    )
}

/// The composite of the bottom `n` layers of a stack, bottom to top,
/// skipping invisible layers.
pub open spec fn flatten_upto(layers: Seq<LayerView>, w: int, h: int, n: int) -> Seq<u8>
    decreases n,
{
    if n <= 0 {
        background_seq(w, h)
    } else {
        let prev = flatten_upto(layers, w, h, n - 1);
        if layers[n - 1].visible {
            blend_seq_spec(prev, layers[n - 1].pixels, layers[n - 1].blend_mode, layers[n - 1].opacity)
        } else {
            prev
        }
    }
}

/// The fully flattened composite of a document.
pub open spec fn flatten_spec(dv: DocView) -> Seq<u8> {
    flatten_upto(dv.layers, dv.width, dv.height, dv.layers.len() as int)
}

impl ImageData {
    /// Every structural invariant of a document: a non-empty layer stack,
    /// an in-range active index, layers sized to the document, and a
    /// composite cache that is exact whenever `needs_update` is false.
    pub open spec fn wf(self) -> bool {
        &&& self.layers@.len() >= 1
        &&& (self.active_layer as int) < self.layers@.len()
        &&& self.width as int * (self.height as int) * 4 <= usize::MAX
        &&& forall|i: int| 0 <= i < self.layers@.len()
            ==> (#[trigger] self.layers@[i]).pixels.wf()
                && self.layers@[i].pixels.width == self.width
                && self.layers@[i].pixels.height == self.height
        &&& !self.needs_update ==> match self.composite_cache {
            Some(pb) => pb.wf() && pb.width == self.width && pb.height == self.height
                && pb@ == flatten_spec(self@),
            None => false,
        }
    }

    /// A new document with one fully transparent layer named "Background".
    pub fn new(width: u32, height: u32) -> (d: ImageData)
        requires
            width as int * (height as int) * 4 <= usize::MAX,
        ensures
            d.wf(),
            d.width == width,
            d.height == height,
            d.layers@.len() == 1,
            d.active_layer == 0,
            d.needs_update == true,
            d@.layers[0].name == "Background"@,
            d@.layers[0].visible == true,
            d@.layers[0].opacity == 255,
            d@.layers[0].blend_mode == BlendMode::Normal,
            forall|k: int| 0 <= k < width as int * (height as int)
                ==> pixel_at(d@.layers[0].pixels, k) == Rgba::transparent_white(),
    {
        let mut layers: Vec<Layer> = Vec::new();
        layers.push(Layer::new("Background".to_string(), width, height));
        ImageData {
            layers,
            active_layer: 0,
            width,
            height,
            needs_update: true,
            composite_cache: None,
        }
    }

    /// The document width in pixels.
    pub fn width(&self) -> (w: u32)
        ensures
            w == self.width,
    {
        self.width
    }

    /// The document height in pixels.
    pub fn height(&self) -> (h: u32)
        ensures
            h == self.height,
    {
        self.height
    }

    /// The number of layers in the stack.
    pub fn layer_count(&self) -> (n: usize)
        ensures
            n == self.layers@.len(),
    {
        self.layers.len()
    }

    /// Appends a fresh fully transparent layer on top, makes it active and
    /// marks the composite stale. Always succeeds.
    pub fn add_layer(&mut self, name: String)
        requires
            old(self).wf(),
        ensures
            final(self).wf(),
            final(self).width == old(self).width,
            final(self).height == old(self).height,
            final(self).layers@.len() == old(self).layers@.len() + 1,
            final(self)@.layers =~= old(self)@.layers.push(
                final(self)@.layers[old(self).layers@.len() as int]),
            final(self)@.layers.last().name == name@,
            final(self)@.layers.last().visible == true,
            final(self)@.layers.last().opacity == 255,
            final(self)@.layers.last().blend_mode == BlendMode::Normal,
            forall|k: int| 0 <= k < old(self).width as int * (old(self).height as int)
                ==> pixel_at(final(self)@.layers.last().pixels, k) == Rgba::transparent_white(),
            final(self).active_layer as int == old(self).layers@.len(),
            final(self).needs_update == true,
    {
        let layer = Layer::new(name, self.width, self.height);
        self.layers.push(layer);
        self.active_layer = self.layers.len() - 1;
        self.needs_update = true;
    }

    /// Removes the layer at `index` if the stack keeps at least one layer
    /// and the index is valid, clamping the active index back into range and
    /// marking the composite stale; silently a no-op on invalid input.
    pub fn remove_layer(&mut self, index: usize)
        requires
            old(self).wf(),
        ensures
            final(self).wf(),
            old(self).layers@.len() > 1 && index < old(self).layers@.len() ==> {
                &&& final(self)@.layers =~= old(self)@.layers.remove(index as int)
                &&& final(self).width == old(self).width
                &&& final(self).height == old(self).height
                &&& final(self).active_layer == if old(self).active_layer as int
                    >= old(self).layers@.len() - 1 {
                    (old(self).layers@.len() - 2) as usize
                } else {
                    old(self).active_layer
                }
                &&& final(self).needs_update == true
            },
            !(old(self).layers@.len() > 1 && index < old(self).layers@.len())
                ==> *final(self) == *old(self),
    {
        if self.layers.len() > 1 && index < self.layers.len() {
            self.layers.remove(index);
            if self.active_layer >= self.layers.len() {
                self.active_layer = self.layers.len() - 1;
            }
            self.needs_update = true;
        }
    }

    /// The layer edits are applied to.
    pub fn get_active_layer(&self) -> (l: &Layer)
        requires
            self.wf(),
        ensures
            *l == self.layers@[self.active_layer as int],
    {
        &self.layers[self.active_layer]
    }

    /// Mutable access to the layer edits are applied to. A caller that
    /// touches the layer's pixels must mark the document dirty afterwards,
    /// or the cached composite will serve stale pixels.
    pub fn get_active_layer_mut(&mut self) -> (l: &mut Layer)
        requires
            old(self).wf(),
        ensures
            *l == old(self).layers@[old(self).active_layer as int],
            final(self).layers@ == old(self).layers@.update(
                old(self).active_layer as int, *final(l)),
            final(self).active_layer == old(self).active_layer,
            final(self).width == old(self).width,
            final(self).height == old(self).height,
            final(self).needs_update == old(self).needs_update,
            final(self).composite_cache == old(self).composite_cache,
    {
        let idx = self.active_layer;
        &mut self.layers[idx]
    }

    /// Makes the layer at `index` the target of subsequent edits; a no-op on
    /// an out-of-range index.
    pub fn set_active_layer(&mut self, index: usize)
        requires
            old(self).wf(),
        ensures
            final(self).wf(),
            index < old(self).layers@.len() ==> *final(self) == (ImageData {
                active_layer: index,
                ..*old(self)
            }),
            index >= old(self).layers@.len() ==> *final(self) == *old(self),
    {
        if index < self.layers.len() {
            self.active_layer = index;
        }
    }

    /// Shows or hides the layer at `index` and marks the composite stale;
    /// a no-op on an out-of-range index.
    pub fn set_layer_visible(&mut self, index: usize, visible: bool)
        requires
            old(self).wf(),
        ensures
            final(self).wf(),
            index < old(self).layers@.len() ==> {
                &&& final(self)@.layers =~= old(self)@.layers.update(index as int, LayerView {
                    visible: visible,
                    ..old(self)@.layers[index as int]
                })
                &&& final(self).active_layer == old(self).active_layer
                &&& final(self).width == old(self).width
                &&& final(self).height == old(self).height
                &&& final(self).needs_update == true
            },
            index >= old(self).layers@.len() ==> *final(self) == *old(self),
    {
        if index < self.layers.len() {
            let l = &mut self.layers[index];
            l.visible = visible;
            self.needs_update = true;
        }
    }

    /// Sets the opacity (0..=255) of the layer at `index` and marks the
    /// composite stale; a no-op on an out-of-range index.
    pub fn set_layer_opacity(&mut self, index: usize, opacity: u8)
        requires
            old(self).wf(),
        ensures
            final(self).wf(),
            index < old(self).layers@.len() ==> {
                &&& final(self)@.layers =~= old(self)@.layers.update(index as int, LayerView {
                    opacity: opacity,
                    ..old(self)@.layers[index as int]
                })
                &&& final(self).active_layer == old(self).active_layer
                &&& final(self).width == old(self).width
                &&& final(self).height == old(self).height
                &&& final(self).needs_update == true
            },
            index >= old(self).layers@.len() ==> *final(self) == *old(self),
    {
        if index < self.layers.len() {
            let l = &mut self.layers[index];
            l.opacity = opacity;
            self.needs_update = true;
        }
    }

    /// Sets the blend mode of the layer at `index` and marks the composite
    /// stale; a no-op on an out-of-range index.
    pub fn set_layer_blend_mode(&mut self, index: usize, mode: BlendMode)
        requires
            old(self).wf(),
        ensures
            final(self).wf(),
            index < old(self).layers@.len() ==> {
                &&& final(self)@.layers =~= old(self)@.layers.update(index as int, LayerView {
                    blend_mode: mode,
                    ..old(self)@.layers[index as int]
                })
                &&& final(self).active_layer == old(self).active_layer
                &&& final(self).width == old(self).width
                &&& final(self).height == old(self).height
                &&& final(self).needs_update == true
            },
            index >= old(self).layers@.len() ==> *final(self) == *old(self),
    {
        if index < self.layers.len() {
            let l = &mut self.layers[index];
            l.blend_mode = mode;
            self.needs_update = true;
        }
    }

    /// Duplicates the active layer on top of the stack, makes the copy
    /// active and marks the composite stale.
    pub fn duplicate_active_layer(&mut self)
        requires
            old(self).wf(),
        ensures
            final(self).wf(),
            final(self)@.layers =~= old(self)@.layers.push(
                old(self)@.layers[old(self).active_layer as int]),
            final(self).active_layer as int == old(self).layers@.len(),
            final(self).width == old(self).width,
            final(self).height == old(self).height,
            final(self).needs_update == true,
    {
        let layer = self.layers[self.active_layer].clone();
        self.layers.push(layer);
        self.active_layer = self.layers.len() - 1;
        self.needs_update = true;
    }

    /// Marks the cached composite stale; the next `get_composite` recomputes.
    pub fn mark_dirty(&mut self)
        requires
            old(self).wf(),
        ensures
            final(self).wf(),
            *final(self) == (ImageData { needs_update: true, ..*old(self) }),
    {
        self.needs_update = true;
    }

    /// Writes `color` into the active layer at `(x, y)` and marks the
    /// composite stale; silently a no-op outside the canvas.
    pub fn draw_pixel(&mut self, x: u32, y: u32, color: Rgba)
        requires
            old(self).wf(),
        ensures
            final(self).wf(),
            x < old(self).width && y < old(self).height ==> {
                &&& final(self)@.layers =~= old(self)@.layers.update(
                    old(self).active_layer as int,
                    LayerView {
                        pixels: crate::pixel_buffer::put_pixel_seq(
                            old(self)@.layers[old(self).active_layer as int].pixels,
                            y as int * (old(self).width as int) + x as int,
                            color,
                        ),
                        ..old(self)@.layers[old(self).active_layer as int]
                    },
                )
                &&& final(self).active_layer == old(self).active_layer
                &&& final(self).width == old(self).width
                &&& final(self).height == old(self).height
                &&& final(self).needs_update == true
            },
            !(x < old(self).width && y < old(self).height) ==> *final(self) == *old(self),
    {
        if x < self.width && y < self.height {
            let idx = self.active_layer;
            let l = &mut self.layers[idx];
            l.pixels.put_pixel(x, y, color);
            self.needs_update = true;
        }
    }
}

/// What writing one pixel to the active layer leaves of a document's layer
/// stack: the active layer's sample at `(x, y)` replaced when the position
/// is on the canvas, everything untouched otherwise.
pub open spec fn put_pixel_target(dv: DocView, x: int, y: int, color: Rgba) -> Seq<LayerView> {
    if 0 <= x < dv.width && 0 <= y < dv.height {
        dv.layers.update(dv.active_layer, LayerView {
            pixels: crate::pixel_buffer::put_pixel_seq(
                dv.layers[dv.active_layer].pixels,
                y * dv.width + x,
                color,
            ),
            ..dv.layers[dv.active_layer]
        })
    } else {
        dv.layers
    }
}

/// Whether `(x, y)` lies within Euclidean distance `r` of `(cx, cy)`:
/// the squared distance is at most `r` squared.
pub open spec fn in_circle(x: int, y: int, cx: int, cy: int, r: int) -> bool {
    (x - cx) * (x - cx) + (y - cy) * (y - cy) <= r * r
}

/// Distinct in-bounds coordinates have distinct flat pixel indices.
proof fn lemma_pixel_index_injective(x1: int, y1: int, x2: int, y2: int, w: int)
    requires
        0 <= x1 < w,
        0 <= x2 < w,
        0 <= y1,
        0 <= y2,
        !(x1 == x2 && y1 == y2),
    ensures
        y1 * w + x1 != y2 * w + x2,
{
    assert(y1 * w + x1 != y2 * w + x2) by (nonlinear_arith)
        requires
            0 <= x1 < w,
            0 <= x2 < w,
            0 <= y1,
            0 <= y2,
            !(x1 == x2 && y1 == y2),
    ;
}

/// What a circle stroke leaves at `(x, y)`: the brush color inside the
/// circle, the original sample elsewhere.
pub open spec fn circle_target(orig: Seq<u8>, w: int, x: int, y: int, cx: int, cy: int, r: int, color: Rgba) -> Rgba {
    if in_circle(x, y, cx, cy, r) {
        color
    } else {
        pixel_xy(orig, w, x, y)
    }
}

/// The backdrop is transparent white at every sample.
proof fn lemma_background_pixels(w: int, h: int)
    requires
        w >= 0,
        h >= 0,
    ensures
        background_seq(w, h).len() == w * h * 4,
        forall|k: int| 0 <= k < w * h
            ==> pixel_at(background_seq(w, h), k) == Rgba::spec_transparent_white(),
{
    assert(0 <= w * h && w * h * 4 == 4 * (w * h)) by (nonlinear_arith)
        requires
            w >= 0,
            h >= 0,
    ;
    assert forall|k: int| 0 <= k < w * h
        implies pixel_at(background_seq(w, h), k) == Rgba::spec_transparent_white() by {
        assert(background_seq(w, h)[4 * k] == 255u8);
        assert(background_seq(w, h)[4 * k + 1] == 255u8);
        assert(background_seq(w, h)[4 * k + 2] == 255u8);
        assert(background_seq(w, h)[4 * k + 3] == 0u8);
    }
}

/// Sample `k` of a blended sequence is the blend of sample `k` of its
/// operands.
proof fn lemma_blend_seq_pixel(base: Seq<u8>, over: Seq<u8>, mode: BlendMode, opacity: u8, k: int, n: int)
    requires
        base.len() == 4 * n,
        0 <= k < n,
    ensures
        blend_seq_spec(base, over, mode, opacity).len() == base.len(),
        pixel_at(blend_seq_spec(base, over, mode, opacity), k)
            == blend_pixels_spec(pixel_at(base, k), pixel_at(over, k), mode, opacity),
{
    let t = blend_seq_spec(base, over, mode, opacity);
    let p = blend_pixels_spec(pixel_at(base, k), pixel_at(over, k), mode, opacity);
    assert(t[4 * k] == p.r);
    assert(t[4 * k + 1] == p.g);
    assert(t[4 * k + 2] == p.b);
    assert(t[4 * k + 3] == p.a);
}

/// Compositing the overlay pixelwise onto the base leaves the byte sequence
/// `blend_seq_spec` describes.
fn blend_layer(base: &mut PixelBuffer, layer: &Layer)
    requires
        old(base).wf(),
        layer.pixels.wf(),
        layer.pixels.width == old(base).width,
        layer.pixels.height == old(base).height,
    ensures
        final(base).wf(),
        final(base).width == old(base).width,
        final(base).height == old(base).height,
        final(base)@ == blend_seq_spec(old(base)@, layer@.pixels, layer.blend_mode, layer.opacity),
{
    let w = base.width;
    let h = base.height;
    proof {
        crate::pixel_buffer::lemma_vec_len_bound(&base.data);
        assert(0 <= w as int * (h as int) && w as int * (h as int) * 4
            == 4 * (w as int * (h as int))) by (nonlinear_arith);
    }
    let total: usize = w as usize * h as usize;
    let mut k: usize = 0;
    while k < total
        invariant
            base.wf(),
            base.width == w,
            base.height == h,
            layer.pixels.wf(),
            layer.pixels.width == w,
            layer.pixels.height == h,
            total == w as int * (h as int),
            k <= total,
            forall|j: int| 0 <= j < k ==> pixel_at(base@, j) == blend_pixels_spec(
                pixel_at(old(base)@, j),
                pixel_at(layer@.pixels, j),
                layer.blend_mode,
                layer.opacity,
            ),
            forall|j: int| k <= j < total ==> pixel_at(base@, j) == pixel_at(old(base)@, j),
        decreases total - k,
    {
        proof {
            assert(w as int >= 1) by (nonlinear_arith)
                requires
                    k < total,
                    total == w as int * (h as int),
                    w as int >= 0,
                    h as int >= 0,
            ;
            assert(k as int / (w as int) < h as int && (k as int / (w as int)) * (w as int)
                + k as int % (w as int) == k as int) by (nonlinear_arith)
                requires
                    0 <= k < total,
                    total == w as int * (h as int),
                    w as int >= 1,
            ;
        }
        let x = (k % w as usize) as u32;
        let y = (k / w as usize) as u32;
        let ghost pre = base@;
        let bp = base.get_pixel(x, y);
        let op = layer.pixels.get_pixel(x, y);
        let np = blend_pixels(bp, op, &layer.blend_mode, layer.opacity);
        base.put_pixel(x, y, np);
        proof {
            assert(bp == pixel_at(pre, k as int));
            assert(op == pixel_at(layer@.pixels, k as int));
            assert(pixel_at(base@, k as int) == np);
            assert forall|j: int| 0 <= j < k + 1 implies pixel_at(base@, j) == blend_pixels_spec(
                pixel_at(old(base)@, j),
                pixel_at(layer@.pixels, j),
                layer.blend_mode,
                layer.opacity,
            ) by {
                if j < k {
                    assert(pixel_at(base@, j) == pixel_at(pre, j));
                }
            }
            assert forall|j: int| k + 1 <= j < total
                implies pixel_at(base@, j) == pixel_at(old(base)@, j) by {
                assert(pixel_at(base@, j) == pixel_at(pre, j));
            }
        }
        k = k + 1;
    }
    proof {
        assert forall|j: int| 0 <= j < total
            implies pixel_at(base@, j) == pixel_at(
                blend_seq_spec(old(base)@, layer@.pixels, layer.blend_mode, layer.opacity),
                j,
            ) by {
            lemma_blend_seq_pixel(
                old(base)@, layer@.pixels, layer.blend_mode, layer.opacity, j, total as int);
        }
        crate::pixel_buffer::lemma_bytes_eq_by_pixels(
            base@,
            blend_seq_spec(old(base)@, layer@.pixels, layer.blend_mode, layer.opacity),
            total as int,
        );
    }
}

impl ImageData {
    /// Flattens the visible layers, bottom to top, into one image. Pure with
    /// respect to the document: nothing is mutated, the dirty flag included.
    pub fn flatten(&self) -> (r: PixelBuffer)
        requires
            self.wf(),
        ensures
            r.wf(),
            r.width == self.width,
            r.height == self.height,
            r@ == flatten_spec(self@),
    {
        let mut result = PixelBuffer::new_filled(self.width, self.height, Rgba::transparent_white());
        proof {
            lemma_background_pixels(self.width as int, self.height as int);
            assert(0 <= self.width as int * (self.height as int)
                && self.width as int * (self.height as int) * 4
                    == 4 * (self.width as int * (self.height as int))) by (nonlinear_arith);
            crate::pixel_buffer::lemma_bytes_eq_by_pixels(
                result@,
                background_seq(self.width as int, self.height as int),
                self.width as int * (self.height as int),
            );
        }
        let mut idx: usize = 0;
        while idx < self.layers.len()
            invariant
                self.wf(),
                idx <= self.layers@.len(),
                result.wf(),
                result.width == self.width,
                result.height == self.height,
                result@ == flatten_upto(
                    self@.layers, self.width as int, self.height as int, idx as int),
            decreases self.layers@.len() - idx,
        {
            let layer = &self.layers[idx];
            if layer.visible {
                blend_layer(&mut result, layer);
            }
            proof {
                assert(self@.layers[idx as int] == self.layers@[idx as int]@);
            }
            idx = idx + 1;
        }
        result
    }

    /// Paints `color` over every pixel of the active layer whose Euclidean
    /// distance from the center is at most `radius`, scanning the whole
    /// canvas, and marks the composite stale.
    pub fn draw_circle(&mut self, center_x: u32, center_y: u32, radius: u32, color: Rgba)
        requires
            old(self).wf(),
        ensures
            final(self).wf(),
            final(self).width == old(self).width,
            final(self).height == old(self).height,
            final(self).active_layer == old(self).active_layer,
            final(self).needs_update == true,
            final(self).layers@.len() == old(self).layers@.len(),
            forall|i: int| 0 <= i < old(self).layers@.len() && i != old(self).active_layer as int
                ==> final(self).layers@[i] == old(self).layers@[i],
            final(self).layers@[old(self).active_layer as int].name
                == old(self).layers@[old(self).active_layer as int].name,
            final(self).layers@[old(self).active_layer as int].visible
                == old(self).layers@[old(self).active_layer as int].visible,
            final(self).layers@[old(self).active_layer as int].opacity
                == old(self).layers@[old(self).active_layer as int].opacity,
            final(self).layers@[old(self).active_layer as int].blend_mode
                == old(self).layers@[old(self).active_layer as int].blend_mode,
            forall|xx: int, yy: int| 0 <= xx < old(self).width as int
                && 0 <= yy < old(self).height as int
                ==> pixel_xy(final(self).layers@[old(self).active_layer as int].pixels@,
                    old(self).width as int, xx, yy)
                    == #[trigger] circle_target(
                        old(self).layers@[old(self).active_layer as int].pixels@,
                        old(self).width as int, xx, yy,
                        center_x as int, center_y as int, radius as int, color),
    {
        let ghost pre = *self;
        let w = self.width;
        let h = self.height;
        let idx = self.active_layer;
        let ghost cx = center_x as int;
        let ghost cy = center_y as int;
        let ghost rad = radius as int;
        let ghost prepix = pre.layers@[idx as int].pixels@;
        self.needs_update = true;
        let mut y: u32 = 0;
        while y < h
            invariant
                self.wf(),
                self.width == w,
                self.height == h,
                self.active_layer == idx,
                self.needs_update == true,
                (idx as int) < self.layers@.len(),
                y <= h,
                prepix == pre.layers@[idx as int].pixels@,
                cx == center_x as int,
                cy == center_y as int,
                rad == radius as int,
                self.layers@.len() == pre.layers@.len(),
                forall|i: int| 0 <= i < pre.layers@.len() && i != idx as int
                    ==> self.layers@[i] == pre.layers@[i],
                self.layers@[idx as int].name == pre.layers@[idx as int].name,
                self.layers@[idx as int].visible == pre.layers@[idx as int].visible,
                self.layers@[idx as int].opacity == pre.layers@[idx as int].opacity,
                self.layers@[idx as int].blend_mode == pre.layers@[idx as int].blend_mode,
                forall|xx: int, yy: int| 0 <= xx < w as int && 0 <= yy < y as int
                    ==> pixel_xy(self.layers@[idx as int].pixels@, w as int, xx, yy)
                        == #[trigger] circle_target(prepix, w as int, xx, yy, cx, cy, rad, color),
                forall|xx: int, yy: int| 0 <= xx < w as int && y as int <= yy < h as int
                    ==> #[trigger] pixel_xy(self.layers@[idx as int].pixels@, w as int, xx, yy)
                        == pixel_xy(prepix, w as int, xx, yy),
            decreases h - y,
        {
            let mut x: u32 = 0;
            while x < w
                invariant
                    self.wf(),
                    self.width == w,
                    self.height == h,
                    self.active_layer == idx,
                    self.needs_update == true,
                    (idx as int) < self.layers@.len(),
                    y < h,
                    x <= w,
                    prepix == pre.layers@[idx as int].pixels@,
                    cx == center_x as int,
                    cy == center_y as int,
                    rad == radius as int,
                    self.layers@.len() == pre.layers@.len(),
                    forall|i: int| 0 <= i < pre.layers@.len() && i != idx as int
                        ==> self.layers@[i] == pre.layers@[i],
                    self.layers@[idx as int].name == pre.layers@[idx as int].name,
                    self.layers@[idx as int].visible == pre.layers@[idx as int].visible,
                    self.layers@[idx as int].opacity == pre.layers@[idx as int].opacity,
                    self.layers@[idx as int].blend_mode == pre.layers@[idx as int].blend_mode,
                    forall|xx: int, yy: int| 0 <= xx < w as int && 0 <= yy < y as int
                        ==> pixel_xy(self.layers@[idx as int].pixels@, w as int, xx, yy)
                            == #[trigger] circle_target(
                            prepix, w as int, xx, yy, cx, cy, rad, color),
                    forall|xx: int| 0 <= xx < x as int
                        ==> pixel_xy(self.layers@[idx as int].pixels@, w as int, xx, y as int)
                            == #[trigger] circle_target(
                            prepix, w as int, xx, y as int, cx, cy, rad, color),
                    forall|xx: int| x as int <= xx < w as int
                        ==> #[trigger] pixel_xy(
                            self.layers@[idx as int].pixels@, w as int, xx, y as int)
                            == pixel_xy(prepix, w as int, xx, y as int),
                    forall|xx: int, yy: int| 0 <= xx < w as int && (y as int) < yy && yy < h as int
                        ==> #[trigger] pixel_xy(self.layers@[idx as int].pixels@, w as int, xx, yy)
                            == pixel_xy(prepix, w as int, xx, yy),
                decreases w - x,
            {
                let dx: i128 = x as i128 - center_x as i128;
                let dy: i128 = y as i128 - center_y as i128;
                proof {
                    assert(0 <= dx * dx <= 0x1_0000_0000_0000_0000 && 0 <= dy * dy
                        <= 0x1_0000_0000_0000_0000 && 0 <= (radius as i128) * (radius as i128)
                        <= 0x1_0000_0000_0000_0000) by (nonlinear_arith)
                        requires
                            -0x1_0000_0000 < dx < 0x1_0000_0000,
                            -0x1_0000_0000 < dy < 0x1_0000_0000,
                            0 <= radius <= 0x1_0000_0000,
                    ;
                }
                let hit = dx * dx + dy * dy <= radius as i128 * (radius as i128);
                proof {
                    assert(dx * dx == (x as int - cx) * (x as int - cx)
                        && dy * dy == (y as int - cy) * (y as int - cy)
                        && (radius as i128) * (radius as i128) == rad * rad) by (nonlinear_arith)
                        requires
                            dx == x as int - cx,
                            dy == y as int - cy,
                            rad == radius as int,
                    ;
                    assert(hit == in_circle(x as int, y as int, cx, cy, rad));
                }
                let ghost before = self.layers@[idx as int].pixels@;
                if hit {
                    let l = &mut self.layers[idx];
                    l.pixels.put_pixel(x, y, color);
                }
                proof {
                    lemma_pixel_index_bounds(x as int, y as int, w as int, h as int);
                    assert forall|xx: int, yy: int| 0 <= xx < w as int && 0 <= yy < h as int
                        && !(xx == x as int && yy == y as int)
                        implies #[trigger] pixel_xy(
                            self.layers@[idx as int].pixels@, w as int, xx, yy)
                            == pixel_xy(before, w as int, xx, yy) by {
                        lemma_pixel_index_injective(xx, yy, x as int, y as int, w as int);
                        lemma_pixel_index_bounds(xx, yy, w as int, h as int);
                    }
                    if hit {
                        assert(pixel_xy(self.layers@[idx as int].pixels@, w as int, x as int,
                            y as int) == color);
                    } else {
                        assert(pixel_xy(self.layers@[idx as int].pixels@, w as int, x as int,
                            y as int) == pixel_xy(prepix, w as int, x as int, y as int));
                    }
                    assert(pixel_xy(self.layers@[idx as int].pixels@, w as int, x as int, y as int)
                        == circle_target(prepix, w as int, x as int, y as int, cx, cy, rad, color));
                }
                x = x + 1;
            }
            y = y + 1;
        }
        proof {
            assert forall|xx: int, yy: int| 0 <= xx < w as int && 0 <= yy < h as int
                implies pixel_xy(self.layers@[idx as int].pixels@, w as int, xx, yy)
                    == #[trigger] circle_target(prepix, w as int, xx, yy, cx, cy, rad, color) by {
            }
        }
    }

    /// The cache-aware accessor the display path uses: serves the cached
    /// composite when it is fresh, otherwise recomputes it via `flatten`,
    /// stores it and clears the dirty flag.
    pub fn get_composite(&mut self) -> (r: PixelBuffer)
        requires
            old(self).wf(),
        ensures
            final(self).wf(),
            final(self)@ == old(self)@,
            final(self).needs_update == false,
            r.wf(),
            r.width == old(self).width,
            r.height == old(self).height,
            r@ == flatten_spec(old(self)@),
    {
        if self.needs_update || self.composite_cache.is_none() {
            let f = self.flatten();
            self.composite_cache = Some(f.clone());
            self.needs_update = false;
            f
        } else {
            match &self.composite_cache {
                Some(pb) => pb.clone(),
                None => {
                    proof {
                        assert(false);
                    }
                    self.flatten()
                },
            }
        }
    }
}

/// A flattened composite always has exactly four bytes per canvas pixel.
pub proof fn lemma_flatten_upto_len(layers: Seq<LayerView>, w: int, h: int, n: int)
    requires
        w >= 0,
        h >= 0,
    ensures
        flatten_upto(layers, w, h, n).len() == w * h * 4,
    decreases n,
{
    if n <= 0 {
        assert(w * h * 4 >= 0) by (nonlinear_arith)
            requires
                w >= 0,
                h >= 0,
        ;
    } else {
        lemma_flatten_upto_len(layers, w, h, n - 1);
    }
}

/// Flattening the bottom `n` layers reads nothing above them.
proof fn lemma_flatten_upto_prefix(l1: Seq<LayerView>, l2: Seq<LayerView>, w: int, h: int, n: int)
    requires
        0 <= n <= l1.len(),
        n <= l2.len(),
        forall|i: int| 0 <= i < n ==> l1[i] == l2[i],
    ensures
        flatten_upto(l1, w, h, n) == flatten_upto(l2, w, h, n),
    decreases n,
{
    if n > 0 {
        lemma_flatten_upto_prefix(l1, l2, w, h, n - 1);
    }
}

/// Flattening a document with a single fully-opaque, fully-visible
/// Normal-mode layer returns exactly that layer's pixels.
pub proof fn lemma_flatten_single_opaque_normal(dv: DocView)
    requires
        dv.width >= 0,
        dv.height >= 0,
        dv.layers.len() == 1,
        dv.layers[0].visible == true,
        dv.layers[0].opacity == 255,
        dv.layers[0].blend_mode == BlendMode::Normal,
        dv.layers[0].pixels.len() == dv.width * dv.height * 4,
        forall|k: int| 0 <= k < dv.width * dv.height
            ==> (#[trigger] pixel_at(dv.layers[0].pixels, k)).a == 255,
    ensures
        flatten_spec(dv) == dv.layers[0].pixels,
{
    let w = dv.width;
    let h = dv.height;
    let bg = background_seq(w, h);
    lemma_background_pixels(w, h);
    assert(0 <= w * h && w * h * 4 == 4 * (w * h)) by (nonlinear_arith)
        requires
            w >= 0,
            h >= 0,
    ;
    let t = blend_seq_spec(bg, dv.layers[0].pixels, BlendMode::Normal, 255);
    assert(flatten_upto(dv.layers, w, h, 0) == bg);
    assert(flatten_upto(dv.layers, w, h, 1) == t);
    assert(flatten_spec(dv) == t);
    assert forall|k: int| 0 <= k < w * h
        implies pixel_at(t, k) == pixel_at(dv.layers[0].pixels, k) by {
        lemma_blend_seq_pixel(bg, dv.layers[0].pixels, BlendMode::Normal, 255, k, w * h);
        crate::blend::lemma_blend_pixel_opaque_normal(
            pixel_at(bg, k),
            pixel_at(dv.layers[0].pixels, k),
        );
    }
    crate::pixel_buffer::lemma_bytes_eq_by_pixels(t, dv.layers[0].pixels, w * h);
}

/// Compositing is unaffected by an overlay without coverage: flattening
/// with an added layer of zero opacity, or one whose pixels are all fully
/// transparent, equals flattening without it.
pub proof fn lemma_flatten_transparent_overlay(dv: DocView, l: LayerView)
    requires
        dv.width >= 0,
        dv.height >= 0,
        l.opacity == 0 || forall|k: int| 0 <= k < dv.width * dv.height
            ==> (#[trigger] pixel_at(l.pixels, k)).a == 0,
    ensures
        flatten_spec((DocView { layers: dv.layers.push(l), ..dv })) == flatten_spec(dv),
{
    let w = dv.width;
    let h = dv.height;
    let n = dv.layers.len() as int;
    let stacked = dv.layers.push(l);
    lemma_flatten_upto_prefix(stacked, dv.layers, w, h, n);
    lemma_flatten_upto_len(dv.layers, w, h, n);
    assert(0 <= w * h && w * h * 4 == 4 * (w * h)) by (nonlinear_arith)
        requires
            w >= 0,
            h >= 0,
    ;
    let prev = flatten_upto(stacked, w, h, n);
    assert(stacked[n] == l);
    if l.visible {
        let t = blend_seq_spec(prev, l.pixels, l.blend_mode, l.opacity);
        assert forall|k: int| 0 <= k < w * h implies pixel_at(t, k) == pixel_at(prev, k) by {
            lemma_blend_seq_pixel(prev, l.pixels, l.blend_mode, l.opacity, k, w * h);
            crate::blend::lemma_blend_pixel_no_coverage(
                pixel_at(prev, k),
                pixel_at(l.pixels, k),
                l.blend_mode,
                l.opacity,
            );
        }
        crate::pixel_buffer::lemma_bytes_eq_by_pixels(t, prev, w * h);
    }
}

impl Clone for ImageData {
    /// A clone is an independent full copy: it carries the same view, and
    /// well-formedness carries over.
    fn clone(&self) -> (r: Self)
        ensures
            r@ == self@,
            self.wf() ==> r.wf(),
            r.needs_update == self.needs_update,
    {
        let cache = match &self.composite_cache {
            Some(pb) => Some(pb.clone()),
            None => None,
        };
        let r = ImageData {
            layers: self.layers.clone(),
            active_layer: self.active_layer,
            width: self.width,
            height: self.height,
            needs_update: self.needs_update,
            composite_cache: cache,
        };
        proof {
            assert forall|i: int| 0 <= i < self.layers@.len()
                implies #[trigger] r.layers@[i]@ == self.layers@[i]@
                    && r.layers@[i].pixels.width == self.layers@[i].pixels.width
                    && r.layers@[i].pixels.height == self.layers@[i].pixels.height by {
                assert(vstd::pervasive::cloned::<Layer>(self.layers@[i], r.layers@[i]));
            }
            assert(r@.layers =~= self@.layers);
        }
        r
    }
}

} // verus!
