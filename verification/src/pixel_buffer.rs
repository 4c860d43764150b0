//! Fixed-size RGBA pixel grids, the storage unit layers are made of.

use vstd::prelude::*;

use crate::color::Rgba;

verus! {

/// A `width x height` grid of RGBA samples, row-major with the origin at the
/// top-left corner, four bytes per sample. The byte length is always exactly
/// `width * height * 4`; a buffer is never resized in place.
pub struct PixelBuffer {
    pub width: u32,
    pub height: u32,
    pub data: Vec<u8>,
}

impl View for PixelBuffer {
    type V = Seq<u8>;

    open spec fn view(&self) -> Seq<u8> {
        self.data@
    }
}

/// The pixel at flat index `k` of a raw RGBA byte sequence.
pub open spec fn pixel_at(data: Seq<u8>, k: int) -> Rgba {
    Rgba { r: data[4 * k], g: data[4 * k + 1], b: data[4 * k + 2], a: data[4 * k + 3] }
}

/// The sample at column `x`, row `y` of a raw RGBA byte sequence of row
/// length `w`.
pub open spec fn pixel_xy(data: Seq<u8>, w: int, x: int, y: int) -> Rgba {
    pixel_at(data, y * w + x)
}

/// A raw RGBA byte sequence with the sample at flat index `k` replaced by
/// `c`.
pub open spec fn put_pixel_seq(data: Seq<u8>, k: int, c: Rgba) -> Seq<u8> {
    data.update(4 * k, c.r).update(4 * k + 1, c.g).update(4 * k + 2, c.b).update(4 * k + 3, c.a)
}

/// Replacing one sample leaves every other sample untouched.
pub proof fn lemma_put_pixel_seq(data: Seq<u8>, k: int, c: Rgba)
    requires
        0 <= k,
        4 * k + 3 < data.len(),
    ensures
        put_pixel_seq(data, k, c).len() == data.len(),
        pixel_at(put_pixel_seq(data, k, c), k) == c,
        forall|j: int| 0 <= j && 4 * j + 3 < data.len() && j != k
            ==> pixel_at(put_pixel_seq(data, k, c), j) == pixel_at(data, j),
{
}

/// Two RGBA byte sequences of the same pixel count that agree on every
/// sample agree byte for byte.
pub proof fn lemma_bytes_eq_by_pixels(s: Seq<u8>, t: Seq<u8>, n: int)
    requires
        n >= 0,
        s.len() == 4 * n,
        t.len() == 4 * n,
        forall|k: int| 0 <= k < n ==> pixel_at(s, k) == pixel_at(t, k),
    ensures
        s == t,
{
    assert forall|i: int| 0 <= i < 4 * n implies s[i] == t[i] by {
        let k = i / 4;
        let j = i % 4;
        assert(0 <= k < n);
        assert(i == 4 * k + j);
        assert(pixel_at(s, k) == pixel_at(t, k));
        if j == 0 {
            assert(s[i] == pixel_at(s, k).r && t[i] == pixel_at(t, k).r);
        } else if j == 1 {
            assert(s[i] == pixel_at(s, k).g && t[i] == pixel_at(t, k).g);
        } else if j == 2 {
            assert(s[i] == pixel_at(s, k).b && t[i] == pixel_at(t, k).b);
        } else {
            assert(s[i] == pixel_at(s, k).a && t[i] == pixel_at(t, k).a);
        }
    }
    assert(s =~= t);
}

/// A byte vector is no longer than the address space.
pub proof fn lemma_vec_len_bound(v: &Vec<u8>)
    ensures
        v@.len() <= usize::MAX,
{
    broadcast use vstd::std_specs::vec::axiom_spec_len;

    assert(vstd::std_specs::vec::spec_vec_len(v) == v@.len());
}

/// A flat pixel index derived from in-bounds coordinates stays within the
/// grid.
pub proof fn lemma_pixel_index_bounds(x: int, y: int, w: int, h: int)
    requires
        0 <= x < w,
        0 <= y < h,
    ensures
        0 <= y * w + x < w * h,
{
    assert(0 <= y * w + x && y * w + x < w * h) by (nonlinear_arith)
        requires
            0 <= x < w,
            0 <= y < h,
    ;
}

impl PixelBuffer {
    /// The single structural invariant: the byte vector holds exactly four
    /// bytes per grid cell.
    pub open spec fn wf(self) -> bool {
        self.data@.len() == self.width * self.height * 4
    }

    /// The sample at column `x`, row `y`.
    pub open spec fn pixel(self, x: int, y: int) -> Rgba {
        pixel_at(self.data@, y * self.width + x)
    }

    /// Builds a grid with every sample set to `fill`.
    pub fn new_filled(width: u32, height: u32, fill: Rgba) -> (pb: PixelBuffer)
        requires
            width as int * (height as int) * 4 <= usize::MAX,
        ensures
            pb.wf(),
            pb.width == width,
            pb.height == height,
            forall|k: int| 0 <= k < width as int * (height as int)
                ==> pixel_at(pb@, k) == fill,
    {
        proof {
            assert(width as int * (height as int) <= usize::MAX
                && width as usize * (height as usize) * 4 == width as int * (height as int) * 4)
                by (nonlinear_arith)
                requires
                    width as int * (height as int) * 4 <= usize::MAX,
            ;
        }
        let total: usize = width as usize * height as usize;
        let mut data: Vec<u8> = Vec::new();
        let mut i: usize = 0;
        while i < total
            invariant
                i <= total,
                4 * total <= usize::MAX,
                data@.len() == 4 * i,
                forall|k: int| 0 <= k < i ==> pixel_at(data@, k) == fill,
        decreases total - i,
        {
            let ghost prev = data@;
            data.push(fill.r);
            data.push(fill.g);
            data.push(fill.b);
            data.push(fill.a);
            proof {
                assert forall|k: int| 0 <= k < i + 1 implies pixel_at(data@, k) == fill by {
                    if k < i {
                        assert(pixel_at(prev, k) == fill);
                        assert(data@[4 * k] == prev[4 * k]);
                        assert(data@[4 * k + 1] == prev[4 * k + 1]);
                        assert(data@[4 * k + 2] == prev[4 * k + 2]);
                        assert(data@[4 * k + 3] == prev[4 * k + 3]);
                    } else {
                        assert(data@[4 * k] == fill.r);
                        assert(data@[4 * k + 1] == fill.g);
                        assert(data@[4 * k + 2] == fill.b);
                        assert(data@[4 * k + 3] == fill.a);
                    }
                }
            }
            i = i + 1;
        }
        PixelBuffer { width, height, data }
    }

    /// Reads the sample at `(x, y)`.
    pub fn get_pixel(&self, x: u32, y: u32) -> (c: Rgba)
        requires
            self.wf(),
            x < self.width,
            y < self.height,
        ensures
            c == self.pixel(x as int, y as int),
    {
        proof {
            lemma_vec_len_bound(&self.data);
            lemma_pixel_index_bounds(x as int, y as int, self.width as int, self.height as int);
        }
        let k: usize = y as usize * self.width as usize + x as usize;
        Rgba {
            r: self.data[4 * k],
            g: self.data[4 * k + 1],
            b: self.data[4 * k + 2],
            a: self.data[4 * k + 3],
        }
    }

    /// Writes `c` into the sample at `(x, y)`, leaving every other sample
    /// alone.
    pub fn put_pixel(&mut self, x: u32, y: u32, c: Rgba)
        requires
            old(self).wf(),
            x < old(self).width,
            y < old(self).height,
        ensures
            final(self).wf(),
            final(self).width == old(self).width,
            final(self).height == old(self).height,
            final(self)@ == put_pixel_seq(old(self)@, y as int * (old(self).width as int) + x as int, c),
            final(self).pixel(x as int, y as int) == c,
            forall|k: int| 0 <= k < old(self).width as int * (old(self).height as int)
                && k != y as int * (old(self).width as int) + x as int
                ==> pixel_at(final(self)@, k) == pixel_at(old(self)@, k),
    {
        proof {
            lemma_vec_len_bound(&self.data);
            lemma_pixel_index_bounds(x as int, y as int, self.width as int, self.height as int);
        }
        let k: usize = y as usize * self.width as usize + x as usize;
        self.data.set(4 * k, c.r);
        self.data.set(4 * k + 1, c.g);
        self.data.set(4 * k + 2, c.b);
        self.data.set(4 * k + 3, c.a);
        proof {
            lemma_put_pixel_seq(old(self)@, k as int, c);
        }
    }
}

impl Clone for PixelBuffer {
    /// A clone carries the same dimensions and the same bytes.
    fn clone(&self) -> (r: Self)
        ensures
            r@ == self@,
            r.width == self.width,
            r.height == self.height,
    {
        let r = PixelBuffer { width: self.width, height: self.height, data: self.data.clone() };
        proof {
            assert(r.data@ =~= self.data@);
        }
        r
    }
}

} // verus!
