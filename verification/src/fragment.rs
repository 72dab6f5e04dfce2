//! Image fragments: the atomic tile unit.
//!
//! A fragment is an immutable `width x height` grid of RGBA pixels, stored
//! column-major like the sample image.  Identity is structural: two
//! fragments are the same catalog entry exactly when their pixel grids are
//! equal.  Orientation variants are produced by `rotate` (90 degrees, with
//! the dimensions transposed) and `flip` (mirrored along the width axis).

use vstd::prelude::*;

use crate::GenError;
use crate::pixel::{Pixel, SampleImage, grid_wf};

verus! {

/// The grid of `g` rotated by 90 degrees: the result has `g`'s height as
/// its width, and the pixel at `(w, h)` of the result is the pixel of `g`
/// at `(h, height - 1 - w)`.
pub open spec fn rot_grid(g: Seq<Seq<Pixel>>) -> Seq<Seq<Pixel>> {
    Seq::new(g[0].len(), |w: int| Seq::new(g.len(), |h: int| g[h][g[0].len() - 1 - w]))
}

/// The grid of `g` mirrored along the width axis: column `w` of the result
/// is column `width - 1 - w` of `g`.
pub open spec fn flip_grid(g: Seq<Seq<Pixel>>) -> Seq<Seq<Pixel>> {
    Seq::new(g.len(), |w: int| g[g.len() - 1 - w])
}

/// The `fw x fh` sub-grid of `img` whose top-left pixel sits at `(x, y)`.
pub open spec fn window_grid(img: Seq<Seq<Pixel>>, x: int, y: int, fw: int, fh: int) -> Seq<
    Seq<Pixel>,
> {
    Seq::new(fw as nat, |w: int| Seq::new(fh as nat, |h: int| img[x + w][y + h]))
}

/// Exact pixel-overlap test between two grids of equal dimensions: `b` is
/// laid at offset `(dx, dy)` relative to `a`, and every pixel pair in the
/// intersection of the two footprints must be equal.
pub open spec fn grids_overlap(a: Seq<Seq<Pixel>>, b: Seq<Seq<Pixel>>, dx: int, dy: int) -> bool {
    forall|w: int, h: int|
        0 <= w < a.len() && 0 <= h < a[0].len() && 0 <= w - dx < a.len() && 0 <= h - dy
            < a[0].len() ==> #[trigger] a[w][h] == b[w - dx][h - dy]
}

/// Rotating a well-formed grid four times reproduces it exactly.
pub proof fn lemma_rotate_four_identity(g: Seq<Seq<Pixel>>)
    requires
        grid_wf(g),
    ensures
        rot_grid(rot_grid(rot_grid(rot_grid(g)))) == g,
{
    let wd = g.len() as int;
    let ht = g[0].len() as int;
    let r1 = rot_grid(g);
    let r2 = rot_grid(r1);
    let r3 = rot_grid(r2);
    let r4 = rot_grid(r3);
    assert(r1.len() == ht && r1[0].len() == wd);
    assert(forall|w: int, h: int|
        0 <= w < ht && 0 <= h < wd ==> #[trigger] r1[w][h] == g[h][ht - 1 - w]);
    assert(r2.len() == wd && r2[0].len() == ht);
    assert(forall|w: int, h: int|
        0 <= w < wd && 0 <= h < ht ==> #[trigger] r2[w][h] == g[wd - 1 - w][ht - 1 - h]);
    assert(r3.len() == ht && r3[0].len() == wd);
    assert(forall|w: int, h: int|
        0 <= w < ht && 0 <= h < wd ==> #[trigger] r3[w][h] == g[wd - 1 - h][ht - 1 - (ht - 1
            - w)]);
    assert(r4.len() == wd && r4[0].len() == ht);
    assert(forall|w: int, h: int| 0 <= w < wd && 0 <= h < ht ==> #[trigger] r4[w][h] == g[w][h]);
    assert forall|w: int| 0 <= w < wd implies #[trigger] r4[w] =~= g[w] by {
        assert(r4[w].len() == ht);
        assert(forall|h: int| 0 <= h < ht ==> #[trigger] r4[w][h] == g[w][h]);
    }
    assert(r4 =~~= g);
}

/// Flipping a well-formed grid twice reproduces it exactly.
pub proof fn lemma_flip_twice_identity(g: Seq<Seq<Pixel>>)
    requires
        grid_wf(g),
    ensures
        flip_grid(flip_grid(g)) == g,
{
    let f2 = flip_grid(flip_grid(g));
    assert(forall|w: int| 0 <= w < g.len() ==> #[trigger] f2[w] == g[w]);
    assert(f2 =~= g);
}

/// The overlap test is symmetric: laying `b` at `(dx, dy)` relative to `a`
/// compares the same pixel pairs as laying `a` at `(-dx, -dy)` relative to
/// `b`.
pub proof fn lemma_overlap_symmetric(a: Seq<Seq<Pixel>>, b: Seq<Seq<Pixel>>, dx: int, dy: int)
    requires
        grid_wf(a),
        grid_wf(b),
        b.len() == a.len(),
        b[0].len() == a[0].len(),
    ensures
        grids_overlap(a, b, dx, dy) == grids_overlap(b, a, -dx, -dy),
{
    if grids_overlap(a, b, dx, dy) {
        assert forall|w: int, h: int|
            0 <= w < b.len() && 0 <= h < b[0].len() && 0 <= w - (-dx) < b.len() && 0 <= h - (-dy)
                < b[0].len() implies #[trigger] b[w][h] == a[w - (-dx)][h - (-dy)] by {
            assert(a[w + dx][h + dy] == b[w + dx - dx][h + dy - dy]);
        }
    }
    if grids_overlap(b, a, -dx, -dy) {
        assert forall|w: int, h: int|
            0 <= w < a.len() && 0 <= h < a[0].len() && 0 <= w - dx < a.len() && 0 <= h - dy
                < a[0].len() implies #[trigger] a[w][h] == b[w - dx][h - dy] by {
            assert(b[w - dx][h - dy] == a[w - dx - (-dx)][h - dy - (-dy)]);
        }
    }
}

/// A fixed-size rectangular block of pixels, the atomic tile unit.
#[derive(Debug)]
pub struct ImageFragment {
    pixels: Vec<Vec<Pixel>>,
    width: usize,
    height: usize,
}

impl View for ImageFragment {
    type V = Seq<Seq<Pixel>>;

    closed spec fn view(&self) -> Seq<Seq<Pixel>> {
        self.pixels@.map_values(|col: Vec<Pixel>| col@)
    }
}

impl ImageFragment {
    #[verifier::type_invariant]
    pub closed spec fn wf(&self) -> bool {
        &&& self.width >= 1
        &&& self.height >= 1
        &&& self.pixels@.len() == self.width
        &&& forall|i: int|
            0 <= i < self.pixels@.len() ==> (#[trigger] self.pixels@[i])@.len() == self.height
    }

    /// A fragment's pixel grid is always well-formed; this is the bridge
    /// that lets a caller apply the grid-level laws to a fragment's view.
    pub broadcast proof fn lemma_wf_grid(&self)
        ensures
            #[trigger] self.wf() ==> grid_wf(self@),
    {
    }

    /// Builds a fragment from a column-major pixel grid; rejects a grid
    /// that is empty or not rectangular.
    pub fn new_from_pixels(pixels: Vec<Vec<Pixel>>) -> (r: Result<ImageFragment, GenError>)
        ensures
            r is Ok <==> grid_wf(pixels@.map_values(|col: Vec<Pixel>| col@)),
            r is Err ==> r == Err::<ImageFragment, GenError>(GenError::InvalidPixelGrid),
            r matches Ok(f) ==> f.wf() && f@ == pixels@.map_values(|col: Vec<Pixel>| col@),
    {
        if pixels.len() == 0 {
            return Err(GenError::InvalidPixelGrid);
        }
        let height = pixels[0].len();
        if height == 0 {
            proof {
                let m = pixels@.map_values(|col: Vec<Pixel>| col@);
                assert(m[0].len() == pixels@[0]@.len());
            }
            return Err(GenError::InvalidPixelGrid);
        }
        let width = pixels.len();
        for i in 1..width
            invariant
                width == pixels@.len(),
                height == pixels@[0]@.len(),
                height >= 1,
                forall|j: int| 0 <= j < i ==> (#[trigger] pixels@[j])@.len() == height,
        {
            if pixels[i].len() != height {
                proof {
                    let m = pixels@.map_values(|col: Vec<Pixel>| col@);
                    assert(m[i as int].len() == pixels@[i as int]@.len());
                    assert(m[0].len() == pixels@[0]@.len());
                }
                return Err(GenError::InvalidPixelGrid);
            }
        }
        proof {
            let m = pixels@.map_values(|col: Vec<Pixel>| col@);
            assert(forall|j: int|
                0 <= j < m.len() ==> (#[trigger] m[j]).len() == pixels@[j]@.len());
            assert(m[0].len() == height);
        }
        Ok(ImageFragment { pixels, width, height })
    }

    /// Extracts the `fragment_width x fragment_height` fragment whose
    /// top-left pixel sits at `(width_index, height_index)` in the sample.
    pub fn new_from_image(
        image: &SampleImage,
        width_index: usize,
        height_index: usize,
        fragment_width: usize,
        fragment_height: usize,
    ) -> (r: ImageFragment)
        requires
            image.wf(),
            fragment_width >= 1,
            fragment_height >= 1,
            width_index + fragment_width <= image@.len(),
            height_index + fragment_height <= image@[0].len(),
        ensures
            r.wf(),
            r@ == window_grid(
                image@,
                width_index as int,
                height_index as int,
                fragment_width as int,
                fragment_height as int,
            ),
            r@.len() == fragment_width,
            r@[0].len() == fragment_height,
    {
        proof {
            broadcast use SampleImage::lemma_wf_grid;
        }
        let iw = image.width();
        let ih = image.height();
        let mut pixels: Vec<Vec<Pixel>> = Vec::new();
        for w in 0..fragment_width
            invariant
                image.wf(),
                fragment_width >= 1,
                fragment_height >= 1,
                iw == image@.len(),
                ih == image@[0].len(),
                width_index + fragment_width <= iw,
                height_index + fragment_height <= ih,
                pixels@.len() == w,
                forall|i: int|
                    0 <= i < w ==> (#[trigger] pixels@[i])@.len() == fragment_height,
                forall|i: int, h: int|
                    0 <= i < w && 0 <= h < fragment_height ==> (#[trigger] pixels@[i]@[h])
                        == image@[width_index + i][height_index + h],
        {
            let mut col: Vec<Pixel> = Vec::new();
            for h in 0..fragment_height
                invariant
                    image.wf(),
                    iw == image@.len(),
                    ih == image@[0].len(),
                    width_index + fragment_width <= iw,
                    height_index + fragment_height <= ih,
                    w < fragment_width,
                    col@.len() == h,
                    forall|j: int|
                        0 <= j < h ==> (#[trigger] col@[j]) == image@[width_index + w][height_index
                            + j],
            {
                proof {
                    broadcast use SampleImage::lemma_wf_grid;
                }
                col.push(image.pixel_at(width_index + w, height_index + h));
            }
            pixels.push(col);
        }
        let r = ImageFragment { pixels, width: fragment_width, height: fragment_height };
        proof {
            let win = window_grid(
                image@,
                width_index as int,
                height_index as int,
                fragment_width as int,
                fragment_height as int,
            );
            assert forall|i: int| 0 <= i < fragment_width implies #[trigger] r@[i] =~= win[i] by {
                assert(r@[i] == r.pixels@[i]@);
                assert(forall|h: int|
                    0 <= h < fragment_height ==> (#[trigger] r.pixels@[i]@[h]) == image@[width_index
                        + i][height_index + h]);
            }
            assert(r@ =~~= win);
            assert(r@[0].len() == fragment_height);
        }
        r
    }

    pub fn width(&self) -> (r: usize)
        requires
            self.wf(),
        ensures
            r == self@.len(),
    {
        self.width
    }

    pub fn height(&self) -> (r: usize)
        requires
            self.wf(),
        ensures
            r == self@[0].len(),
    {
        self.height
    }

    pub fn pixel(&self, w: usize, h: usize) -> (r: Pixel)
        requires
            self.wf(),
            w < self@.len(),
            h < self@[0].len(),
        ensures
            r == self@[w as int][h as int],
    {
        self.pixels[w][h]
    }

    /// Structural equality: the sole identity criterion for fragments.
    pub fn equals(&self, other: &ImageFragment) -> (r: bool)
        requires
            self.wf(),
            other.wf(),
        ensures
            r <==> self@ == other@,
    {
        let w = self.width();
        let h = self.height();
        if w != other.width() {
            return false;
        }
        if h != other.height() {
            assert(self@ != other@) by {
                assert(self@[0].len() != other@[0].len());
            }
            return false;
        }
        for wi in 0..w
            invariant
                self.wf(),
                other.wf(),
                w == self@.len() && w == other@.len(),
                h == self@[0].len() && h == other@[0].len(),
                forall|i: int, j: int|
                    0 <= i < wi && 0 <= j < h ==> (#[trigger] self@[i][j]) == other@[i][j],
        {
            for hi in 0..h
                invariant
                    self.wf(),
                    other.wf(),
                    w == self@.len() && w == other@.len(),
                    h == self@[0].len() && h == other@[0].len(),
                    wi < w,
                    forall|i: int, j: int|
                        0 <= i < wi && 0 <= j < h ==> (#[trigger] self@[i][j]) == other@[i][j],
                    forall|j: int|
                        0 <= j < hi ==> (#[trigger] self@[wi as int][j]) == other@[wi as int][j],
            {
                if self.pixel(wi, hi) != other.pixel(wi, hi) {
                    return false;
                }
            }
        }
        assert forall|i: int| 0 <= i < w implies #[trigger] self@[i] =~= other@[i] by {
            assert(forall|j: int| 0 <= j < h ==> (#[trigger] self@[i][j]) == other@[i][j]);
        }
        assert(self@ =~~= other@);
        true
    }

    /// The fragment rotated by 90 degrees, dimensions transposed.
    pub fn rotate(&self) -> (r: Self)
        requires
            self.wf(),
        ensures
            r.wf(),
            r@ == rot_grid(self@),
            r@.len() == self@[0].len(),
            r@[0].len() == self@.len(),
    {
        let wd = self.width;
        let ht = self.height;
        let mut pixels: Vec<Vec<Pixel>> = Vec::new();
        for dw in 0..ht
            invariant
                self.wf(),
                wd == self@.len(),
                ht == self@[0].len(),
                pixels@.len() == dw,
                forall|i: int| 0 <= i < dw ==> (#[trigger] pixels@[i])@.len() == wd,
                forall|i: int, j: int|
                    0 <= i < dw && 0 <= j < wd ==> (#[trigger] pixels@[i]@[j]) == self@[j][ht - 1
                        - i],
        {
            let mut col: Vec<Pixel> = Vec::new();
            for dh in 0..wd
                invariant
                    self.wf(),
                    wd == self@.len(),
                    ht == self@[0].len(),
                    dw < ht,
                    col@.len() == dh,
                    forall|j: int|
                        0 <= j < dh ==> (#[trigger] col@[j]) == self@[j][ht - 1 - dw],
            {
                col.push(self.pixel(dh, ht - 1 - dw));
            }
            pixels.push(col);
        }
        let r = ImageFragment { pixels, width: ht, height: wd };
        proof {
            let rg = rot_grid(self@);
            assert forall|i: int| 0 <= i < ht implies #[trigger] r@[i] =~= rg[i] by {
                assert(r@[i] == r.pixels@[i]@);
                assert(forall|j: int|
                    0 <= j < wd ==> (#[trigger] r.pixels@[i]@[j]) == self@[j][ht - 1 - i]);
            }
            assert(r@ =~~= rg);
            assert(r@[0].len() == wd);
        }
        r
    }

    /// The fragment mirrored along the width axis, dimensions unchanged.
    pub fn flip(&self) -> (r: Self)
        requires
            self.wf(),
        ensures
            r.wf(),
            r@ == flip_grid(self@),
            r@.len() == self@.len(),
            r@[0].len() == self@[0].len(),
    {
        let wd = self.width;
        let ht = self.height;
        let mut pixels: Vec<Vec<Pixel>> = Vec::new();
        for dw in 0..wd
            invariant
                self.wf(),
                wd == self@.len(),
                ht == self@[0].len(),
                pixels@.len() == dw,
                forall|i: int| 0 <= i < dw ==> (#[trigger] pixels@[i])@.len() == ht,
                forall|i: int, j: int|
                    0 <= i < dw && 0 <= j < ht ==> (#[trigger] pixels@[i]@[j]) == self@[wd - 1
                        - i][j],
        {
            let mut col: Vec<Pixel> = Vec::new();
            for dh in 0..ht
                invariant
                    self.wf(),
                    wd == self@.len(),
                    ht == self@[0].len(),
                    dw < wd,
                    col@.len() == dh,
                    forall|j: int|
                        0 <= j < dh ==> (#[trigger] col@[j]) == self@[wd - 1 - dw][j],
            {
                col.push(self.pixel(wd - 1 - dw, dh));
            }
            pixels.push(col);
        }
        let r = ImageFragment { pixels, width: wd, height: ht };
        proof {
            let fg = flip_grid(self@);
            assert forall|i: int| 0 <= i < wd implies #[trigger] r@[i] =~= fg[i] by {
                assert(r@[i] == r.pixels@[i]@);
                assert(forall|j: int|
                    0 <= j < ht ==> (#[trigger] r.pixels@[i]@[j]) == self@[wd - 1 - i][j]);
            }
            assert(r@ =~~= fg);
            assert(r@[0].len() == ht);
        }
        r
    }

    /// Exact pixel-overlap test against `other` laid at offset
    /// `(width_offset, height_offset)`: true iff every pixel pair in the
    /// intersection of the two footprints is equal.
    pub fn is_overlapping(
        &self,
        other_image_fragment: &ImageFragment,
        width_offset: i8,
        height_offset: i8,
    ) -> (r: bool)
        requires
            self.wf(),
            other_image_fragment.wf(),
            other_image_fragment@.len() == self@.len(),
            other_image_fragment@[0].len() == self@[0].len(),
        ensures
            r == grids_overlap(
                self@,
                other_image_fragment@,
                width_offset as int,
                height_offset as int,
            ),
    {
        let wd = self.width();
        let ht = self.height();
        let dx: i64 = width_offset as i64;
        let dy: i64 = height_offset as i64;
        let ghost dxi = width_offset as int;
        let ghost dyi = height_offset as int;

        let dx_pos: usize = if dx > 0 { dx as usize } else { 0 };
        let dx_neg: usize = if dx < 0 { (-dx) as usize } else { 0 };
        let dy_pos: usize = if dy > 0 { dy as usize } else { 0 };
        let dy_neg: usize = if dy < 0 { (-dy) as usize } else { 0 };
        assert(dx_pos as int == if dxi > 0 { dxi } else { 0 });
        assert(dx_neg as int == if dxi < 0 { -dxi } else { 0 });
        assert(dy_pos as int == if dyi > 0 { dyi } else { 0 });
        assert(dy_neg as int == if dyi < 0 { -dyi } else { 0 });

        let w_start: usize = dx_pos;
        let w_end: usize = if dx_neg <= wd {
            wd - dx_neg
        } else {
            0
        };
        let h_start: usize = dy_pos;
        let h_end: usize = if dy_neg <= ht {
            ht - dy_neg
        } else {
            0
        };

        assert(w_start as int == if dxi > 0 { dxi } else { 0 });
        assert(w_end as int == if dxi >= 0 {
            wd as int
        } else if wd + dxi >= 0 {
            wd + dxi
        } else {
            0
        });
        assert(h_start as int == if dyi > 0 { dyi } else { 0 });
        assert(h_end as int == if dyi >= 0 {
            ht as int
        } else if ht + dyi >= 0 {
            ht + dyi
        } else {
            0
        });

        let mut sh: usize = h_start;
        while sh < h_end
            invariant
                self.wf(),
                other_image_fragment.wf(),
                wd == self@.len() && wd == other_image_fragment@.len(),
                ht == self@[0].len() && ht == other_image_fragment@[0].len(),
                dxi == width_offset as int,
                dyi == height_offset as int,
                dx_pos as int == if dxi > 0 { dxi } else { 0 },
                dx_neg as int == if dxi < 0 { -dxi } else { 0 },
                dy_pos as int == if dyi > 0 { dyi } else { 0 },
                dy_neg as int == if dyi < 0 { -dyi } else { 0 },
                h_start <= sh,
                w_start as int == if dxi > 0 { dxi } else { 0 },
                w_end as int == if dxi >= 0 { wd as int } else if wd + dxi >= 0 { wd + dxi } else { 0 },
                h_start as int == if dyi > 0 { dyi } else { 0 },
                h_end as int == if dyi >= 0 { ht as int } else if ht + dyi >= 0 { ht + dyi } else { 0 },
                forall|w: int, h: int|
                    w_start <= w < w_end && h_start <= h < sh ==> #[trigger] self@[w][h]
                        == other_image_fragment@[w - dxi][h - dyi],
            decreases h_end - sh,
        {
            let oh: usize = (sh + dy_neg) - dy_pos;
            let mut sw: usize = w_start;
            while sw < w_end
                invariant
                    self.wf(),
                    other_image_fragment.wf(),
                    wd == self@.len() && wd == other_image_fragment@.len(),
                    ht == self@[0].len() && ht == other_image_fragment@[0].len(),
                    dxi == width_offset as int,
                    dyi == height_offset as int,
                    dx_pos as int == if dxi > 0 { dxi } else { 0 },
                    dx_neg as int == if dxi < 0 { -dxi } else { 0 },
                    w_start <= sw,
                    h_start <= sh < h_end,
                    oh == sh - dyi,
                    w_start as int == if dxi > 0 { dxi } else { 0 },
                    w_end as int == if dxi >= 0 { wd as int } else if wd + dxi >= 0 { wd + dxi } else { 0 },
                    h_start as int == if dyi > 0 { dyi } else { 0 },
                    h_end as int == if dyi >= 0 { ht as int } else if ht + dyi >= 0 { ht + dyi } else { 0 },
                    forall|w: int, h: int|
                        w_start <= w < w_end && h_start <= h < sh ==> #[trigger] self@[w][h]
                            == other_image_fragment@[w - dxi][h - dyi],
                    forall|w: int|
                        w_start <= w < sw ==> #[trigger] self@[w][sh as int]
                            == other_image_fragment@[w - dxi][sh - dyi],
                decreases w_end - sw,
            {
                let ow: usize = (sw + dx_neg) - dx_pos;
                if self.pixel(sw, sh) != other_image_fragment.pixel(ow, oh) {
                    assert(!grids_overlap(self@, other_image_fragment@, dxi, dyi)) by {
                        assert(self@[sw as int][sh as int] != other_image_fragment@[sw - dxi][sh
                            - dyi]);
                    }
                    return false;
                }
                sw = sw + 1;
            }
            sh = sh + 1;
        }
        assert forall|w: int, h: int|
            0 <= w < self@.len() && 0 <= h < self@[0].len() && 0 <= w - dxi < self@.len() && 0 <= h
                - dyi < self@[0].len() implies #[trigger] self@[w][h]
            == other_image_fragment@[w - dxi][h - dyi] by {
            assert(w_start <= w < w_end && h_start <= h < h_end);
        }
        true
    }
}

} // verus!
