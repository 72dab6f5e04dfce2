//! Pixels and the decoded sample image.
//!
//! The sample image reaches the library already decoded, as a column-major
//! grid of RGBA pixels: `pixels[x]` is the column at width index `x`, and
//! `pixels[x][y]` the pixel at width index `x` and height index `y`.

use vstd::prelude::*;

use crate::GenError;

verus! {

/// One RGBA pixel.  Equality is structural, by the four channel values.
#[derive(Clone, Copy, PartialEq, Eq, Structural, Debug)]
pub struct Pixel {
    pub red: u8,
    pub green: u8,
    pub blue: u8,
    pub alpha: u8,
}

/// A well-formed pixel grid: at least one column, at least one row, and
/// every column of the same height.
pub open spec fn grid_wf(g: Seq<Seq<Pixel>>) -> bool {
    &&& g.len() >= 1
    &&& g[0].len() >= 1
    &&& forall|i: int| 0 <= i < g.len() ==> (#[trigger] g[i]).len() == g[0].len()
}

/// The decoded sample image the fragments are extracted from.
#[derive(Debug)]
pub struct SampleImage {
    pixels: Vec<Vec<Pixel>>,
    width: usize,
    height: usize,
}

impl View for SampleImage {
    type V = Seq<Seq<Pixel>>;

    closed spec fn view(&self) -> Seq<Seq<Pixel>> {
        self.pixels@.map_values(|col: Vec<Pixel>| col@)
    }
}

impl SampleImage {
    pub closed spec fn wf(&self) -> bool {
        &&& self.width >= 1
        &&& self.height >= 1
        &&& self.pixels@.len() == self.width
        &&& forall|i: int|
            0 <= i < self.pixels@.len() ==> (#[trigger] self.pixels@[i])@.len() == self.height
    }

    pub broadcast proof fn lemma_wf_grid(&self)
        ensures
            #[trigger] self.wf() ==> grid_wf(self@),
    {
    }

    /// Builds a sample image from a column-major pixel grid; rejects a grid
    /// that is empty or not rectangular.
    pub fn new(pixels: Vec<Vec<Pixel>>) -> (r: Result<SampleImage, GenError>)
        ensures
            r is Ok <==> grid_wf(pixels@.map_values(|col: Vec<Pixel>| col@)),
            r is Err ==> r == Err::<SampleImage, GenError>(GenError::InvalidPixelGrid),
            r matches Ok(img) ==> img.wf() && img@ == pixels@.map_values(|col: Vec<Pixel>| col@),
    {
        if pixels.len() == 0 {
            return Err(GenError::InvalidPixelGrid);
        }
        let height = pixels[0].len();
        if height == 0 {
            proof {
                let m = pixels@.map_values(|col: Vec<Pixel>| col@);
                assert(m[0].len() == pixels@[0]@.len());
            }
            return Err(GenError::InvalidPixelGrid);
        }
        let width = pixels.len();
        for i in 1..width
            invariant
                width == pixels@.len(),
                height == pixels@[0]@.len(),
                height >= 1,
                forall|j: int| 0 <= j < i ==> (#[trigger] pixels@[j])@.len() == height,
        {
            if pixels[i].len() != height {
                proof {
                    let m = pixels@.map_values(|col: Vec<Pixel>| col@);
                    assert(m[i as int].len() == pixels@[i as int]@.len());
                    assert(m[0].len() == pixels@[0]@.len());
                }
                return Err(GenError::InvalidPixelGrid);
            }
        }
        proof {
            let m = pixels@.map_values(|col: Vec<Pixel>| col@);
            assert(forall|j: int|
                0 <= j < m.len() ==> (#[trigger] m[j]).len() == pixels@[j]@.len());
            assert(m[0].len() == height);
        }
        Ok(SampleImage { pixels, width, height })
    }

    pub fn width(&self) -> (r: usize)
        requires
            self.wf(),
        ensures
            r == self@.len(),
    {
        self.width
    }

    pub fn height(&self) -> (r: usize)
        requires
            self.wf(),
        ensures
            r == self@[0].len(),
    {
        self.height
    }

    pub fn pixel_at(&self, x: usize, y: usize) -> (r: Pixel)
        requires
            self.wf(),
            x < self@.len(),
            y < self@[0].len(),
        ensures
            r == self@[x as int][y as int],
    {
        self.pixels[x][y]
    }
}

} // verus!
