//! The output canvas and the generation pipeline around it: assembling
//! the constraint graph for an output size, and reconstructing the output
//! pixel grid from a solver assignment.

use vstd::prelude::*;

use crate::GenError;
use crate::pixel::{Pixel, SampleImage};
use crate::fragment::{ImageFragment, rot_grid, window_grid};
use crate::catalog::{
    Catalog, all_variants, entries_model, fragment_dims_ok, is_ground_grid, lemma_orientations_wf,
    lemma_rot_grid_dims, lemma_variant_in_all, lemma_window_wf, orientation_grids,
    size_within_limits, uniform_dims,
};
use crate::constraints::{ConstraintSet, build_constraint_sets, constraint_sets_ok};
use crate::grid::{Node, build_nodes, nodes_ok};

verus! {

/// The explicit configuration of one generation run.
#[derive(Debug)]
pub struct GenerationConfig {
    pub fragment_width: usize,
    pub fragment_height: usize,
    pub allow_reflection: bool,
    pub allow_rotation: bool,
    pub periodic: bool,
    pub contains_ground: bool,
    pub random_seed: Option<u64>,
}

/// The immutable bundle handed to the external solver: the weighted
/// catalog, all constraint sets, the wired node grid, and the run's
/// optional random seed.
#[derive(Debug)]
pub struct ConstraintGraph {
    pub catalog: Catalog,
    pub constraint_sets: Vec<ConstraintSet>,
    pub nodes: Vec<Node>,
    pub grid_width: usize,
    pub grid_height: usize,
    pub periodic: bool,
    pub contains_ground: bool,
    pub random_seed: Option<u64>,
}

/// What `get_wave_function` promises of the graph it assembles for a
/// sample image, a configuration, and an output size.
pub open spec fn graph_matches(
    g: ConstraintGraph,
    img: Seq<Seq<Pixel>>,
    cfg: GenerationConfig,
    ow: int,
    oh: int,
) -> bool {
    let fw = cfg.fragment_width as int;
    let fh = cfg.fragment_height as int;
    &&& g.catalog.wf()
    &&& entries_model(
        g.catalog.entries@,
        all_variants(img, fw, fh, cfg.allow_reflection, cfg.allow_rotation).to_multiset(),
    )
    &&& forall|i: int|
        0 <= i < g.catalog.entries@.len() ==> (#[trigger] g.catalog.entries@[i]).is_ground
            == is_ground_grid(img, fw, fh, g.catalog.entries@[i].fragment@)
    &&& constraint_sets_ok(g.constraint_sets@, g.catalog.entries@)
    &&& g.grid_width as int == ow - fw + 1
    &&& g.grid_height as int == oh - fh + 1
    &&& nodes_ok(
        g.nodes@,
        g.grid_width as int,
        g.grid_height as int,
        cfg.periodic,
        cfg.contains_ground,
        g.catalog.entries@,
    )
    &&& g.periodic == cfg.periodic
    &&& g.contains_ground == cfg.contains_ground
    &&& g.random_seed == cfg.random_seed
}

/// A complete solver assignment for a `w x h` canvas: one chosen fragment
/// of the requested dimensions per grid position, column-major.
pub open spec fn assignment_valid(
    assignment: Seq<Vec<ImageFragment>>,
    w: int,
    h: int,
    fw: int,
    fh: int,
) -> bool {
    &&& 1 <= fw <= w
    &&& 1 <= fh <= h
    &&& assignment.len() == w - fw + 1
    &&& forall|x: int|
        0 <= x < assignment.len() ==> (#[trigger] assignment[x])@.len() == h - fh + 1
    &&& forall|x: int, y: int|
        0 <= x < assignment.len() && 0 <= y < h - fh + 1 ==> (#[trigger] assignment[x]@[y])@.len()
            == fw && assignment[x]@[y]@[0].len() == fh
}

/// The net effect of edge-aware reconstruction: interior grid positions
/// contribute their chosen fragment's single top-left pixel, while the
/// last grid column and the last grid row write their full fragment
/// blocks over the margin.  The pixel at `(px, py)` therefore comes from
/// the chosen fragment of the nearest grid position, at the matching
/// block offset.
pub open spec fn reconstructed_pixel(
    assignment: Seq<Vec<ImageFragment>>,
    gw: int,
    gh: int,
    px: int,
    py: int,
) -> Pixel {
    let nx = if px < gw - 1 {
        px
    } else {
        gw - 1
    };
    let ny = if py < gh - 1 {
        py
    } else {
        gh - 1
    };
    assignment[nx]@[ny]@[px - nx][py - ny]
}

/// The state `write` leaves the canvas in on success: the dimensions are
/// kept, the built flag is set, and every output pixel is the
/// reconstructed one.
pub open spec fn reconstruction_ok(
    c: Canvas,
    assignment: Seq<Vec<ImageFragment>>,
    w: int,
    h: int,
    fw: int,
    fh: int,
) -> bool {
    &&& c.width == w
    &&& c.height == h
    &&& c.been_built == true
    &&& c.pixels@.len() == w
    &&& forall|x: int| 0 <= x < c.pixels@.len() ==> (#[trigger] c.pixels@[x])@.len() == h
    &&& forall|px: int, py: int|
        0 <= px < w && 0 <= py < h ==> (#[trigger] c.pixels@[px]@[py]) == reconstructed_pixel(
            assignment,
            w - fw + 1,
            h - fh + 1,
            px,
            py,
        )
}

/// The output canvas: its requested dimensions and, once a run has been
/// reconstructed into it, the full output pixel grid.
pub struct Canvas {
    pub been_built: bool,
    pub width: usize,
    pub height: usize,
    pub pixels: Vec<Vec<Pixel>>,
}

impl Canvas {
    pub fn new(width: usize, height: usize) -> (r: Self)
        ensures
            r.width == width,
            r.height == height,
            r.been_built == false,
            r.pixels@.len() == 0,
    {
        Canvas { width, height, been_built: false, pixels: Vec::new() }
    }

    /// Assembles the constraint graph for this canvas from a decoded
    /// sample image: the weighted fragment catalog, the pairwise overlap
    /// constraint sets, and the wired node grid.
    pub fn get_wave_function(&self, image: &SampleImage, config: &GenerationConfig) -> (r: Result<
        ConstraintGraph,
        GenError,
    >)
        requires
            image.wf(),
            size_within_limits(image@),
        ensures
            r == Err::<ConstraintGraph, GenError>(GenError::InvalidFragmentSize) <==> !(1
                <= config.fragment_width <= image@.len() && 1 <= config.fragment_height
                <= image@[0].len()),
            (1 <= config.fragment_width <= image@.len() && 1 <= config.fragment_height
                <= image@[0].len()) ==> (r == Err::<ConstraintGraph, GenError>(
                GenError::MixedFragmentSizes,
            ) <==> (config.allow_rotation && config.fragment_width != config.fragment_height)),
            (1 <= config.fragment_width <= image@.len() && 1 <= config.fragment_height
                <= image@[0].len() && !(config.allow_rotation && config.fragment_width
                != config.fragment_height)) ==> (r == Err::<ConstraintGraph, GenError>(
                GenError::InvalidOutputSize,
            ) <==> !(config.fragment_width <= self.width && config.fragment_height
                <= self.height)),
            r is Ok <==> (1 <= config.fragment_width <= image@.len() && 1 <= config.fragment_height
                <= image@[0].len() && !(config.allow_rotation && config.fragment_width
                != config.fragment_height) && config.fragment_width <= self.width
                && config.fragment_height <= self.height),
            r matches Ok(g) ==> graph_matches(g, image@, *config, self.width as int,
            self.height as int),
    {
        let ghost imgv = image@;
        let ghost fwi = config.fragment_width as int;
        let ghost fhi = config.fragment_height as int;
        let refl = config.allow_reflection;
        let rot = config.allow_rotation;

        let catalog = match Catalog::extract(
            image,
            config.fragment_width,
            config.fragment_height,
            refl,
            rot,
        ) {
            Ok(c) => c,
            Err(e) => {
                return Err(e);
            },
        };
        let ghost entries = catalog.entries@;

        proof {
            if rot && fwi != fhi {
                image.lemma_wf_grid();
                lemma_window_wf(imgv, 0, 0, fwi, fhi);
                let g0 = window_grid(imgv, 0, 0, fwi, fhi);
                lemma_orientations_wf(g0, refl, rot);
                lemma_rot_grid_dims(g0);
                let og = orientation_grids(g0, refl, rot);
                assert(og[0] == g0);
                assert(og[1] == rot_grid(g0));
                lemma_variant_in_all(imgv, fwi, fhi, refl, rot, 0, 0, 0);
                lemma_variant_in_all(imgv, fwi, fhi, refl, rot, 0, 0, 1);
                let m = all_variants(imgv, fwi, fhi, refl, rot).to_multiset();
                assert(m.count(g0) > 0);
                assert(m.count(rot_grid(g0)) > 0);
                let i0 = choose|i: int|
                    0 <= i < entries.len() && (#[trigger] entries[i]).fragment@ == g0;
                let i1 = choose|i: int|
                    0 <= i < entries.len() && (#[trigger] entries[i]).fragment@ == rot_grid(g0);
                assert(entries[i0].fragment@.len() == fwi);
                assert(entries[i1].fragment@.len() == fhi);
                assert(!uniform_dims(entries));
            } else {
                assert forall|i: int, j: int|
                    0 <= i < entries.len() && 0 <= j < entries.len() implies (
                #[trigger] entries[i]).fragment@.len() == (#[trigger] entries[j]).fragment@.len()
                    && entries[i].fragment@[0].len() == entries[j].fragment@[0].len() by {
                    assert(fragment_dims_ok(entries[i].fragment@, fwi, fhi, rot));
                    assert(fragment_dims_ok(entries[j].fragment@, fwi, fhi, rot));
                }
                assert(uniform_dims(entries));
            }
        }

        let constraint_sets = match build_constraint_sets(&catalog) {
            Ok(s) => s,
            Err(e) => {
                return Err(e);
            },
        };

        let nodes = match build_nodes(
            &catalog,
            self.width,
            self.height,
            config.fragment_width,
            config.fragment_height,
            config.periodic,
            config.contains_ground,
        ) {
            Ok(ns) => ns,
            Err(e) => {
                return Err(e);
            },
        };

        let grid_width = self.width - config.fragment_width + 1;
        let grid_height = self.height - config.fragment_height + 1;
        Ok(
            ConstraintGraph {
                catalog,
                constraint_sets,
                nodes,
                grid_width,
                grid_height,
                periodic: config.periodic,
                contains_ground: config.contains_ground,
                random_seed: config.random_seed,
            },
        )
    }

    /// Reconstructs the full output pixel grid from a complete solver
    /// assignment: interior nodes contribute their single top-left pixel,
    /// and the last grid column and row write full fragment blocks over
    /// the margin.  A malformed assignment is rejected and the canvas is
    /// left untouched.
    pub fn write(
        &mut self,
        assignment: &Vec<Vec<ImageFragment>>,
        fragment_width: usize,
        fragment_height: usize,
    ) -> (r: Result<(), GenError>)
        ensures
            r is Ok <==> assignment_valid(
                assignment@,
                old(self).width as int,
                old(self).height as int,
                fragment_width as int,
                fragment_height as int,
            ),
            r is Err ==> *final(self) == *old(self) && r == Err::<(), GenError>(
                GenError::MalformedAssignment,
            ),
            r is Ok ==> reconstruction_ok(
                *final(self),
                assignment@,
                old(self).width as int,
                old(self).height as int,
                fragment_width as int,
                fragment_height as int,
            ),
    {
        let w = self.width;
        let h = self.height;
        if fragment_width == 0 || fragment_height == 0 || fragment_width > w || fragment_height
            > h {
            return Err(GenError::MalformedAssignment);
        }
        let fw = fragment_width;
        let fh = fragment_height;
        let gw = w - fw + 1;
        let gh = h - fh + 1;
        if assignment.len() != gw {
            return Err(GenError::MalformedAssignment);
        }
        for x in 0..gw
            invariant
                *self == *old(self),
                w == old(self).width,
                h == old(self).height,
                fw == fragment_width,
                fh == fragment_height,
                gw == assignment@.len(),
                gw == w - fw + 1,
                gh == h - fh + 1,
                1 <= fw <= w,
                1 <= fh <= h,
                forall|x2: int| 0 <= x2 < x ==> (#[trigger] assignment@[x2])@.len() == gh,
        {
            if assignment[x].len() != gh {
                assert(assignment@[x as int]@.len() != gh);
                return Err(GenError::MalformedAssignment);
            }
        }
        for x in 0..gw
            invariant
                *self == *old(self),
                w == old(self).width,
                h == old(self).height,
                fw == fragment_width,
                fh == fragment_height,
                gw == assignment@.len(),
                gw == w - fw + 1,
                gh == h - fh + 1,
                1 <= fw <= w,
                1 <= fh <= h,
                forall|x2: int| 0 <= x2 < gw ==> (#[trigger] assignment@[x2])@.len() == gh,
                forall|x2: int, y2: int|
                    0 <= x2 < x && 0 <= y2 < gh ==> (#[trigger] assignment@[x2]@[y2])@.len() == fw
                        && assignment@[x2]@[y2]@[0].len() == fh,
        {
            for y in 0..gh
                invariant
                    *self == *old(self),
                    w == old(self).width,
                    h == old(self).height,
                    fw == fragment_width,
                    fh == fragment_height,
                    x < gw,
                    gw == assignment@.len(),
                    gw == w - fw + 1,
                    gh == h - fh + 1,
                    1 <= fw <= w,
                    1 <= fh <= h,
                    forall|x2: int| 0 <= x2 < gw ==> (#[trigger] assignment@[x2])@.len() == gh,
                    forall|x2: int, y2: int|
                        0 <= x2 < x && 0 <= y2 < gh ==> (#[trigger] assignment@[x2]@[y2])@.len()
                            == fw && assignment@[x2]@[y2]@[0].len() == fh,
                    forall|y2: int|
                        0 <= y2 < y ==> (#[trigger] assignment@[x as int]@[y2])@.len() == fw
                            && assignment@[x as int]@[y2]@[0].len() == fh,
            {
                let f = &assignment[x][y];
                proof {
                    use_type_invariant(f);
                }
                if f.width() != fw || f.height() != fh {
                    assert(!((assignment@[x as int]@[y as int])@.len() == fw
                        && assignment@[x as int]@[y as int]@[0].len() == fh));
                    return Err(GenError::MalformedAssignment);
                }
            }
        }
        assert(assignment_valid(assignment@, w as int, h as int, fw as int, fh as int));

        let mut pixels: Vec<Vec<Pixel>> = Vec::new();
        for px in 0..w
            invariant
                gw == assignment@.len(),
                gw == w - fw + 1,
                gh == h - fh + 1,
                1 <= fw <= w,
                1 <= fh <= h,
                assignment_valid(assignment@, w as int, h as int, fw as int, fh as int),
                pixels@.len() == px,
                forall|x2: int| 0 <= x2 < px ==> (#[trigger] pixels@[x2])@.len() == h,
                forall|x2: int, y2: int|
                    0 <= x2 < px && 0 <= y2 < h ==> (#[trigger] pixels@[x2]@[y2])
                        == reconstructed_pixel(assignment@, gw as int, gh as int, x2, y2),
        {
            let mut col: Vec<Pixel> = Vec::new();
            for py in 0..h
                invariant
                    px < w,
                    gw == assignment@.len(),
                    gw == w - fw + 1,
                    gh == h - fh + 1,
                    1 <= fw <= w,
                    1 <= fh <= h,
                    assignment_valid(assignment@, w as int, h as int, fw as int, fh as int),
                    col@.len() == py,
                    forall|y2: int|
                        0 <= y2 < py ==> (#[trigger] col@[y2]) == reconstructed_pixel(
                            assignment@,
                            gw as int,
                            gh as int,
                            px as int,
                            y2,
                        ),
            {
                let nx = if px < gw - 1 {
                    px
                } else {
                    gw - 1
                };
                let ny = if py < gh - 1 {
                    py
                } else {
                    gh - 1
                };
                let f = &assignment[nx][ny];
                proof {
                    use_type_invariant(f);
                }
                let p = f.pixel(px - nx, py - ny);
                col.push(p);
            }
            pixels.push(col);
        }
        self.pixels = pixels;
        self.been_built = true;
        Ok(())
    }

    pub fn get_pixel(&self, w: usize, h: usize) -> (r: Pixel)
        requires
            w < self.pixels@.len(),
            h < self.pixels@[w as int]@.len(),
        ensures
            r == self.pixels@[w as int]@[h as int],
    {
        self.pixels[w][h]
    }
}

} // verus!
