//! The fragment catalog: every oriented variant of every extraction window
//! of the sample image, deduplicated by structural equality, with each
//! entry's weight equal to its total occurrence count and a flag marking
//! the fragments of the sample's bottommost valid row (the ground set).

use vstd::prelude::*;
use vstd::multiset::Multiset;

use crate::GenError;
use crate::pixel::{Pixel, SampleImage, grid_wf};
use crate::fragment::{ImageFragment, flip_grid, rot_grid, window_grid};

verus! {

/// One deduplicated catalog entry: a unique fragment, its occurrence
/// count, and whether it was extracted (pre-orientation) from the
/// sample's bottommost valid row.
#[derive(Debug)]
pub struct CatalogEntry {
    pub fragment: ImageFragment,
    pub weight: u64,
    pub is_ground: bool,
}

/// The deduplicated, weighted set of all extracted fragments.
#[derive(Debug)]
pub struct Catalog {
    pub entries: Vec<CatalogEntry>,
}

/// The machine limit under which extraction cannot overflow: every weight
/// and every derived index stays below the pointer-size bound.
pub open spec fn size_within_limits(img: Seq<Seq<Pixel>>) -> bool {
    32 * img.len() * img[0].len() <= usize::MAX
}

/// The number of window positions along the width axis.
pub open spec fn grid_count_w(img: Seq<Seq<Pixel>>, fw: int) -> int {
    img.len() - fw + 1
}

/// The number of window positions along the height axis.
pub open spec fn grid_count_h(img: Seq<Seq<Pixel>>, fh: int) -> int {
    img[0].len() - fh + 1
}

/// The orientation variants of one extracted grid, in generation order:
/// the base, then its successive rotations, then (when both flags are on)
/// the mirror of the last rotation followed by its successive rotations.
pub open spec fn orientation_grids(
    g: Seq<Seq<Pixel>>,
    allow_reflection: bool,
    allow_rotation: bool,
) -> Seq<Seq<Seq<Pixel>>> {
    if allow_reflection && allow_rotation {
        let g1 = rot_grid(g);
        let g2 = rot_grid(g1);
        let g3 = rot_grid(g2);
        let m0 = flip_grid(g3);
        let m1 = rot_grid(m0);
        let m2 = rot_grid(m1);
        let m3 = rot_grid(m2);
        seq![g, g1, g2, g3, m0, m1, m2, m3]
    } else if allow_reflection {
        seq![g, flip_grid(g)]
    } else if allow_rotation {
        let g1 = rot_grid(g);
        let g2 = rot_grid(g1);
        let g3 = rot_grid(g2);
        seq![g, g1, g2, g3]
    } else {
        seq![g]
    }
}

/// How many orientation variants each window produces.
pub open spec fn orientation_count(allow_reflection: bool, allow_rotation: bool) -> int {
    if allow_reflection && allow_rotation {
        8
    } else if allow_reflection {
        2
    } else if allow_rotation {
        4
    } else {
        1
    }
}

/// The variants of the first `x` windows of window-row `y`, in scan order.
pub open spec fn row_variants(
    img: Seq<Seq<Pixel>>,
    fw: int,
    fh: int,
    refl: bool,
    rot: bool,
    y: int,
    x: int,
) -> Seq<Seq<Seq<Pixel>>>
    decreases x,
{
    if x <= 0 {
        Seq::empty()
    } else {
        row_variants(img, fw, fh, refl, rot, y, x - 1) + orientation_grids(
            window_grid(img, x - 1, y, fw, fh),
            refl,
            rot,
        )
    }
}

/// The variants of all windows of the first `y` window-rows.
pub open spec fn rows_variants(
    img: Seq<Seq<Pixel>>,
    fw: int,
    fh: int,
    refl: bool,
    rot: bool,
    y: int,
) -> Seq<Seq<Seq<Pixel>>>
    decreases y,
{
    if y <= 0 {
        Seq::empty()
    } else {
        rows_variants(img, fw, fh, refl, rot, y - 1) + row_variants(
            img,
            fw,
            fh,
            refl,
            rot,
            y - 1,
            grid_count_w(img, fw),
        )
    }
}

/// Every oriented variant of every extraction window of the sample, in
/// extraction order.
pub open spec fn all_variants(
    img: Seq<Seq<Pixel>>,
    fw: int,
    fh: int,
    refl: bool,
    rot: bool,
) -> Seq<Seq<Seq<Pixel>>> {
    rows_variants(img, fw, fh, refl, rot, grid_count_h(img, fh))
}

/// A grid belongs to the ground set iff it is the unoriented window of the
/// bottommost valid window-row at some column.
pub open spec fn is_ground_grid(img: Seq<Seq<Pixel>>, fw: int, fh: int, g: Seq<Seq<Pixel>>) -> bool {
    exists|x: int|
        0 <= x < grid_count_w(img, fw) && #[trigger] window_grid(img, x, img[0].len() - fh, fw, fh)
            == g
}

/// A fragment extracted with these parameters is `fw x fh`, or `fh x fw`
/// when rotation is permitted.
pub open spec fn fragment_dims_ok(g: Seq<Seq<Pixel>>, fw: int, fh: int, rot: bool) -> bool {
    (g.len() == fw && g[0].len() == fh) || (rot && g.len() == fh && g[0].len() == fw)
}

/// The entries hold distinct, well-formed fragments with positive weights.
pub open spec fn entries_wf(entries: Seq<CatalogEntry>) -> bool {
    &&& forall|i: int|
        0 <= i < entries.len() ==> (#[trigger] entries[i]).fragment.wf() && entries[i].weight >= 1
    &&& forall|i: int, j: int|
        0 <= i < j < entries.len() ==> (#[trigger] entries[i]).fragment@ != (
        #[trigger] entries[j]).fragment@
}

/// The entries record exactly the multiset `m`: each entry's weight is its
/// grid's multiplicity in `m`, and every grid of `m` has an entry.
pub open spec fn entries_model(entries: Seq<CatalogEntry>, m: Multiset<Seq<Seq<Pixel>>>) -> bool {
    &&& forall|i: int|
        0 <= i < entries.len() ==> (#[trigger] entries[i]).weight as nat == m.count(
            entries[i].fragment@,
        )
    &&& forall|g: Seq<Seq<Pixel>>|
        #[trigger] m.count(g) > 0 ==> exists|i: int|
            0 <= i < entries.len() && (#[trigger] entries[i]).fragment@ == g
}

/// All entries share one pair of dimensions.
pub open spec fn uniform_dims(entries: Seq<CatalogEntry>) -> bool {
    forall|i: int, j: int|
        0 <= i < entries.len() && 0 <= j < entries.len() ==> (
        #[trigger] entries[i]).fragment@.len() == (#[trigger] entries[j]).fragment@.len()
            && entries[i].fragment@[0].len() == entries[j].fragment@[0].len()
}

impl Catalog {
    pub open spec fn wf(&self) -> bool {
        entries_wf(self.entries@)
    }
}

/// Rotating or mirroring a well-formed grid gives a well-formed grid with
/// the expected dimensions.
pub proof fn lemma_rot_grid_dims(g: Seq<Seq<Pixel>>)
    requires
        grid_wf(g),
    ensures
        grid_wf(rot_grid(g)),
        rot_grid(g).len() == g[0].len(),
        rot_grid(g)[0].len() == g.len(),
{
    assert(rot_grid(g)[0].len() == g.len());
    assert(forall|i: int|
        0 <= i < rot_grid(g).len() ==> (#[trigger] rot_grid(g)[i]).len() == g.len());
}

pub proof fn lemma_flip_grid_dims(g: Seq<Seq<Pixel>>)
    requires
        grid_wf(g),
    ensures
        grid_wf(flip_grid(g)),
        flip_grid(g).len() == g.len(),
        flip_grid(g)[0].len() == g[0].len(),
{
    assert(flip_grid(g)[0] == g[g.len() - 1]);
    assert(forall|i: int|
        0 <= i < flip_grid(g).len() ==> (#[trigger] flip_grid(g)[i]).len() == g[0].len());
}

/// Every orientation variant of a well-formed grid is well-formed and has
/// the base dimensions, or the transposed ones when rotation is permitted.
pub proof fn lemma_orientations_wf(g: Seq<Seq<Pixel>>, refl: bool, rot: bool)
    requires
        grid_wf(g),
    ensures
        orientation_grids(g, refl, rot).len() == orientation_count(refl, rot),
        orientation_grids(g, refl, rot)[0] == g,
        forall|k: int|
            0 <= k < orientation_grids(g, refl, rot).len() ==> grid_wf(
                #[trigger] orientation_grids(g, refl, rot)[k],
            ) && fragment_dims_ok(orientation_grids(g, refl, rot)[k], g.len() as int, g[0].len() as int, rot),
{
    let fw = g.len() as int;
    let fh = g[0].len() as int;
    if refl && rot {
        let g1 = rot_grid(g);
        let g2 = rot_grid(g1);
        let g3 = rot_grid(g2);
        let m0 = flip_grid(g3);
        let m1 = rot_grid(m0);
        let m2 = rot_grid(m1);
        let m3 = rot_grid(m2);
        lemma_rot_grid_dims(g);
        lemma_rot_grid_dims(g1);
        lemma_rot_grid_dims(g2);
        lemma_flip_grid_dims(g3);
        lemma_rot_grid_dims(m0);
        lemma_rot_grid_dims(m1);
        lemma_rot_grid_dims(m2);
        assert forall|k: int| 0 <= k < orientation_grids(g, refl, rot).len() implies grid_wf(
            #[trigger] orientation_grids(g, refl, rot)[k],
        ) && fragment_dims_ok(orientation_grids(g, refl, rot)[k], fw, fh, rot) by {
            let og = orientation_grids(g, refl, rot);
            assert(og[0] == g && og[1] == g1 && og[2] == g2 && og[3] == g3 && og[4] == m0 && og[5]
                == m1 && og[6] == m2 && og[7] == m3);
        }
    } else if refl {
        lemma_flip_grid_dims(g);
        assert forall|k: int| 0 <= k < orientation_grids(g, refl, rot).len() implies grid_wf(
            #[trigger] orientation_grids(g, refl, rot)[k],
        ) && fragment_dims_ok(orientation_grids(g, refl, rot)[k], fw, fh, rot) by {
            let og = orientation_grids(g, refl, rot);
            assert(og[0] == g && og[1] == flip_grid(g));
        }
    } else if rot {
        let g1 = rot_grid(g);
        let g2 = rot_grid(g1);
        lemma_rot_grid_dims(g);
        lemma_rot_grid_dims(g1);
        lemma_rot_grid_dims(g2);
        assert forall|k: int| 0 <= k < orientation_grids(g, refl, rot).len() implies grid_wf(
            #[trigger] orientation_grids(g, refl, rot)[k],
        ) && fragment_dims_ok(orientation_grids(g, refl, rot)[k], fw, fh, rot) by {
            let og = orientation_grids(g, refl, rot);
            assert(og[0] == g && og[1] == g1 && og[2] == g2 && og[3] == rot_grid(g2));
        }
    } else {
        assert(orientation_grids(g, refl, rot)[0] == g);
    }
}

/// Appending one more variant to the processed prefix inserts exactly that
/// grid into the processed multiset.
proof fn lemma_take_step(pre: Seq<Seq<Seq<Pixel>>>, og: Seq<Seq<Seq<Pixel>>>, k: int)
    requires
        0 <= k < og.len(),
    ensures
        (pre + og.take(k + 1)).to_multiset() == (pre + og.take(k)).to_multiset().insert(og[k]),
{
    broadcast use vstd::seq_lib::group_to_multiset_ensures;

    assert(pre + og.take(k + 1) =~= (pre + og.take(k)).push(og[k]));
}

/// Inserts one extracted variant into the catalog entries: an entry whose
/// fragment is pixel-identical has its weight incremented by one, else a
/// fresh entry of weight one is appended.
fn insert_variant(
    entries: &mut Vec<CatalogEntry>,
    frag: ImageFragment,
    m: Ghost<Multiset<Seq<Seq<Pixel>>>>,
)
    requires
        frag.wf(),
        entries_wf(old(entries)@),
        entries_model(old(entries)@, m@),
        m@.len() < u64::MAX,
    ensures
        entries_wf(final(entries)@),
        entries_model(final(entries)@, m@.insert(frag@)),
        old(entries)@.len() <= final(entries)@.len() <= old(entries)@.len() + 1,
        forall|i: int|
            0 <= i < old(entries)@.len() ==> (#[trigger] final(entries)@[i]).fragment == old(
                entries,
            )@[i].fragment && final(entries)@[i].is_ground == old(entries)@[i].is_ground,
        final(entries)@.len() == old(entries)@.len() + 1 ==> final(entries)@.last().fragment
            == frag && final(entries)@.last().is_ground == false,
{
    broadcast use vstd::multiset::group_multiset_axioms;

    let n = entries.len();
    for i in 0..n
        invariant
            n == entries@.len(),
            frag.wf(),
            entries_wf(entries@),
            entries_model(entries@, m@),
            m@.len() < u64::MAX,
            entries@ == old(entries)@,
            forall|j: int| 0 <= j < i ==> (#[trigger] entries@[j]).fragment@ != frag@,
    {
        let hit = entries[i].fragment.equals(&frag);
        if hit {
            proof {
                assert(m@.count(frag@) <= m@.len());
            }
            let w = entries[i].weight;
            entries[i].weight = w + 1;
            proof {
                let m2 = m@.insert(frag@);
                assert(m2.count(frag@) == m@.count(frag@) + 1);
                assert forall|g: Seq<Seq<Pixel>>| #[trigger] m2.count(g) > 0 implies exists|j: int|
                    0 <= j < entries@.len() && (#[trigger] entries@[j]).fragment@ == g by {
                    if g == frag@ {
                        assert(entries@[i as int].fragment@ == g);
                    } else {
                        assert(m@.count(g) == m2.count(g));
                        let j = choose|j: int|
                            0 <= j < old(entries)@.len() && (#[trigger] old(
                                entries,
                            )@[j]).fragment@ == g;
                        assert(entries@[j].fragment@ == g);
                    }
                }
                assert forall|j: int| 0 <= j < entries@.len() implies (
                #[trigger] entries@[j]).weight as nat == m2.count(entries@[j].fragment@) by {
                    if j != i {
                        assert(entries@[j].fragment@ != frag@);
                    }
                }
            }
            return ;
        }
    }
    let new_entry = CatalogEntry { fragment: frag, weight: 1, is_ground: false };
    entries.push(new_entry);
    proof {
        let m2 = m@.insert(entries@.last().fragment@);
        let fv = entries@.last().fragment@;
        assert(m@.count(fv) == 0) by {
            if m@.count(fv) > 0 {
                let j = choose|j: int|
                    0 <= j < old(entries)@.len() && (#[trigger] old(entries)@[j]).fragment@ == fv;
                assert(old(entries)@[j].fragment@ != fv);
            }
        }
        assert forall|g: Seq<Seq<Pixel>>| #[trigger] m2.count(g) > 0 implies exists|j: int|
            0 <= j < entries@.len() && (#[trigger] entries@[j]).fragment@ == g by {
            if g == fv {
                assert(entries@[entries@.len() - 1].fragment@ == g);
            } else {
                let j = choose|j: int|
                    0 <= j < old(entries)@.len() && (#[trigger] old(entries)@[j]).fragment@ == g;
                assert(entries@[j].fragment@ == g);
            }
        }
        assert forall|j: int| 0 <= j < entries@.len() implies (#[trigger] entries@[j]).weight
            as nat == m2.count(entries@[j].fragment@) by {
            if j < entries@.len() - 1 {
                assert(entries@[j].fragment@ != fv);
            }
        }
    }
}

/// A window of a well-formed image is a well-formed `fw x fh` grid.
pub proof fn lemma_window_wf(img: Seq<Seq<Pixel>>, x: int, y: int, fw: int, fh: int)
    requires
        grid_wf(img),
        fw >= 1,
        fh >= 1,
        0 <= x,
        x + fw <= img.len(),
        0 <= y,
        y + fh <= img[0].len(),
    ensures
        grid_wf(window_grid(img, x, y, fw, fh)),
        window_grid(img, x, y, fw, fh).len() == fw,
        window_grid(img, x, y, fw, fh)[0].len() == fh,
{
    let w = window_grid(img, x, y, fw, fh);
    assert(w[0].len() == fh);
    assert(forall|i: int| 0 <= i < w.len() ==> (#[trigger] w[i]).len() == fh);
}

/// Every variant of a scanned window occurs in the row's variant sequence.
proof fn lemma_row_variant_count(
    img: Seq<Seq<Pixel>>,
    fw: int,
    fh: int,
    refl: bool,
    rot: bool,
    y: int,
    x: int,
    xx: int,
    k: int,
)
    requires
        0 <= xx < x,
        0 <= k < orientation_grids(window_grid(img, xx, y, fw, fh), refl, rot).len(),
    ensures
        row_variants(img, fw, fh, refl, rot, y, x).to_multiset().count(
            orientation_grids(window_grid(img, xx, y, fw, fh), refl, rot)[k],
        ) >= 1,
    decreases x,
{
    broadcast use vstd::seq_lib::group_to_multiset_ensures;
    broadcast use vstd::multiset::group_multiset_axioms;

    let g = orientation_grids(window_grid(img, xx, y, fw, fh), refl, rot)[k];
    let prev = row_variants(img, fw, fh, refl, rot, y, x - 1);
    let og = orientation_grids(window_grid(img, x - 1, y, fw, fh), refl, rot);
    vstd::seq_lib::lemma_multiset_commutative(prev, og);
    if xx == x - 1 {
        assert(og[k] == g);
        assert(og.contains(g));
        assert(og.to_multiset().count(g) > 0);
    } else {
        lemma_row_variant_count(img, fw, fh, refl, rot, y, x - 1, xx, k);
    }
}

/// Every variant of a scanned window occurs in the scanned rows' variant
/// sequence.
proof fn lemma_rows_variant_count(
    img: Seq<Seq<Pixel>>,
    fw: int,
    fh: int,
    refl: bool,
    rot: bool,
    y: int,
    yy: int,
    xx: int,
    k: int,
)
    requires
        0 <= yy < y,
        0 <= xx < grid_count_w(img, fw),
        0 <= k < orientation_grids(window_grid(img, xx, yy, fw, fh), refl, rot).len(),
    ensures
        rows_variants(img, fw, fh, refl, rot, y).to_multiset().count(
            orientation_grids(window_grid(img, xx, yy, fw, fh), refl, rot)[k],
        ) >= 1,
    decreases y,
{
    broadcast use vstd::seq_lib::group_to_multiset_ensures;
    broadcast use vstd::multiset::group_multiset_axioms;

    let prev = rows_variants(img, fw, fh, refl, rot, y - 1);
    let row = row_variants(img, fw, fh, refl, rot, y - 1, grid_count_w(img, fw));
    vstd::seq_lib::lemma_multiset_commutative(prev, row);
    if yy == y - 1 {
        lemma_row_variant_count(img, fw, fh, refl, rot, yy, grid_count_w(img, fw), xx, k);
    } else {
        lemma_rows_variant_count(img, fw, fh, refl, rot, y - 1, yy, xx, k);
    }
}

/// Every orientation variant of every valid window occurs at least once in
/// the full extraction sequence.
pub proof fn lemma_variant_in_all(
    img: Seq<Seq<Pixel>>,
    fw: int,
    fh: int,
    refl: bool,
    rot: bool,
    x: int,
    y: int,
    k: int,
)
    requires
        0 <= x < grid_count_w(img, fw),
        0 <= y < grid_count_h(img, fh),
        0 <= k < orientation_grids(window_grid(img, x, y, fw, fh), refl, rot).len(),
    ensures
        all_variants(img, fw, fh, refl, rot).to_multiset().count(
            orientation_grids(window_grid(img, x, y, fw, fh), refl, rot)[k],
        ) >= 1,
{
    lemma_rows_variant_count(img, fw, fh, refl, rot, grid_count_h(img, fh), y, x, k);
}

/// Two fragments extracted from pixel-identical regions — any positions,
/// any orientations — merge into one and the same catalog entry, whose
/// weight is that content's total occurrence count over all windows and
/// variants.
pub proof fn lemma_identical_variants_share_entry(
    entries: Seq<CatalogEntry>,
    img: Seq<Seq<Pixel>>,
    fw: int,
    fh: int,
    refl: bool,
    rot: bool,
    x1: int,
    y1: int,
    k1: int,
    x2: int,
    y2: int,
    k2: int,
)
    requires
        entries_wf(entries),
        entries_model(entries, all_variants(img, fw, fh, refl, rot).to_multiset()),
        0 <= x1 < grid_count_w(img, fw),
        0 <= y1 < grid_count_h(img, fh),
        0 <= k1 < orientation_grids(window_grid(img, x1, y1, fw, fh), refl, rot).len(),
        0 <= x2 < grid_count_w(img, fw),
        0 <= y2 < grid_count_h(img, fh),
        0 <= k2 < orientation_grids(window_grid(img, x2, y2, fw, fh), refl, rot).len(),
        orientation_grids(window_grid(img, x1, y1, fw, fh), refl, rot)[k1] == orientation_grids(
            window_grid(img, x2, y2, fw, fh),
            refl,
            rot,
        )[k2],
    ensures
        exists|i: int|
            0 <= i < entries.len() && (#[trigger] entries[i]).fragment@ == orientation_grids(
                window_grid(img, x1, y1, fw, fh),
                refl,
                rot,
            )[k1],
        forall|i: int, j: int|
            0 <= i < entries.len() && 0 <= j < entries.len() && (#[trigger] entries[i]).fragment@
                == orientation_grids(window_grid(img, x1, y1, fw, fh), refl, rot)[k1] && (
            #[trigger] entries[j]).fragment@ == orientation_grids(
                window_grid(img, x2, y2, fw, fh),
                refl,
                rot,
            )[k2] ==> i == j && entries[i].weight as nat == all_variants(
                img,
                fw,
                fh,
                refl,
                rot,
            ).to_multiset().count(entries[i].fragment@),
{
    let g = orientation_grids(window_grid(img, x1, y1, fw, fh), refl, rot)[k1];
    lemma_variant_in_all(img, fw, fh, refl, rot, x1, y1, k1);
    assert(all_variants(img, fw, fh, refl, rot).to_multiset().count(g) > 0);
    assert forall|i: int, j: int|
        0 <= i < entries.len() && 0 <= j < entries.len() && (#[trigger] entries[i]).fragment@ == g
            && (#[trigger] entries[j]).fragment@ == g implies i == j by {
        if i < j {
            assert(entries[i].fragment@ != entries[j].fragment@);
        } else if j < i {
            assert(entries[j].fragment@ != entries[i].fragment@);
        }
    }
}

impl Catalog {
    /// Scans every window position of the sample, generates the orientation
    /// variants the flags permit, and deduplicates them into weighted
    /// entries; finally flags the entries of the bottommost window row as
    /// ground.  The entries record exactly the multiset of all extracted
    /// variant grids.
    pub fn extract(
        image: &SampleImage,
        fragment_width: usize,
        fragment_height: usize,
        allow_reflection: bool,
        allow_rotation: bool,
    ) -> (r: Result<Catalog, GenError>)
        requires
            image.wf(),
            size_within_limits(image@),
        ensures
            r is Ok <==> 1 <= fragment_width <= image@.len() && 1 <= fragment_height
                <= image@[0].len(),
            r is Err ==> r == Err::<Catalog, GenError>(GenError::InvalidFragmentSize),
            r matches Ok(c) ==> {
                &&& c.wf()
                &&& entries_model(
                    c.entries@,
                    all_variants(
                        image@,
                        fragment_width as int,
                        fragment_height as int,
                        allow_reflection,
                        allow_rotation,
                    ).to_multiset(),
                )
                &&& forall|i: int|
                    0 <= i < c.entries@.len() ==> fragment_dims_ok(
                        (#[trigger] c.entries@[i]).fragment@,
                        fragment_width as int,
                        fragment_height as int,
                        allow_rotation,
                    )
                &&& forall|i: int|
                    0 <= i < c.entries@.len() ==> (#[trigger] c.entries@[i]).is_ground
                        == is_ground_grid(
                        image@,
                        fragment_width as int,
                        fragment_height as int,
                        c.entries@[i].fragment@,
                    )
                &&& c.entries@.len() >= 1
                &&& 4 * c.entries@.len() <= usize::MAX
            },
    {
        broadcast use SampleImage::lemma_wf_grid;
        let iw = image.width();
        let ih = image.height();
        if fragment_width == 0 || fragment_height == 0 || fragment_width > iw || fragment_height
            > ih {
            return Err(GenError::InvalidFragmentSize);
        }
        let fw = fragment_width;
        let fh = fragment_height;
        let nx = iw - fw + 1;
        let ny = ih - fh + 1;
        let ghost imgv = image@;
        let ghost fwi = fw as int;
        let ghost fhi = fh as int;
        let refl = allow_reflection;
        let rot = allow_rotation;

        proof {
            assert(grid_count_w(imgv, fwi) == nx as int);
            assert(grid_count_h(imgv, fhi) == ny as int);
            assert(32 * (iw as int) * (ih as int) <= usize::MAX);
            assert(8 * ((ny as int) * (nx as int)) < usize::MAX as int) by (nonlinear_arith)
                requires
                    1 <= nx as int <= iw as int,
                    1 <= ny as int <= ih as int,
                    32 * (iw as int) * (ih as int) <= usize::MAX as int,
            ;
            assert(usize::MAX <= u64::MAX);
            assert(8 * ((ny as int) * (nx as int)) < u64::MAX as int);
        }

        proof {
            broadcast use vstd::seq_lib::group_to_multiset_ensures;
            broadcast use vstd::multiset::group_multiset_axioms;

            let e = rows_variants(imgv, fwi, fhi, refl, rot, 0);
            assert(e.len() == 0);
            assert(e.to_multiset().len() == 0);
            assert(forall|g: Seq<Seq<Pixel>>| #[trigger] e.to_multiset().count(g) == 0);
        }
        let mut entries: Vec<CatalogEntry> = Vec::new();
        for y in 0..ny
            invariant
                image.wf(),
                size_within_limits(image@),
                imgv == image@,
                iw == imgv.len(),
                ih == imgv[0].len(),
                1 <= fw <= iw,
                1 <= fh <= ih,
                fwi == fw as int,
                fhi == fh as int,
                nx == iw - fw + 1,
                ny == ih - fh + 1,
                8 * ((ny as int) * (nx as int)) < u64::MAX,
                entries_wf(entries@),
                entries_model(
                    entries@,
                    rows_variants(imgv, fwi, fhi, refl, rot, y as int).to_multiset(),
                ),
                rows_variants(imgv, fwi, fhi, refl, rot, y as int).len() <= 8 * ((y as int) * (
                nx as int)),
                entries@.len() <= rows_variants(imgv, fwi, fhi, refl, rot, y as int).len(),
                forall|i: int|
                    0 <= i < entries@.len() ==> (#[trigger] entries@[i]).is_ground == false,
                forall|i: int|
                    0 <= i < entries@.len() ==> fragment_dims_ok(
                        (#[trigger] entries@[i]).fragment@,
                        fwi,
                        fhi,
                        rot,
                    ),
        {
            let ghost rows = rows_variants(imgv, fwi, fhi, refl, rot, y as int);
            proof {
                assert(rows + row_variants(imgv, fwi, fhi, refl, rot, y as int, 0) =~= rows);
            }
            for x in 0..nx
                invariant
                    image.wf(),
                    size_within_limits(image@),
                    imgv == image@,
                    iw == imgv.len(),
                    ih == imgv[0].len(),
                    1 <= fw <= iw,
                    1 <= fh <= ih,
                    fwi == fw as int,
                    fhi == fh as int,
                    nx == iw - fw + 1,
                    ny == ih - fh + 1,
                    y < ny,
                    8 * ((ny as int) * (nx as int)) < u64::MAX,
                    rows == rows_variants(imgv, fwi, fhi, refl, rot, y as int),
                    entries_wf(entries@),
                    entries_model(
                        entries@,
                        (rows + row_variants(
                            imgv,
                            fwi,
                            fhi,
                            refl,
                            rot,
                            y as int,
                            x as int,
                        )).to_multiset(),
                    ),
                    (rows + row_variants(imgv, fwi, fhi, refl, rot, y as int, x as int)).len() <= 8
                        * ((y as int) * (nx as int) + x as int),
                    entries@.len() <= (rows + row_variants(
                        imgv,
                        fwi,
                        fhi,
                        refl,
                        rot,
                        y as int,
                        x as int,
                    )).len(),
                    forall|i: int|
                        0 <= i < entries@.len() ==> (#[trigger] entries@[i]).is_ground == false,
                    forall|i: int|
                        0 <= i < entries@.len() ==> fragment_dims_ok(
                            (#[trigger] entries@[i]).fragment@,
                            fwi,
                            fhi,
                            rot,
                        ),
            {
                let ghost row = row_variants(imgv, fwi, fhi, refl, rot, y as int, x as int);
                let ghost pre = rows + row;
                let base = ImageFragment::new_from_image(image, x, y, fw, fh);
                let ghost og = orientation_grids(base@, refl, rot);
                proof {
                    lemma_orientations_wf(base@, refl, rot);
                }

                let mut oriented: Vec<ImageFragment> = Vec::new();
                if refl && rot {
                    let r1 = base.rotate();
                    let r2 = r1.rotate();
                    let r3 = r2.rotate();
                    let m0 = r3.flip();
                    let m1 = m0.rotate();
                    let m2 = m1.rotate();
                    let m3 = m2.rotate();
                    oriented.push(base);
                    oriented.push(r1);
                    oriented.push(r2);
                    oriented.push(r3);
                    oriented.push(m0);
                    oriented.push(m1);
                    oriented.push(m2);
                    oriented.push(m3);
                } else if refl {
                    let f0 = base.flip();
                    oriented.push(base);
                    oriented.push(f0);
                } else if rot {
                    let r1 = base.rotate();
                    let r2 = r1.rotate();
                    let r3 = r2.rotate();
                    oriented.push(base);
                    oriented.push(r1);
                    oriented.push(r2);
                    oriented.push(r3);
                } else {
                    oriented.push(base);
                }
                proof {
                    assert(oriented@.len() == og.len());
                    assert forall|k: int| 0 <= k < og.len() implies (#[trigger] oriented@[k])@
                        == og[k] && oriented@[k].wf() by {
                        if og.len() == 8 {
                            assert(oriented@[1]@ == rot_grid(og[0]));
                            assert(oriented@[2]@ == rot_grid(og[1]));
                            assert(oriented@[3]@ == rot_grid(og[2]));
                            assert(oriented@[4]@ == flip_grid(og[3]));
                            assert(oriented@[5]@ == rot_grid(og[4]));
                            assert(oriented@[6]@ == rot_grid(og[5]));
                            assert(oriented@[7]@ == rot_grid(og[6]));
                        } else if og.len() == 4 {
                            assert(oriented@[1]@ == rot_grid(og[0]));
                            assert(oriented@[2]@ == rot_grid(og[1]));
                            assert(oriented@[3]@ == rot_grid(og[2]));
                        } else if og.len() == 2 {
                            assert(oriented@[1]@ == flip_grid(og[0]));
                        }
                    }
                }

                let ghost mut kk: int = 0;
                proof {
                    assert(pre + og.take(0) =~= pre);
                }
                while oriented.len() > 0
                    invariant
                        0 <= kk <= og.len(),
                        oriented@.len() + kk == og.len(),
                        og.len() <= 8,
                        forall|j: int|
                            0 <= j < oriented@.len() ==> (#[trigger] oriented@[j])@ == og[kk + j]
                                && oriented@[j].wf(),
                        forall|k: int|
                            0 <= k < og.len() ==> fragment_dims_ok(#[trigger] og[k], fwi, fhi, rot),
                        entries_wf(entries@),
                        entries_model(entries@, (pre + og.take(kk)).to_multiset()),
                        entries@.len() <= pre.len() + kk,
                        pre.len() <= 8 * ((y as int) * (nx as int) + x as int),
                        x < nx,
                        y < ny,
                        8 * ((ny as int) * (nx as int)) < u64::MAX,
                        forall|i: int|
                            0 <= i < entries@.len() ==> (#[trigger] entries@[i]).is_ground == false,
                        forall|i: int|
                            0 <= i < entries@.len() ==> fragment_dims_ok(
                                (#[trigger] entries@[i]).fragment@,
                                fwi,
                                fhi,
                                rot,
                            ),
                    decreases oriented@.len(),
                {
                    let f = oriented.remove(0);
                    proof {
                        broadcast use vstd::seq_lib::group_to_multiset_ensures;

                        assert((pre + og.take(kk)).len() == pre.len() + kk);
                        assert((y as int) * (nx as int) + (x as int) + 1 <= (ny as int) * (
                        nx as int)) by (nonlinear_arith)
                            requires
                                0 <= y as int <= ny as int - 1,
                                0 <= x as int <= nx as int - 1,
                                nx as int >= 1,
                        ;
                        assert(pre.len() + kk <= 8 * ((y as int) * (nx as int) + x as int + 1));
                        assert(8 * ((y as int) * (nx as int) + x as int + 1) <= 8 * ((ny as int) * (
                        nx as int)));
                        assert((pre + og.take(kk)).to_multiset().len() < u64::MAX);
                    }
                    insert_variant(&mut entries, f, Ghost((pre + og.take(kk)).to_multiset()));
                    proof {
                        lemma_take_step(pre, og, kk);
                        kk = kk + 1;
                    }
                }
                proof {
                    assert(og.take(kk) =~= og);
                    let row2 = row_variants(imgv, fwi, fhi, refl, rot, y as int, x as int + 1);
                    assert(row2 == row + orientation_grids(
                        window_grid(imgv, x as int, y as int, fwi, fhi),
                        refl,
                        rot,
                    ));
                    assert(pre + og =~= rows + row2);
                    assert((pre + og.take(kk)).to_multiset() == (rows + row2).to_multiset());
                }
            }
            proof {
                let rowfull = row_variants(imgv, fwi, fhi, refl, rot, y as int, nx as int);
                assert(rows_variants(imgv, fwi, fhi, refl, rot, y as int + 1) == rows + rowfull);
                assert(8 * ((y as int) * (nx as int) + nx as int) == 8 * ((y as int + 1) * (
                nx as int))) by (nonlinear_arith);
            }
        }

        // Flag the ground entries: the unoriented windows of the bottommost
        // valid window row.
        let ghost allv = all_variants(imgv, fwi, fhi, refl, rot);
        for x in 0..nx
            invariant
                image.wf(),
                imgv == image@,
                iw == imgv.len(),
                ih == imgv[0].len(),
                1 <= fw <= iw,
                1 <= fh <= ih,
                fwi == fw as int,
                fhi == fh as int,
                nx == iw - fw + 1,
                ny == ih - fh + 1,
                8 * ((ny as int) * (nx as int)) < u64::MAX,
                entries_wf(entries@),
                entries_model(entries@, allv.to_multiset()),
                entries@.len() <= allv.len(),
                allv == all_variants(imgv, fwi, fhi, refl, rot),
                allv.len() <= 8 * ((ny as int) * (nx as int)),
                forall|i: int|
                    0 <= i < entries@.len() ==> fragment_dims_ok(
                        (#[trigger] entries@[i]).fragment@,
                        fwi,
                        fhi,
                        rot,
                    ),
                forall|i: int|
                    0 <= i < entries@.len() ==> (#[trigger] entries@[i]).is_ground == (exists|
                        x2: int,
                    |
                        0 <= x2 < x as int && #[trigger] window_grid(imgv, x2, ih - fhi, fwi, fhi)
                            == entries@[i].fragment@),
        {
            let base = ImageFragment::new_from_image(image, x, ny - 1, fw, fh);
            let n = entries.len();
            let ghost pre_entries = entries@;
            for j in 0..n
                invariant
                    n == entries@.len(),
                    base.wf(),
                    base@ == window_grid(imgv, x as int, ih - fhi, fwi, fhi),
                    entries@.len() == pre_entries.len(),
                    forall|i: int|
                        0 <= i < entries@.len() ==> (#[trigger] entries@[i]).fragment
                            == pre_entries[i].fragment && entries@[i].weight
                            == pre_entries[i].weight,
                    forall|i: int|
                        0 <= i < entries@.len() ==> (#[trigger] entries@[i]).is_ground == (
                        pre_entries[i].is_ground || (i < j && pre_entries[i].fragment@ == base@)),
                    entries_wf(pre_entries),
            {
                proof {
                    assert(entries@[j as int].fragment == pre_entries[j as int].fragment);
                }
                let hit = entries[j].fragment.equals(&base);
                if hit {
                    entries[j].is_ground = true;
                }
            }
            proof {
                // Neither the fragments nor the weights changed, so
                // well-formedness and the weight model carry over.
                assert forall|g: Seq<Seq<Pixel>>| #[trigger] allv.to_multiset().count(g)
                    > 0 implies exists|i: int|
                    0 <= i < entries@.len() && (#[trigger] entries@[i]).fragment@ == g by {
                    let i = choose|i: int|
                        0 <= i < pre_entries.len() && (#[trigger] pre_entries[i]).fragment@ == g;
                    assert(entries@[i].fragment@ == g);
                }
                assert(forall|i: int|
                    0 <= i < entries@.len() ==> (#[trigger] entries@[i]).weight as nat
                        == allv.to_multiset().count(entries@[i].fragment@));
                assert(forall|i: int, j: int|
                    0 <= i < j < entries@.len() ==> (#[trigger] entries@[i]).fragment@ != (
                    #[trigger] entries@[j]).fragment@);
                // The ground flags now cover this column as well.
                assert forall|i: int| 0 <= i < entries@.len() implies (
                #[trigger] entries@[i]).is_ground == (exists|x2: int|
                    0 <= x2 < x as int + 1 && #[trigger] window_grid(imgv, x2, ih - fhi, fwi, fhi)
                        == entries@[i].fragment@) by {
                    if entries@[i].is_ground {
                        if pre_entries[i].is_ground {
                            let x2 = choose|x2: int|
                                0 <= x2 < x as int && #[trigger] window_grid(
                                    imgv,
                                    x2,
                                    ih - fhi,
                                    fwi,
                                    fhi,
                                ) == pre_entries[i].fragment@;
                            assert(window_grid(imgv, x2, ih - fhi, fwi, fhi)
                                == entries@[i].fragment@);
                        } else {
                            assert(entries@[i].fragment@ == base@);
                            assert(window_grid(imgv, x as int, ih - fhi, fwi, fhi)
                                == entries@[i].fragment@);
                        }
                    } else {
                        assert(!pre_entries[i].is_ground);
                        assert(pre_entries[i].fragment@ != base@);
                        if exists|x2: int|
                            0 <= x2 < x as int + 1 && #[trigger] window_grid(
                                imgv,
                                x2,
                                ih - fhi,
                                fwi,
                                fhi,
                            ) == entries@[i].fragment@ {
                            let x2 = choose|x2: int|
                                0 <= x2 < x as int + 1 && #[trigger] window_grid(
                                    imgv,
                                    x2,
                                    ih - fhi,
                                    fwi,
                                    fhi,
                                ) == entries@[i].fragment@;
                            if x2 < x as int {
                                assert(pre_entries[i].is_ground);
                            } else {
                                assert(entries@[i].fragment@ == base@);
                            }
                            assert(false);
                        }
                    }
                }
            }
        }

        proof {
            assert(grid_wf(window_grid(imgv, 0, 0, fwi, fhi))) by {
                lemma_window_wf(imgv, 0, 0, fwi, fhi);
            }
            lemma_orientations_wf(window_grid(imgv, 0, 0, fwi, fhi), refl, rot);
            lemma_variant_in_all(imgv, fwi, fhi, refl, rot, 0, 0, 0);
            assert(allv.to_multiset().count(
                orientation_grids(window_grid(imgv, 0, 0, fwi, fhi), refl, rot)[0],
            ) > 0);
            assert(entries@.len() >= 1);
            assert(4 * entries@.len() <= 4 * allv.len());
            assert(4 * allv.len() <= 32 * ((ny as int) * (nx as int)));
            assert(32 * ((ny as int) * (nx as int)) <= 32 * (iw as int) * (ih as int))
                by (nonlinear_arith)
                requires
                    1 <= nx as int <= iw as int,
                    1 <= ny as int <= ih as int,
            ;
            assert(32 * (iw as int) * (ih as int) <= usize::MAX);
        }
        Ok(Catalog { entries })
    }
}

} // verus!
