//! Directional adjacency constraints: for every catalog fragment and every
//! orthogonal offset, the set of fragments that pass the exact
//! pixel-overlap test at that offset.

use vstd::prelude::*;

use crate::GenError;
use crate::catalog::{Catalog, CatalogEntry, entries_wf, uniform_dims};
use crate::fragment::{grids_overlap, lemma_overlap_symmetric};

verus! {

/// The width component of orthogonal offset number `k`; the four offsets
/// are scanned as `(-1,0), (0,-1), (0,1), (1,0)`.
pub open spec fn offset_dx(k: int) -> int {
    if k == 0 {
        -1
    } else if k == 3 {
        1
    } else {
        0
    }
}

/// The height component of orthogonal offset number `k`.
pub open spec fn offset_dy(k: int) -> int {
    if k == 1 {
        -1
    } else if k == 2 {
        1
    } else {
        0
    }
}

/// The four orthogonal unit offsets; the center and the diagonals are
/// never used.
pub open spec fn orthogonal_offset(dx: int, dy: int) -> bool {
    ||| (dx == 0 && dy == -1)
    ||| (dx == 0 && dy == 1)
    ||| (dx == -1 && dy == 0)
    ||| (dx == 1 && dy == 0)
}

/// The identified record `(source fragment, offset) -> compatible
/// fragments`, referencing catalog entries by index.
#[derive(Debug)]
pub struct ConstraintSet {
    pub id: usize,
    pub source: usize,
    pub width_offset: i8,
    pub height_offset: i8,
    pub permitted: Vec<usize>,
}

/// The constraint set for source entry `r` and offset `k`: its id encodes
/// its position, its offset is orthogonal offset `k`, and it permits
/// exactly the entries whose fragments pass the overlap test, in
/// ascending index order.
pub open spec fn constraint_set_ok(
    s: ConstraintSet,
    catalog: Seq<CatalogEntry>,
    r: int,
    k: int,
) -> bool {
    &&& s.id == 4 * r + k
    &&& s.source == r
    &&& s.width_offset as int == offset_dx(k)
    &&& s.height_offset as int == offset_dy(k)
    &&& forall|j: int|
        0 <= j < s.permitted@.len() ==> (#[trigger] s.permitted@[j]) < catalog.len()
            && grids_overlap(
            catalog[r].fragment@,
            catalog[s.permitted@[j] as int].fragment@,
            offset_dx(k),
            offset_dy(k),
        )
    &&& forall|o: int|
        0 <= o < catalog.len() && #[trigger] grids_overlap(
            catalog[r].fragment@,
            catalog[o].fragment@,
            offset_dx(k),
            offset_dy(k),
        ) ==> s.permitted@.contains(o as usize)
    &&& forall|j1: int, j2: int|
        0 <= j1 < j2 < s.permitted@.len() ==> (#[trigger] s.permitted@[j1]) < (
        #[trigger] s.permitted@[j2])
}

/// One constraint set per catalog entry and orthogonal offset, laid out at
/// index `4 * entry + offset`.
pub open spec fn constraint_sets_ok(sets: Seq<ConstraintSet>, catalog: Seq<CatalogEntry>) -> bool {
    &&& sets.len() == 4 * catalog.len()
    &&& forall|r: int, k: int|
        0 <= r < catalog.len() && 0 <= k < 4 ==> constraint_set_ok(
            #[trigger] sets[4 * r + k],
            catalog,
            r,
            k,
        )
}

/// No constraint set ever references the center offset or a diagonal one:
/// every offset that occurs is one of the four orthogonal unit offsets.
pub proof fn lemma_offsets_orthogonal(sets: Seq<ConstraintSet>, catalog: Seq<CatalogEntry>)
    requires
        constraint_sets_ok(sets, catalog),
    ensures
        forall|i: int|
            0 <= i < sets.len() ==> orthogonal_offset(
                (#[trigger] sets[i]).width_offset as int,
                sets[i].height_offset as int,
            ),
{
    assert forall|i: int| 0 <= i < sets.len() implies orthogonal_offset(
        (#[trigger] sets[i]).width_offset as int,
        sets[i].height_offset as int,
    ) by {
        vstd::arithmetic::div_mod::lemma_fundamental_div_mod(i, 4);
        let r = i / 4;
        let k = i % 4;
        assert(0 <= k < 4) by {
            vstd::arithmetic::div_mod::lemma_mod_bound(i, 4);
        }
        assert(0 <= r < catalog.len()) by {
            assert(i == 4 * r + k);
        }
        assert(constraint_set_ok(sets[4 * r + k], catalog, r, k));
    }
}

/// The number of the opposite orthogonal offset: left pairs with right,
/// up with down.
pub open spec fn mirror_offset(k: int) -> int {
    if k == 0 {
        3
    } else if k == 3 {
        0
    } else if k == 1 {
        2
    } else {
        1
    }
}

/// Compatibility is mutual: entry `o` is permitted at offset `k` of entry
/// `r` exactly when `r` is permitted at the opposite offset of `o`.  This
/// is the overlap test's symmetry carried into the built constraint sets.
pub proof fn lemma_constraints_mutual(
    sets: Seq<ConstraintSet>,
    catalog: Seq<CatalogEntry>,
    r: int,
    o: int,
    k: int,
)
    requires
        entries_wf(catalog),
        uniform_dims(catalog),
        constraint_sets_ok(sets, catalog),
        0 <= r < catalog.len(),
        0 <= o < catalog.len(),
        0 <= k < 4,
    ensures
        sets[4 * r + k].permitted@.contains(o as usize) <==> sets[4 * o + mirror_offset(
            k,
        )].permitted@.contains(r as usize),
{
    let mk = mirror_offset(k);
    let fr = catalog[r].fragment;
    let fo = catalog[o].fragment;
    fr.lemma_wf_grid();
    fo.lemma_wf_grid();
    assert(constraint_set_ok(sets[4 * r + k], catalog, r, k));
    assert(constraint_set_ok(sets[4 * o + mk], catalog, o, mk));
    assert(offset_dx(mk) == -offset_dx(k) && offset_dy(mk) == -offset_dy(k));
    lemma_overlap_symmetric(fr@, fo@, offset_dx(k), offset_dy(k));
    if sets[4 * r + k].permitted@.contains(o as usize) {
        let j = choose|j: int|
            0 <= j < sets[4 * r + k].permitted@.len() && #[trigger] sets[4 * r
                + k].permitted@[j] == o as usize;
        assert(grids_overlap(fr@, fo@, offset_dx(k), offset_dy(k)));
        assert(grids_overlap(fo@, fr@, offset_dx(mk), offset_dy(mk)));
        assert(sets[4 * o + mk].permitted@.contains(r as usize));
    }
    if sets[4 * o + mk].permitted@.contains(r as usize) {
        let j = choose|j: int|
            0 <= j < sets[4 * o + mk].permitted@.len() && #[trigger] sets[4 * o
                + mk].permitted@[j] == r as usize;
        assert(grids_overlap(fo@, fr@, offset_dx(mk), offset_dy(mk)));
        assert(grids_overlap(fr@, fo@, offset_dx(k), offset_dy(k)));
        assert(sets[4 * r + k].permitted@.contains(o as usize));
    }
}

/// Builds the full constraint-set list: for every ordered pair of catalog
/// entries and every orthogonal offset, tests exact pixel overlap.  Fails
/// when the catalog mixes fragment dimensions, since the overlap test is
/// only defined between fragments of equal size.
pub fn build_constraint_sets(catalog: &Catalog) -> (r: Result<Vec<ConstraintSet>, GenError>)
    requires
        catalog.wf(),
        4 * catalog.entries@.len() <= usize::MAX,
    ensures
        r is Ok <==> uniform_dims(catalog.entries@),
        r is Err ==> r == Err::<Vec<ConstraintSet>, GenError>(GenError::MixedFragmentSizes),
        r matches Ok(sets) ==> constraint_sets_ok(sets@, catalog.entries@),
{
    let n = catalog.entries.len();
    if n == 0 {
        let sets: Vec<ConstraintSet> = Vec::new();
        return Ok(sets);
    }
    let w0 = catalog.entries[0].fragment.width();
    let h0 = catalog.entries[0].fragment.height();
    for i in 1..n
        invariant
            catalog.wf(),
            n == catalog.entries@.len(),
            w0 == catalog.entries@[0].fragment@.len(),
            h0 == catalog.entries@[0].fragment@[0].len(),
            forall|j: int|
                0 <= j < i ==> (#[trigger] catalog.entries@[j]).fragment@.len() == w0
                    && catalog.entries@[j].fragment@[0].len() == h0,
    {
        if catalog.entries[i].fragment.width() != w0 || catalog.entries[i].fragment.height()
            != h0 {
            assert(!uniform_dims(catalog.entries@)) by {
                assert(catalog.entries@[0].fragment@.len() == w0
                    && catalog.entries@[0].fragment@[0].len() == h0);
            }
            return Err(GenError::MixedFragmentSizes);
        }
    }
    assert(uniform_dims(catalog.entries@));

    let mut sets: Vec<ConstraintSet> = Vec::new();
    for r in 0..n
        invariant
            catalog.wf(),
            n == catalog.entries@.len(),
            4 * n <= usize::MAX,
            uniform_dims(catalog.entries@),
            w0 == catalog.entries@[0].fragment@.len(),
            h0 == catalog.entries@[0].fragment@[0].len(),
            sets@.len() == 4 * r,
            forall|r2: int, k2: int|
                0 <= r2 < r && 0 <= k2 < 4 ==> constraint_set_ok(
                    #[trigger] sets@[4 * r2 + k2],
                    catalog.entries@,
                    r2,
                    k2,
                ),
    {
        for k in 0..4usize
            invariant
                catalog.wf(),
                n == catalog.entries@.len(),
                4 * n <= usize::MAX,
                uniform_dims(catalog.entries@),
                w0 == catalog.entries@[0].fragment@.len(),
                h0 == catalog.entries@[0].fragment@[0].len(),
                r < n,
                sets@.len() == 4 * r + k,
                forall|r2: int, k2: int|
                    0 <= r2 < n && 0 <= k2 < 4 && 4 * r2 + k2 < 4 * (r as int) + k as int
                        ==> constraint_set_ok(
                        #[trigger] sets@[4 * r2 + k2],
                        catalog.entries@,
                        r2,
                        k2,
                    ),
        {
            let (dxv, dyv): (i8, i8) = if k == 0 {
                (-1, 0)
            } else if k == 1 {
                (0, -1)
            } else if k == 2 {
                (0, 1)
            } else {
                (1, 0)
            };
            assert(dxv as int == offset_dx(k as int) && dyv as int == offset_dy(k as int));
            let mut permitted: Vec<usize> = Vec::new();
            for o in 0..n
                invariant
                    catalog.wf(),
                    n == catalog.entries@.len(),
                    uniform_dims(catalog.entries@),
                    w0 == catalog.entries@[0].fragment@.len(),
                    h0 == catalog.entries@[0].fragment@[0].len(),
                    r < n,
                    k < 4,
                    dxv as int == offset_dx(k as int),
                    dyv as int == offset_dy(k as int),
                    forall|j: int|
                        0 <= j < permitted@.len() ==> (#[trigger] permitted@[j]) < o
                            && grids_overlap(
                            catalog.entries@[r as int].fragment@,
                            catalog.entries@[permitted@[j] as int].fragment@,
                            offset_dx(k as int),
                            offset_dy(k as int),
                        ),
                    forall|o2: int|
                        0 <= o2 < o && #[trigger] grids_overlap(
                            catalog.entries@[r as int].fragment@,
                            catalog.entries@[o2].fragment@,
                            offset_dx(k as int),
                            offset_dy(k as int),
                        ) ==> permitted@.contains(o2 as usize),
                    forall|j1: int, j2: int|
                        0 <= j1 < j2 < permitted@.len() ==> (#[trigger] permitted@[j1]) < (
                        #[trigger] permitted@[j2]),
            {
                let hit = catalog.entries[r].fragment.is_overlapping(
                    &catalog.entries[o].fragment,
                    dxv,
                    dyv,
                );
                if hit {
                    let ghost oldp = permitted@;
                    permitted.push(o);
                    proof {
                        assert forall|o2: int|
                            0 <= o2 < o + 1 && #[trigger] grids_overlap(
                                catalog.entries@[r as int].fragment@,
                                catalog.entries@[o2].fragment@,
                                offset_dx(k as int),
                                offset_dy(k as int),
                            ) implies permitted@.contains(o2 as usize) by {
                            if o2 < o {
                                let j = choose|j: int|
                                    0 <= j < oldp.len() && oldp[j] == o2 as usize;
                                assert(permitted@[j] == o2 as usize);
                            } else {
                                assert(permitted@[permitted@.len() - 1] == o2 as usize);
                            }
                        }
                    }
                } else {
                    proof {
                        assert forall|o2: int|
                            0 <= o2 < o + 1 && #[trigger] grids_overlap(
                                catalog.entries@[r as int].fragment@,
                                catalog.entries@[o2].fragment@,
                                offset_dx(k as int),
                                offset_dy(k as int),
                            ) implies permitted@.contains(o2 as usize) by {
                            assert(o2 != o);
                        }
                    }
                }
            }
            let cs = ConstraintSet {
                id: 4 * r + k,
                source: r,
                width_offset: dxv,
                height_offset: dyv,
                permitted,
            };
            let ghost olds = sets@;
            sets.push(cs);
            proof {
                assert(constraint_set_ok(
                    sets@[4 * (r as int) + k as int],
                    catalog.entries@,
                    r as int,
                    k as int,
                ));
                assert forall|r2: int, k2: int|
                    0 <= r2 < n && 0 <= k2 < 4 && 4 * r2 + k2 < 4 * (r as int) + k as int
                        + 1 implies constraint_set_ok(
                    #[trigger] sets@[4 * r2 + k2],
                    catalog.entries@,
                    r2,
                    k2,
                ) by {
                    if 4 * r2 + k2 < 4 * (r as int) + k as int {
                        assert(sets@[4 * r2 + k2] == olds[4 * r2 + k2]);
                    }
                }
            }
        }
    }
    Ok(sets)
}

} // verus!
