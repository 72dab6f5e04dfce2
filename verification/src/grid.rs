//! The solvable node grid: one node per output position where a fragment
//! window fits, wired to its orthogonal neighbors (wrapping when periodic)
//! and carrying its weighted candidate entries (ground-partitioned when
//! requested).

use vstd::prelude::*;

use crate::GenError;
use crate::catalog::{Catalog, CatalogEntry};
use crate::constraints::{offset_dx, offset_dy};

verus! {

/// One weighted candidate: a catalog entry index and that entry's weight.
#[derive(Debug)]
pub struct CandidateState {
    pub state: usize,
    pub weight: u64,
}

/// A live neighbor of a node: the offset, the neighbor's grid coordinates,
/// and the ids of the constraint sets that govern this offset, one per
/// catalog entry.
#[derive(Debug)]
pub struct NeighborRef {
    pub width_offset: i8,
    pub height_offset: i8,
    pub x: usize,
    pub y: usize,
    pub constraint_ids: Vec<usize>,
}

/// A solvable grid position: its coordinates, its weighted candidate
/// states, and one optional neighbor per orthogonal offset.
#[derive(Debug)]
pub struct Node {
    pub x: usize,
    pub y: usize,
    pub candidates: Vec<CandidateState>,
    pub neighbors: Vec<Option<NeighborRef>>,
}

/// The coordinate a unit step reaches: in range it is kept; out of range
/// it wraps once when `periodic`, and is absent otherwise (open boundary).
pub open spec fn neighbor_coord(i: int, delta: int, size: int, periodic: bool) -> Option<int> {
    let j = i + delta;
    if 0 <= j < size {
        Some(j)
    } else if periodic {
        if j < 0 {
            Some(j + size)
        } else {
            Some(j - size)
        }
    } else {
        None
    }
}

/// Whether a catalog entry is a candidate for a node: without ground
/// partitioning every entry is; with it, the last grid row draws exactly
/// from the ground entries and every other row from the rest.
pub open spec fn candidate_selected(e: CatalogEntry, last_row: bool, contains_ground: bool) -> bool {
    if !contains_ground {
        true
    } else if last_row {
        e.is_ground
    } else {
        !e.is_ground
    }
}

/// The candidate list holds exactly the selected entries, each with its
/// catalog weight, in ascending index order.
pub open spec fn node_candidates_ok(
    cands: Seq<CandidateState>,
    catalog: Seq<CatalogEntry>,
    last_row: bool,
    contains_ground: bool,
) -> bool {
    &&& forall|j: int|
        0 <= j < cands.len() ==> (#[trigger] cands[j]).state < catalog.len()
            && cands[j].weight == catalog[cands[j].state as int].weight && candidate_selected(
            catalog[cands[j].state as int],
            last_row,
            contains_ground,
        )
    &&& forall|i: int|
        0 <= i < catalog.len() && candidate_selected(
            #[trigger] catalog[i],
            last_row,
            contains_ground,
        ) ==> exists|j: int| 0 <= j < cands.len() && (#[trigger] cands[j]).state == i
    &&& forall|j1: int, j2: int|
        0 <= j1 < j2 < cands.len() ==> (#[trigger] cands[j1]).state < (#[trigger] cands[j2]).state
}

/// A live neighbor record for offset `k` of the node at `(x, y)`.
pub open spec fn neighbor_ok(
    nb: NeighborRef,
    x: int,
    y: int,
    gw: int,
    gh: int,
    periodic: bool,
    k: int,
    n: int,
) -> bool {
    &&& nb.width_offset as int == offset_dx(k)
    &&& nb.height_offset as int == offset_dy(k)
    &&& neighbor_coord(x, offset_dx(k), gw, periodic) == Some(nb.x as int)
    &&& neighbor_coord(y, offset_dy(k), gh, periodic) == Some(nb.y as int)
    &&& nb.constraint_ids@.len() == n
    &&& forall|r: int| 0 <= r < n ==> (#[trigger] nb.constraint_ids@[r]) as int == 4 * r + k
}

/// The node at grid position `(x, y)`: a neighbor record exactly for each
/// offset whose neighbor coordinate is live on both axes, and the
/// ground-partitioned candidate list.
pub open spec fn node_ok(
    node: Node,
    x: int,
    y: int,
    gw: int,
    gh: int,
    periodic: bool,
    contains_ground: bool,
    catalog: Seq<CatalogEntry>,
) -> bool {
    &&& node.x as int == x
    &&& node.y as int == y
    &&& node.neighbors@.len() == 4
    &&& forall|k: int|
        0 <= k < 4 ==> match #[trigger] node.neighbors@[k] {
            Some(nb) => neighbor_coord(x, offset_dx(k), gw, periodic) is Some && neighbor_coord(
                y,
                offset_dy(k),
                gh,
                periodic,
            ) is Some && neighbor_ok(nb, x, y, gw, gh, periodic, k, catalog.len() as int),
            None => !(neighbor_coord(x, offset_dx(k), gw, periodic) is Some && neighbor_coord(
                y,
                offset_dy(k),
                gh,
                periodic,
            ) is Some),
        }
    &&& node_candidates_ok(node.candidates@, catalog, y == gh - 1, contains_ground)
}

/// The full grid: one node per coordinate of `[0, gw) x [0, gh)`, stored
/// column-major at index `x * gh + y`.
pub open spec fn nodes_ok(
    nodes: Seq<Node>,
    gw: int,
    gh: int,
    periodic: bool,
    contains_ground: bool,
    catalog: Seq<CatalogEntry>,
) -> bool {
    &&& nodes.len() == gw * gh
    &&& forall|x: int, y: int|
        0 <= x < gw && 0 <= y < gh ==> node_ok(
            #[trigger] nodes[x * gh + y],
            x,
            y,
            gw,
            gh,
            periodic,
            contains_ground,
            catalog,
        )
}

/// In periodic mode a node in grid-edge column 0 has a live neighbor in
/// column `gw - 1` for offset `(-1, 0)`; without periodicity that
/// neighbor is omitted entirely.
pub proof fn lemma_edge_column_neighbor(
    nodes: Seq<Node>,
    gw: int,
    gh: int,
    periodic: bool,
    contains_ground: bool,
    catalog: Seq<CatalogEntry>,
    y: int,
)
    requires
        nodes_ok(nodes, gw, gh, periodic, contains_ground, catalog),
        gw >= 1,
        gh >= 1,
        0 <= y < gh,
    ensures
        periodic ==> (nodes[y].neighbors@[0] matches Some(nb) && nb.x as int == gw - 1
            && nb.y as int == y),
        !periodic ==> nodes[y].neighbors@[0] is None,
{
    assert(node_ok(nodes[0 * gh + y], 0, y, gw, gh, periodic, contains_ground, catalog));
    assert(0 * gh + y == y);
    assert(offset_dx(0) == -1 && offset_dy(0) == 0);
    assert(neighbor_coord(0, -1, gw, periodic) == if periodic {
        Some(gw - 1)
    } else {
        None::<int>
    });
}

/// With ground partitioning enabled, every candidate of a last-row node is
/// a ground entry, and every candidate of any other node is not.
pub proof fn lemma_ground_partition(
    nodes: Seq<Node>,
    gw: int,
    gh: int,
    periodic: bool,
    catalog: Seq<CatalogEntry>,
    x: int,
    y: int,
    j: int,
)
    requires
        nodes_ok(nodes, gw, gh, periodic, true, catalog),
        0 <= x < gw,
        0 <= y < gh,
        0 <= j < nodes[x * gh + y].candidates@.len(),
    ensures
        y == gh - 1 ==> catalog[nodes[x * gh + y].candidates@[j].state as int].is_ground,
        y < gh - 1 ==> !catalog[nodes[x * gh + y].candidates@[j].state as int].is_ground,
{
    assert(node_ok(nodes[x * gh + y], x, y, gw, gh, periodic, true, catalog));
}

/// Computes the neighbor index for one axis.
fn neighbor_index(i: usize, delta: i8, size: usize, periodic: bool) -> (r: Option<usize>)
    requires
        size >= 1,
        i < size,
        -1 <= delta as int <= 1,
    ensures
        match r {
            Some(v) => neighbor_coord(i as int, delta as int, size as int, periodic) == Some(
                v as int,
            ) && v < size,
            None => neighbor_coord(i as int, delta as int, size as int, periodic) is None,
        },
{
    if delta == 0 {
        Some(i)
    } else if delta > 0 {
        if i + 1 < size {
            Some(i + 1)
        } else if periodic {
            Some((i + 1) - size)
        } else {
            None
        }
    } else {
        if i > 0 {
            Some(i - 1)
        } else if periodic {
            Some(size - 1)
        } else {
            None
        }
    }
}

/// Builds every node of the `gw x gh` grid, where `gw` and `gh` are the
/// output dimensions less the fragment dimensions plus one, wiring
/// orthogonal neighbors (wrapping when periodic) and assigning each node
/// its ground-partitioned weighted candidate states.
pub fn build_nodes(
    catalog: &Catalog,
    output_width: usize,
    output_height: usize,
    fragment_width: usize,
    fragment_height: usize,
    periodic: bool,
    contains_ground: bool,
) -> (r: Result<Vec<Node>, GenError>)
    requires
        catalog.wf(),
        4 * catalog.entries@.len() <= usize::MAX,
    ensures
        r is Ok <==> 1 <= fragment_width <= output_width && 1 <= fragment_height <= output_height,
        r is Err ==> r == Err::<Vec<Node>, GenError>(GenError::InvalidOutputSize),
        r matches Ok(nodes) ==> nodes_ok(
            nodes@,
            output_width - fragment_width + 1,
            output_height - fragment_height + 1,
            periodic,
            contains_ground,
            catalog.entries@,
        ),
{
    if fragment_width == 0 || fragment_height == 0 || fragment_width > output_width
        || fragment_height > output_height {
        return Err(GenError::InvalidOutputSize);
    }
    let gw = output_width - fragment_width + 1;
    let gh = output_height - fragment_height + 1;
    let n = catalog.entries.len();
    let mut nodes: Vec<Node> = Vec::new();
    assert(0 * (gh as int) == 0);
    for x in 0..gw
        invariant
            catalog.wf(),
            n == catalog.entries@.len(),
            4 * n <= usize::MAX,
            gw >= 1,
            gh >= 1,
            gw == output_width - fragment_width + 1,
            gh == output_height - fragment_height + 1,
            nodes@.len() == (x as int) * (gh as int),
            forall|x2: int, y2: int|
                0 <= x2 < x && 0 <= y2 < gh ==> node_ok(
                    #[trigger] nodes@[x2 * (gh as int) + y2],
                    x2,
                    y2,
                    gw as int,
                    gh as int,
                    periodic,
                    contains_ground,
                    catalog.entries@,
                ),
    {
        for y in 0..gh
            invariant
                catalog.wf(),
                n == catalog.entries@.len(),
                4 * n <= usize::MAX,
                gw >= 1,
                gh >= 1,
                x < gw,
                nodes@.len() == (x as int) * (gh as int) + y as int,
                forall|x2: int, y2: int|
                    0 <= x2 < x && 0 <= y2 < gh ==> node_ok(
                        #[trigger] nodes@[x2 * (gh as int) + y2],
                        x2,
                        y2,
                        gw as int,
                        gh as int,
                        periodic,
                        contains_ground,
                        catalog.entries@,
                    ),
                forall|y2: int|
                    0 <= y2 < y ==> node_ok(
                        #[trigger] nodes@[(x as int) * (gh as int) + y2],
                        x as int,
                        y2,
                        gw as int,
                        gh as int,
                        periodic,
                        contains_ground,
                        catalog.entries@,
                    ),
        {
            // Wire the four orthogonal neighbors in scan order.
            let mut neighbors: Vec<Option<NeighborRef>> = Vec::new();
            for k in 0..4usize
                invariant
                    n == catalog.entries@.len(),
                    4 * n <= usize::MAX,
                    gw >= 1,
                    gh >= 1,
                    x < gw,
                    y < gh,
                    neighbors@.len() == k,
                    forall|k2: int|
                        0 <= k2 < k ==> match #[trigger] neighbors@[k2] {
                            Some(nb) => neighbor_coord(
                                x as int,
                                offset_dx(k2),
                                gw as int,
                                periodic,
                            ) is Some && neighbor_coord(
                                y as int,
                                offset_dy(k2),
                                gh as int,
                                periodic,
                            ) is Some && neighbor_ok(
                                nb,
                                x as int,
                                y as int,
                                gw as int,
                                gh as int,
                                periodic,
                                k2,
                                n as int,
                            ),
                            None => !(neighbor_coord(
                                x as int,
                                offset_dx(k2),
                                gw as int,
                                periodic,
                            ) is Some && neighbor_coord(
                                y as int,
                                offset_dy(k2),
                                gh as int,
                                periodic,
                            ) is Some),
                        },
            {
                let (dxv, dyv): (i8, i8) = if k == 0 {
                    (-1, 0)
                } else if k == 1 {
                    (0, -1)
                } else if k == 2 {
                    (0, 1)
                } else {
                    (1, 0)
                };
                assert(dxv as int == offset_dx(k as int) && dyv as int == offset_dy(k as int));
                let nxo = neighbor_index(x, dxv, gw, periodic);
                let nyo = neighbor_index(y, dyv, gh, periodic);
                match (nxo, nyo) {
                    (Some(nbx), Some(nby)) => {
                        let mut constraint_ids: Vec<usize> = Vec::new();
                        for rr in 0..n
                            invariant
                                n == catalog.entries@.len(),
                                4 * n <= usize::MAX,
                                k < 4,
                                constraint_ids@.len() == rr,
                                forall|r2: int|
                                    0 <= r2 < rr ==> (#[trigger] constraint_ids@[r2]) as int == 4
                                        * r2 + k as int,
                        {
                            constraint_ids.push(4 * rr + k);
                        }
                        let nb = NeighborRef {
                            width_offset: dxv,
                            height_offset: dyv,
                            x: nbx,
                            y: nby,
                            constraint_ids,
                        };
                        neighbors.push(Some(nb));
                    },
                    _ => {
                        neighbors.push(None);
                    },
                }
            }

            // The candidate states, ground-partitioned for the last row.
            let last_row = y + 1 == gh;
            let mut candidates: Vec<CandidateState> = Vec::new();
            for i in 0..n
                invariant
                    catalog.wf(),
                    n == catalog.entries@.len(),
                    last_row == (y as int == gh as int - 1),
                    forall|j: int|
                        0 <= j < candidates@.len() ==> (#[trigger] candidates@[j]).state < i
                            && candidates@[j].weight
                            == catalog.entries@[candidates@[j].state as int].weight
                            && candidate_selected(
                            catalog.entries@[candidates@[j].state as int],
                            last_row,
                            contains_ground,
                        ),
                    forall|i2: int|
                        0 <= i2 < i && candidate_selected(
                            #[trigger] catalog.entries@[i2],
                            last_row,
                            contains_ground,
                        ) ==> exists|j: int|
                            0 <= j < candidates@.len() && (#[trigger] candidates@[j]).state == i2,
                    forall|j1: int, j2: int|
                        0 <= j1 < j2 < candidates@.len() ==> (#[trigger] candidates@[j1]).state < (
                        #[trigger] candidates@[j2]).state,
            {
                let selected = if !contains_ground {
                    true
                } else if last_row {
                    catalog.entries[i].is_ground
                } else {
                    !catalog.entries[i].is_ground
                };
                if selected {
                    let ghost oldc = candidates@;
                    candidates.push(CandidateState { state: i, weight: catalog.entries[i].weight });
                    proof {
                        assert forall|i2: int|
                            0 <= i2 < i + 1 && candidate_selected(
                                #[trigger] catalog.entries@[i2],
                                last_row,
                                contains_ground,
                            ) implies exists|j: int|
                            0 <= j < candidates@.len() && (#[trigger] candidates@[j]).state
                                == i2 by {
                            if i2 < i {
                                let j = choose|j: int|
                                    0 <= j < oldc.len() && (#[trigger] oldc[j]).state == i2;
                                assert(candidates@[j].state == i2);
                            } else {
                                assert(candidates@[candidates@.len() - 1].state == i2);
                            }
                        }
                    }
                } else {
                    proof {
                        assert(!candidate_selected(
                            catalog.entries@[i as int],
                            last_row,
                            contains_ground,
                        ));
                    }
                }
            }

            let node = Node { x, y, candidates, neighbors };
            let ghost oldn = nodes@;
            nodes.push(node);
            proof {
                assert(node_ok(
                    nodes@[(x as int) * (gh as int) + y as int],
                    x as int,
                    y as int,
                    gw as int,
                    gh as int,
                    periodic,
                    contains_ground,
                    catalog.entries@,
                ));
                assert forall|y2: int| 0 <= y2 < y as int + 1 implies node_ok(
                    #[trigger] nodes@[(x as int) * (gh as int) + y2],
                    x as int,
                    y2,
                    gw as int,
                    gh as int,
                    periodic,
                    contains_ground,
                    catalog.entries@,
                ) by {
                    if y2 < y as int {
                        assert(nodes@[(x as int) * (gh as int) + y2] == oldn[(x as int) * (
                        gh as int) + y2]);
                    }
                }
                assert forall|x2: int, y2: int| 0 <= x2 < x as int && 0 <= y2 < gh implies node_ok(
                    #[trigger] nodes@[x2 * (gh as int) + y2],
                    x2,
                    y2,
                    gw as int,
                    gh as int,
                    periodic,
                    contains_ground,
                    catalog.entries@,
                ) by {
                    assert(x2 * (gh as int) + y2 < (x as int) * (gh as int)) by (nonlinear_arith)
                        requires
                            0 <= x2 < x as int,
                            0 <= y2 < gh as int,
                    ;
                    assert(nodes@[x2 * (gh as int) + y2] == oldn[x2 * (gh as int) + y2]);
                }
            }
        }
        proof {
            assert(((x as int) + 1) * (gh as int) == (x as int) * (gh as int) + (gh as int))
                by (nonlinear_arith);
        }
    }
    proof {
        assert(nodes@.len() == (gw as int) * (gh as int));
        assert forall|x2: int, y2: int| 0 <= x2 < gw as int && 0 <= y2 < gh as int implies node_ok(
            #[trigger] nodes@[x2 * (gh as int) + y2],
            x2,
            y2,
            gw as int,
            gh as int,
            periodic,
            contains_ground,
            catalog.entries@,
        ) by {
        }
    }
    Ok(nodes)
}

} // verus!
