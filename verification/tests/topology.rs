use mapgen::canvas::{Canvas, GenerationConfig};
use mapgen::catalog::Catalog;
use mapgen::constraints::build_constraint_sets;
use mapgen::grid::build_nodes;
use mapgen::pixel::{Pixel, SampleImage};
use mapgen::GenError;

fn px(v: u8) -> Pixel {
    Pixel { red: v, green: v, blue: v, alpha: 255 }
}

fn image_from(cols: Vec<Vec<u8>>) -> SampleImage {
    let pixels: Vec<Vec<Pixel>> = cols
        .into_iter()
        .map(|col| col.into_iter().map(px).collect())
        .collect();
    SampleImage::new(pixels).unwrap()
}

fn config(fw: usize, fh: usize) -> GenerationConfig {
    GenerationConfig {
        fragment_width: fw,
        fragment_height: fh,
        allow_reflection: false,
        allow_rotation: false,
        periodic: false,
        contains_ground: false,
        random_seed: None,
    }
}

#[test]
fn constraint_sets_cover_every_entry_and_offset() {
    let img = image_from(vec![vec![1, 2], vec![2, 1]]);
    let catalog = Catalog::extract(&img, 1, 1, false, false).unwrap();
    let n = catalog.entries.len();
    let sets = build_constraint_sets(&catalog).unwrap();
    assert_eq!(sets.len(), 4 * n);
    let offsets: [(i8, i8); 4] = [(-1, 0), (0, -1), (0, 1), (1, 0)];
    for r in 0..n {
        for k in 0..4 {
            let s = &sets[4 * r + k];
            assert_eq!(s.id, 4 * r + k);
            assert_eq!(s.source, r);
            assert_eq!((s.width_offset, s.height_offset), offsets[k]);
            // Never the center, never a diagonal.
            assert_ne!((s.width_offset, s.height_offset), (0, 0));
            assert_eq!(s.width_offset.abs() + s.height_offset.abs(), 1);
        }
    }
}

#[test]
fn adjacency_lists_follow_overlap() {
    // A 3x1 sample [a b a] with 2x1 fragments: windows [a b] and [b a].
    // At offset (1,0) the surviving column of [a b] must match the first
    // column of the other: only [b a] qualifies, and vice versa.
    let img = image_from(vec![vec![1], vec![2], vec![1]]);
    let catalog = Catalog::extract(&img, 2, 1, false, false).unwrap();
    assert_eq!(catalog.entries.len(), 2);
    let sets = build_constraint_sets(&catalog).unwrap();
    // Offset (1,0) is offset number 3.
    let right_of_0 = &sets[4 * 0 + 3];
    let right_of_1 = &sets[4 * 1 + 3];
    assert_eq!(right_of_0.permitted, vec![1]);
    assert_eq!(right_of_1.permitted, vec![0]);
}

#[test]
fn adjacency_is_mutual() {
    // Whenever entry `o` is permitted at some offset of entry `r`, entry
    // `r` is permitted at the opposite offset of `o`.
    let img = image_from(vec![vec![1, 2, 1], vec![2, 1, 2], vec![1, 2, 1]]);
    let catalog = Catalog::extract(&img, 2, 2, false, false).unwrap();
    let n = catalog.entries.len();
    let sets = build_constraint_sets(&catalog).unwrap();
    let mirror = [3, 2, 1, 0];
    for r in 0..n {
        for k in 0..4 {
            for o in 0..n {
                let forward = sets[4 * r + k].permitted.contains(&o);
                let backward = sets[4 * o + mirror[k]].permitted.contains(&r);
                assert_eq!(forward, backward);
            }
        }
    }
}

#[test]
fn periodic_wraps_both_axes() {
    let img = image_from(vec![vec![1, 2], vec![2, 1]]);
    let catalog = Catalog::extract(&img, 1, 1, false, false).unwrap();
    let gh = 3usize;
    let nodes = build_nodes(&catalog, 3, 3, 1, 1, true, false).unwrap();
    // Top row: offset (0,-1) wraps to the last row.
    let top = &nodes[1 * gh + 0];
    let up = top.neighbors[1].as_ref().unwrap();
    assert_eq!((up.x, up.y), (1, gh - 1));
    // Bottom row: offset (0,1) wraps to the first row.
    let bottom = &nodes[1 * gh + (gh - 1)];
    let down = bottom.neighbors[2].as_ref().unwrap();
    assert_eq!((down.x, down.y), (1, 0));
}

#[test]
fn mixed_dimension_catalog_rejected() {
    // Rotation on a non-square fragment fills the catalog with both
    // orientations, and pairwise overlap is then undefined.
    let img = image_from(vec![vec![1, 2], vec![3, 4]]);
    let catalog = Catalog::extract(&img, 2, 1, false, true).unwrap();
    assert_eq!(
        build_constraint_sets(&catalog).unwrap_err(),
        GenError::MixedFragmentSizes
    );
}

#[test]
fn grid_dimensions_follow_output_size() {
    let img = image_from(vec![vec![1, 2], vec![2, 1]]);
    let catalog = Catalog::extract(&img, 1, 1, false, false).unwrap();
    let nodes = build_nodes(&catalog, 5, 4, 1, 1, false, false).unwrap();
    assert_eq!(nodes.len(), 5 * 4);
    // Column-major: node at (x, y) sits at x * grid_height + y.
    for x in 0..5 {
        for y in 0..4 {
            let node = &nodes[x * 4 + y];
            assert_eq!((node.x, node.y), (x, y));
        }
    }
    let nodes2 = build_nodes(&catalog, 5, 4, 2, 2, false, false).unwrap();
    assert_eq!(nodes2.len(), 4 * 3);
}

#[test]
fn periodic_edge_gets_wrapped_neighbor() {
    let img = image_from(vec![vec![1, 2], vec![2, 1]]);
    let catalog = Catalog::extract(&img, 1, 1, false, false).unwrap();
    let gw = 3usize;
    let gh = 3usize;
    let nodes = build_nodes(&catalog, gw, gh, 1, 1, true, false).unwrap();
    // Node at column 0: offset (-1,0) is neighbor entry 0 and wraps to the
    // last column.
    let node = &nodes[0 * gh + 1];
    let nb = node.neighbors[0].as_ref().unwrap();
    assert_eq!((nb.width_offset, nb.height_offset), (-1, 0));
    assert_eq!((nb.x, nb.y), (gw - 1, 1));
    // The constraint ids for that offset, one per catalog entry.
    assert_eq!(nb.constraint_ids.len(), catalog.entries.len());
    for (r, id) in nb.constraint_ids.iter().enumerate() {
        assert_eq!(*id, 4 * r + 0);
    }
}

#[test]
fn open_boundary_omits_edge_neighbor() {
    let img = image_from(vec![vec![1, 2], vec![2, 1]]);
    let catalog = Catalog::extract(&img, 1, 1, false, false).unwrap();
    let gh = 3usize;
    let nodes = build_nodes(&catalog, 3, 3, 1, 1, false, false).unwrap();
    let corner = &nodes[0 * gh + 0];
    assert!(corner.neighbors[0].is_none()); // (-1, 0)
    assert!(corner.neighbors[1].is_none()); // (0, -1)
    assert!(corner.neighbors[2].is_some()); // (0, 1)
    assert!(corner.neighbors[3].is_some()); // (1, 0)
    let interior = &nodes[1 * gh + 1];
    for k in 0..4 {
        assert!(interior.neighbors[k].is_some());
    }
}

#[test]
fn ground_partition_splits_rows() {
    // Top color 1, bottom color 2; 1x1 fragments; ground mode on.  The
    // last grid row draws only from the ground entry, every other row only
    // from the rest.
    let img = image_from(vec![vec![1, 2], vec![1, 2]]);
    let catalog = Catalog::extract(&img, 1, 1, false, false).unwrap();
    let gh = 3usize;
    let nodes = build_nodes(&catalog, 3, 3, 1, 1, false, true).unwrap();
    for x in 0..3 {
        for y in 0..3 {
            let node = &nodes[x * gh + y];
            for cand in node.candidates.iter() {
                let entry = &catalog.entries[cand.state];
                assert_eq!(entry.is_ground, y == gh - 1);
                assert_eq!(cand.weight, entry.weight);
            }
            assert_eq!(node.candidates.len(), 1);
        }
    }
}

#[test]
fn no_ground_mode_gives_full_candidate_map() {
    let img = image_from(vec![vec![1, 2], vec![1, 2]]);
    let catalog = Catalog::extract(&img, 1, 1, false, false).unwrap();
    let nodes = build_nodes(&catalog, 3, 3, 1, 1, false, false).unwrap();
    for node in nodes.iter() {
        assert_eq!(node.candidates.len(), catalog.entries.len());
    }
}

#[test]
fn pipeline_error_order() {
    let canvas = Canvas::new(1, 1);
    let img = image_from(vec![vec![1, 2, 3], vec![4, 5, 6], vec![7, 8, 9]]);
    // Fragment larger than the sample.
    assert_eq!(
        canvas.get_wave_function(&img, &config(4, 2)).unwrap_err(),
        GenError::InvalidFragmentSize
    );
    // Rotation with a non-square fragment.
    let mut cfg = config(2, 1);
    cfg.allow_rotation = true;
    assert_eq!(
        canvas.get_wave_function(&img, &cfg).unwrap_err(),
        GenError::MixedFragmentSizes
    );
    // Output canvas smaller than the fragment.
    assert_eq!(
        canvas.get_wave_function(&img, &config(2, 2)).unwrap_err(),
        GenError::InvalidOutputSize
    );
}

#[test]
fn graph_bundles_all_components() {
    let canvas = Canvas::new(4, 4);
    let img = image_from(vec![vec![1, 2], vec![2, 1]]);
    let mut cfg = config(1, 1);
    cfg.random_seed = Some(77);
    let graph = canvas.get_wave_function(&img, &cfg).unwrap();
    assert_eq!(graph.grid_width, 4);
    assert_eq!(graph.grid_height, 4);
    assert_eq!(graph.nodes.len(), 16);
    assert_eq!(graph.constraint_sets.len(), 4 * graph.catalog.entries.len());
    assert_eq!(graph.random_seed, Some(77));
    assert!(!graph.periodic);
    assert!(!graph.contains_ground);
}
