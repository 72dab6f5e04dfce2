use mapgen::fragment::ImageFragment;
use mapgen::pixel::Pixel;

fn px(v: u8) -> Pixel {
    Pixel { red: v, green: v, blue: v, alpha: 255 }
}

fn frag_from(cols: Vec<Vec<u8>>) -> ImageFragment {
    let pixels: Vec<Vec<Pixel>> = cols
        .into_iter()
        .map(|col| col.into_iter().map(px).collect())
        .collect();
    ImageFragment::new_from_pixels(pixels).unwrap()
}

#[test]
fn rotate_four_times_identity() {
    // A 2x3 fragment with six distinct pixels.
    let original = frag_from(vec![vec![1, 2, 3], vec![4, 5, 6]]);
    let rotated = frag_from(vec![vec![1, 2, 3], vec![4, 5, 6]])
        .rotate()
        .rotate()
        .rotate()
        .rotate();
    assert!(original.equals(&rotated));
    assert_eq!(rotated.width(), 2);
    assert_eq!(rotated.height(), 3);
}

#[test]
fn rotate_maps_pixels_exactly() {
    // Source 2x2: columns [1,2] and [3,4]; the rotated fragment's pixel at
    // (w, h) is the source pixel at (h, height - 1 - w).
    let f = frag_from(vec![vec![1, 2], vec![3, 4]]);
    let r = f.rotate();
    assert_eq!(r.width(), 2);
    assert_eq!(r.height(), 2);
    assert_eq!(r.pixel(0, 0), px(2));
    assert_eq!(r.pixel(0, 1), px(4));
    assert_eq!(r.pixel(1, 0), px(1));
    assert_eq!(r.pixel(1, 1), px(3));
}

#[test]
fn rotate_transposes_dimensions() {
    let f = frag_from(vec![vec![1, 2, 3], vec![4, 5, 6]]);
    assert_eq!(f.width(), 2);
    assert_eq!(f.height(), 3);
    let r = f.rotate();
    assert_eq!(r.width(), 3);
    assert_eq!(r.height(), 2);
}

#[test]
fn flip_twice_identity() {
    let original = frag_from(vec![vec![1, 2], vec![3, 4], vec![5, 6]]);
    let flipped = frag_from(vec![vec![1, 2], vec![3, 4], vec![5, 6]]).flip().flip();
    assert!(original.equals(&flipped));
}

#[test]
fn flip_maps_pixels_exactly() {
    // Mirroring along the width axis swaps the columns, leaving each
    // column's order unchanged.
    let f = frag_from(vec![vec![1, 2], vec![3, 4]]);
    let m = f.flip();
    assert_eq!(m.width(), 2);
    assert_eq!(m.height(), 2);
    assert_eq!(m.pixel(0, 0), px(3));
    assert_eq!(m.pixel(0, 1), px(4));
    assert_eq!(m.pixel(1, 0), px(1));
    assert_eq!(m.pixel(1, 1), px(2));
}

#[test]
fn structural_equality_ignores_origin() {
    let a = frag_from(vec![vec![7, 8], vec![9, 10]]);
    let b = frag_from(vec![vec![7, 8], vec![9, 10]]);
    let c = frag_from(vec![vec![7, 8], vec![9, 11]]);
    assert!(a.equals(&b));
    assert!(b.equals(&a));
    assert!(!a.equals(&c));
}

#[test]
fn overlap_exact_match_one_column() {
    // Two 2x1 fragments: [1,2] and [2,3].  Shifting the other right by one
    // leaves one overlapping column: self's column 1 against other's
    // column 0.
    let ab = frag_from(vec![vec![1], vec![2]]);
    let bc = frag_from(vec![vec![2], vec![3]]);
    assert!(ab.is_overlapping(&bc, 1, 0));
    assert!(!bc.is_overlapping(&ab, 1, 0));
    assert!(!ab.is_overlapping(&bc, 0, 0));
}

#[test]
fn overlap_symmetry_all_offsets() {
    let a = frag_from(vec![vec![1, 2], vec![3, 4]]);
    let b = frag_from(vec![vec![2, 4], vec![1, 3]]);
    let offsets: [(i8, i8); 4] = [(0, -1), (0, 1), (-1, 0), (1, 0)];
    for (dx, dy) in offsets {
        assert_eq!(a.is_overlapping(&b, dx, dy), b.is_overlapping(&a, -dx, -dy));
        assert_eq!(a.is_overlapping(&a, dx, dy), a.is_overlapping(&a, -dx, -dy));
    }
}

#[test]
fn overlap_self_shift() {
    // A vertically uniform 2x2 fragment overlaps itself when shifted down,
    // but not when shifted right (columns differ).
    let f = frag_from(vec![vec![1, 1], vec![2, 2]]);
    assert!(f.is_overlapping(&f, 0, 1));
    assert!(f.is_overlapping(&f, 0, -1));
    assert!(!f.is_overlapping(&f, 1, 0));
    assert!(!f.is_overlapping(&f, -1, 0));
}

#[test]
fn overlap_vacuous_when_footprints_disjoint() {
    // Unit fragments shifted by a full step share no pixel region, so the
    // overlap test holds vacuously for any pair.
    let a = frag_from(vec![vec![1]]);
    let b = frag_from(vec![vec![2]]);
    assert!(a.is_overlapping(&b, 1, 0));
    assert!(a.is_overlapping(&a, 0, -1));
}

#[test]
fn fragment_rejects_ragged_grid() {
    let pixels = vec![vec![px(1), px(2)], vec![px(3)]];
    assert!(ImageFragment::new_from_pixels(pixels).is_err());
    let empty: Vec<Vec<Pixel>> = Vec::new();
    assert_eq!(
        ImageFragment::new_from_pixels(empty).unwrap_err(),
        mapgen::GenError::InvalidPixelGrid
    );
}
