use mapgen::catalog::Catalog;
use mapgen::fragment::ImageFragment;
use mapgen::pixel::{Pixel, SampleImage};
use mapgen::GenError;

fn px(v: u8) -> Pixel {
    Pixel { red: v, green: v, blue: v, alpha: 255 }
}

fn image_from(cols: Vec<Vec<u8>>) -> SampleImage {
    let pixels: Vec<Vec<Pixel>> = cols
        .into_iter()
        .map(|col| col.into_iter().map(px).collect())
        .collect();
    SampleImage::new(pixels).unwrap()
}

fn mono_image(width: usize, height: usize, v: u8) -> SampleImage {
    image_from(vec![vec![v; height]; width])
}

#[test]
fn monochrome_catalog_single_entry_weight_nine() {
    // A 4x4 monochrome sample with 2x2 fragments and no orientation flags:
    // 3x3 window positions, all pixel-identical, merging into one entry of
    // weight 9.
    let img = mono_image(4, 4, 42);
    let catalog = Catalog::extract(&img, 2, 2, false, false).unwrap();
    assert_eq!(catalog.entries.len(), 1);
    assert_eq!(catalog.entries[0].weight, 9);
    assert!(catalog.entries[0].is_ground);
    let f = &catalog.entries[0].fragment;
    assert_eq!(f.width(), 2);
    assert_eq!(f.height(), 2);
    assert_eq!(f.pixel(0, 0), px(42));
}

#[test]
fn checkerboard_catalog_two_entries_weight_two() {
    // A 2x2 checkerboard with 1x1 fragments: two distinct colors, each
    // extracted twice.
    let img = image_from(vec![vec![1, 2], vec![2, 1]]);
    let catalog = Catalog::extract(&img, 1, 1, false, false).unwrap();
    assert_eq!(catalog.entries.len(), 2);
    assert_eq!(catalog.entries[0].weight, 2);
    assert_eq!(catalog.entries[1].weight, 2);
    assert!(!catalog.entries[0].fragment.equals(&catalog.entries[1].fragment));
}

#[test]
fn identical_regions_merge_with_total_count() {
    // The sample repeats one column pattern; pixel-identical windows merge
    // into one entry whose weight is the total occurrence count.
    let img = image_from(vec![vec![5, 6], vec![5, 6], vec![5, 6]]);
    let catalog = Catalog::extract(&img, 1, 1, false, false).unwrap();
    assert_eq!(catalog.entries.len(), 2);
    let total: u64 = catalog.entries.iter().map(|e| e.weight).sum();
    assert_eq!(total, 6);
}

#[test]
fn orientation_flags_scale_total_weight() {
    // Each window position contributes 1, 2, 4 or 8 variants depending on
    // the flags; total weight counts every variant.
    let img = image_from(vec![vec![1, 2, 3], vec![4, 5, 6], vec![7, 8, 9]]);
    for (refl, rot, per_window) in [
        (false, false, 1u64),
        (true, false, 2),
        (false, true, 4),
        (true, true, 8),
    ] {
        let catalog = Catalog::extract(&img, 2, 2, refl, rot).unwrap();
        let total: u64 = catalog.entries.iter().map(|e| e.weight).sum();
        assert_eq!(total, 4 * per_window);
    }
}

#[test]
fn rotation_variants_enter_catalog() {
    // A single 2x2 window with four distinct pixels has four distinct
    // rotations, each of weight 1.
    let img = image_from(vec![vec![1, 2], vec![3, 4]]);
    let catalog = Catalog::extract(&img, 2, 2, false, true).unwrap();
    assert_eq!(catalog.entries.len(), 4);
    for e in &catalog.entries {
        assert_eq!(e.weight, 1);
    }
}

#[test]
fn ground_set_marks_last_row_only() {
    // Columns hold color 1 on top, color 2 at the bottom; with 1x1
    // fragments the bottom-row windows are exactly the ground set.
    let img = image_from(vec![vec![1, 2], vec![1, 2]]);
    let catalog = Catalog::extract(&img, 1, 1, false, false).unwrap();
    assert_eq!(catalog.entries.len(), 2);
    for e in &catalog.entries {
        let is_bottom_color = e.fragment.pixel(0, 0) == px(2);
        assert_eq!(e.is_ground, is_bottom_color);
    }
}

#[test]
fn ground_flag_set_even_when_entry_seen_earlier() {
    // Color 7 appears in the top row first and again in the bottom row;
    // its single catalog entry must still be flagged as ground.
    let img = image_from(vec![vec![7, 7], vec![8, 9]]);
    let catalog = Catalog::extract(&img, 1, 1, false, false).unwrap();
    for e in &catalog.entries {
        let c = e.fragment.pixel(0, 0);
        assert_eq!(e.is_ground, c == px(7) || c == px(9));
    }
}

#[test]
fn oversized_fragment_rejected() {
    let img = mono_image(2, 2, 1);
    assert_eq!(
        Catalog::extract(&img, 3, 2, false, false).unwrap_err(),
        GenError::InvalidFragmentSize
    );
    assert_eq!(
        Catalog::extract(&img, 2, 0, false, false).unwrap_err(),
        GenError::InvalidFragmentSize
    );
}

#[test]
fn sample_image_rejects_ragged_grid() {
    let pixels = vec![vec![px(1)], vec![px(2), px(3)]];
    assert_eq!(SampleImage::new(pixels).unwrap_err(), GenError::InvalidPixelGrid);
    let empty_col: Vec<Vec<Pixel>> = vec![Vec::new()];
    assert_eq!(SampleImage::new(empty_col).unwrap_err(), GenError::InvalidPixelGrid);
}

#[test]
fn extraction_window_reads_image_region() {
    let img = image_from(vec![vec![1, 2, 3], vec![4, 5, 6], vec![7, 8, 9]]);
    let f = ImageFragment::new_from_image(&img, 1, 1, 2, 2);
    assert_eq!(f.pixel(0, 0), px(5));
    assert_eq!(f.pixel(0, 1), px(6));
    assert_eq!(f.pixel(1, 0), px(8));
    assert_eq!(f.pixel(1, 1), px(9));
}
