use mapgen::canvas::{Canvas, GenerationConfig};
use mapgen::fragment::ImageFragment;
use mapgen::pixel::{Pixel, SampleImage};
use mapgen::GenError;

fn px(v: u8) -> Pixel {
    Pixel { red: v, green: v, blue: v, alpha: 255 }
}

fn frag_from(cols: Vec<Vec<u8>>) -> ImageFragment {
    let pixels: Vec<Vec<Pixel>> = cols
        .into_iter()
        .map(|col| col.into_iter().map(px).collect())
        .collect();
    ImageFragment::new_from_pixels(pixels).unwrap()
}

fn mono_frag(w: usize, h: usize, v: u8) -> ImageFragment {
    frag_from(vec![vec![v; h]; w])
}

#[test]
fn monochrome_end_to_end() {
    // A 4x4 monochrome sample, 2x2 fragments, no flags: the catalog holds
    // one fragment of weight 9, and any total assignment reconstructs to a
    // uniform output.
    let img = SampleImage::new(vec![vec![px(9); 4]; 4]).unwrap();
    let canvas = Canvas::new(4, 4);
    let cfg = GenerationConfig {
        fragment_width: 2,
        fragment_height: 2,
        allow_reflection: false,
        allow_rotation: false,
        periodic: false,
        contains_ground: false,
        random_seed: None,
    };
    let graph = canvas.get_wave_function(&img, &cfg).unwrap();
    assert_eq!(graph.catalog.entries.len(), 1);
    assert_eq!(graph.catalog.entries[0].weight, 9);
    assert_eq!(graph.grid_width, 3);
    assert_eq!(graph.grid_height, 3);

    // The only consistent assignment: the single fragment everywhere.
    let mut canvas = canvas;
    let assignment: Vec<Vec<ImageFragment>> = (0..3)
        .map(|_| (0..3).map(|_| mono_frag(2, 2, 9)).collect())
        .collect();
    canvas.write(&assignment, 2, 2).unwrap();
    assert!(canvas.been_built);
    for x in 0..4 {
        for y in 0..4 {
            assert_eq!(canvas.get_pixel(x, y), px(9));
        }
    }
}

#[test]
fn reconstruction_stitches_blocks_and_pixels() {
    // Output 3x3 from a 2x2 grid of distinct 2x2 fragments: the interior
    // node contributes one pixel, the last column and row their full
    // blocks.
    let f = |v: u8| mono_frag(2, 2, v);
    let assignment = vec![vec![f(1), f(2)], vec![f(3), f(4)]];
    let mut canvas = Canvas::new(3, 3);
    canvas.write(&assignment, 2, 2).unwrap();
    let expect = [[1u8, 2, 2], [3, 4, 4], [3, 4, 4]];
    for x in 0..3 {
        for y in 0..3 {
            assert_eq!(canvas.get_pixel(x, y), px(expect[x][y]), "at ({}, {})", x, y);
        }
    }
}

#[test]
fn reconstruction_block_offsets() {
    // A single-node grid: output equals the chosen fragment's full block.
    let f = frag_from(vec![vec![1, 2], vec![3, 4]]);
    let assignment = vec![vec![f]];
    let mut canvas = Canvas::new(2, 2);
    canvas.write(&assignment, 2, 2).unwrap();
    assert_eq!(canvas.get_pixel(0, 0), px(1));
    assert_eq!(canvas.get_pixel(0, 1), px(2));
    assert_eq!(canvas.get_pixel(1, 0), px(3));
    assert_eq!(canvas.get_pixel(1, 1), px(4));
}

#[test]
fn malformed_assignment_rejected_and_canvas_untouched() {
    let mut canvas = Canvas::new(3, 3);
    // Wrong grid width: 2x2 fragments on a 3x3 canvas need a 2x2 grid.
    let a1 = vec![vec![mono_frag(2, 2, 1), mono_frag(2, 2, 1)]];
    assert_eq!(canvas.write(&a1, 2, 2).unwrap_err(), GenError::MalformedAssignment);
    assert!(!canvas.been_built);
    // Wrong fragment dimensions.
    let a2 = vec![
        vec![mono_frag(1, 2, 1), mono_frag(2, 2, 1)],
        vec![mono_frag(2, 2, 1), mono_frag(2, 2, 1)],
    ];
    assert_eq!(canvas.write(&a2, 2, 2).unwrap_err(), GenError::MalformedAssignment);
    // Fragment larger than the canvas.
    let a3 = vec![vec![mono_frag(4, 4, 1)]];
    assert_eq!(canvas.write(&a3, 4, 4).unwrap_err(), GenError::MalformedAssignment);
    assert!(!canvas.been_built);
}

#[test]
fn fresh_canvas_state() {
    let canvas = Canvas::new(7, 5);
    assert_eq!(canvas.width, 7);
    assert_eq!(canvas.height, 5);
    assert!(!canvas.been_built);
    assert!(canvas.pixels.is_empty());
}
