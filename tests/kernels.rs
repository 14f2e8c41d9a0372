use gouge::direct::detect_edges;
use gouge::gradient::round_sqrt;
use gouge::image::Image;
use gouge::luminance::compute_intens;
use gouge::normalize::{min_max, normalize, vec_to_grayscale_rgba};
use gouge::separable::{convolve_1x3, convolve_3x1};
use gouge::sobel;
use gouge::IntensityImage;

fn gray_rgba(intens: &[u8]) -> Vec<u8> {
    let mut out = Vec::new();
    for &v in intens {
        out.extend_from_slice(&[v, v, v, 255]);
    }
    out
}

fn pseudo_random(seed: u32, n: usize) -> Vec<u8> {
    let mut state = seed;
    let mut out = Vec::with_capacity(n);
    for _ in 0..n {
        state = state.wrapping_mul(1_103_515_245).wrapping_add(12_345);
        out.push((state >> 16) as u8);
    }
    out
}

#[test]
fn luminance_weights_and_rounding() {
    let rgba = vec![255, 255, 255, 255, 10, 20, 30, 0, 0, 0, 0, 255, 255, 0, 0, 255, 0, 255, 0, 7, 0, 0, 255, 9];
    let intens = compute_intens(&rgba, 6, 1);
    assert_eq!(intens, vec![255, 18, 0, 77, 150, 28]);
}

#[test]
fn luminance_ignores_alpha() {
    let a = compute_intens(&[40, 80, 120, 0], 1, 1);
    let b = compute_intens(&[40, 80, 120, 255], 1, 1);
    assert_eq!(a, b);
    assert_eq!(a, vec![72]);
}

#[test]
fn rounded_square_roots() {
    let cases: [(u32, u32); 14] = [
        (0, 0),
        (1, 1),
        (2, 1),
        (3, 2),
        (6, 2),
        (7, 3),
        (12, 3),
        (13, 4),
        (1_040_400, 1020),
        (2_080_800, 1442),
        (3_999_999, 2000),
        (4_000_000, 2000),
        (4_294_836_225, 65535),
        (u32::MAX, 65536),
    ];
    for (n, r) in cases {
        assert_eq!(round_sqrt(n), r, "n = {}", n);
    }
}

#[test]
fn sobel_exact_values() {
    assert_eq!(sobel(0, 0, 0, 0, 0, 0, 0, 0), 0);
    assert_eq!(sobel(0, 0, 0, 0, 255, 0, 0, 0), 510);
    assert_eq!(sobel(0, 0, 255, 0, 255, 0, 0, 255), 1020);
    assert_eq!(sobel(255, 255, 255, 0, 0, 0, 0, 0), 1020);
    // gx = 1, gy = -1: sqrt(2) rounds down
    assert_eq!(sobel(0, 0, 1, 0, 0, 0, 0, 0), 1);
    // gx = 2, gy = 2: sqrt(8) rounds up
    assert_eq!(sobel(0, 0, 0, 0, 1, 0, 1, 0), 3);
    // gx = 3, gy = 1: sqrt(10) rounds down
    assert_eq!(sobel(0, 0, 1, 0, 1, 0, 1, 0), 3);
    // gx = gy = 765: 765 * sqrt(2) = 1081.87
    assert_eq!(sobel(0, 0, 0, 0, 255, 0, 255, 255), 1082);
}

#[test]
fn vertical_pass_clamps_rows() {
    let img = Image { data: vec![1i16, 2, 10, 20, 100, 200], width: 2, height: 3 };
    let smooth = convolve_1x3(&img, 1, 2, 1);
    assert_eq!(smooth.width, 2);
    assert_eq!(smooth.height, 3);
    assert_eq!(smooth.data, vec![3 * 1 + 10, 3 * 2 + 20, 1 + 20 + 100, 2 + 40 + 200, 10 + 300, 20 + 600]);
    let diff = convolve_1x3(&img, 1, 0, -1);
    assert_eq!(diff.data, vec![9, 18, 99, 198, 90, 180]);
}

#[test]
fn horizontal_pass_clamps_columns() {
    let img = Image { data: vec![1i16, 10, 100, -5, 0, 5], width: 3, height: 2 };
    let smooth = convolve_3x1(&img, 1, 2, 1);
    assert_eq!(smooth.data, vec![3 + 10, 1 + 20 + 100, 10 + 300, -15, -5 + 5, 15]);
    let diff = convolve_3x1(&img, 1, 0, -1);
    assert_eq!(diff.data, vec![9, 99, 90, 5, 10, 5]);
}

#[test]
fn passes_take_any_kernel_that_fits() {
    let img = Image { data: vec![100i16, -100, 7, 0, 50, -3], width: 3, height: 2 };
    // (3, 0, 0): three times the row below
    assert_eq!(convolve_1x3(&img, 3, 0, 0).data, vec![0, 150, -9, 0, 150, -9]);
    // (0, 0, 3): three times the left neighbour
    assert_eq!(convolve_3x1(&img, 0, 0, 3).data, vec![300, 300, -300, 0, 0, 150]);
    let big = Image { data: vec![1000i16, -1000, 500], width: 3, height: 1 };
    assert_eq!(convolve_3x1(&big, 10, -11, 11).data, vec![-10000, 27000, -11500]);
    let limit = Image { data: vec![i16::MAX, i16::MIN + 1], width: 1, height: 2 };
    assert_eq!(convolve_1x3(&limit, 0, 1, 0).data, vec![i16::MAX, i16::MIN + 1]);
}

#[test]
fn single_column_and_single_row_passes() {
    let column = Image { data: vec![3i16, 5], width: 1, height: 2 };
    assert_eq!(convolve_3x1(&column, 1, 2, 1).data, vec![12, 20]);
    let row = Image { data: vec![3i16, 5], width: 2, height: 1 };
    assert_eq!(convolve_1x3(&row, 1, 2, 1).data, vec![12, 20]);
    assert_eq!(convolve_1x3(&row, 1, 0, -1).data, vec![0, 0]);
}

#[test]
fn separable_matches_direct_on_random_images() {
    let shapes: [(usize, usize); 10] =
        [(1, 1), (1, 2), (2, 1), (1, 9), (9, 1), (2, 2), (3, 3), (5, 5), (8, 3), (4, 7)];
    for (k, &(w, h)) in shapes.iter().enumerate() {
        let intens = pseudo_random(k as u32 + 1, w * h);
        let direct = detect_edges(&intens, w, h);
        let img = IntensityImage::new(&gray_rgba(&intens), w as u32, h as u32).unwrap();
        assert_eq!(img.0.data, intens);
        let separable = img.detect_edges();
        assert_eq!(separable.0.data, direct, "shape {}x{}", w, h);
    }
}

#[test]
fn direct_edges_of_a_step() {
    // a vertical step: left column dark, right column bright
    let intens = vec![0, 100, 0, 100];
    assert_eq!(detect_edges(&intens, 2, 2), vec![400, 400, 400, 400]);
}

#[test]
fn direct_edges_of_horizontal_strip() {
    // a 1-D row: only the horizontal response survives, 4 * (right - left)
    assert_eq!(detect_edges(&[0, 10, 30], 3, 1), vec![40, 120, 80]);
}

#[test]
fn min_and_max_of_samples() {
    assert_eq!(min_max(&[5, -3, 12, 0]), (-3, 12));
    assert_eq!(min_max(&[7]), (7, 7));
}

#[test]
fn normalize_rescales_onto_bytes() {
    assert_eq!(normalize(&[0, 5, 10]), vec![0, 128, 255]);
    assert_eq!(normalize(&[100, 101]), vec![0, 255]);
    assert_eq!(normalize(&[-10, 0, 10, 20]), vec![0, 85, 170, 255]);
    assert_eq!(normalize(&[]), Vec::<u8>::new());
}

#[test]
fn normalize_of_uniform_map_is_zero() {
    assert_eq!(normalize(&[42, 42, 42]), vec![0, 0, 0]);
}

#[test]
fn normalize_reaches_both_ends() {
    let data: Vec<i16> = pseudo_random(99, 50).into_iter().map(|b| b as i16 * 3 - 100).collect();
    let bytes = normalize(&data);
    assert_eq!(*bytes.iter().min().unwrap(), 0);
    assert_eq!(*bytes.iter().max().unwrap(), 255);
}

#[test]
fn grayscale_expansion() {
    assert_eq!(vec_to_grayscale_rgba(&[1, 200]), vec![1, 1, 1, 255, 200, 200, 200, 255]);
    assert_eq!(vec_to_grayscale_rgba(&[]), Vec::<u8>::new());
}
