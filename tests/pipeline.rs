use gouge::direct::detect_edges;
use gouge::energy::detect_edges as detect_energy_edges;
use gouge::{rgba_to_energy, CarvingContext, EnergyError, EnergyMap, IntensityImage};

fn gray_rgba(intens: &[u8]) -> Vec<u8> {
    let mut out = Vec::new();
    for &v in intens {
        out.extend_from_slice(&[v, v, v, 255]);
    }
    out
}

#[test]
fn uniform_gray_image_end_to_end() {
    let rgba: Vec<u8> = [128u8, 128, 128, 255].repeat(16);
    let intens = IntensityImage::new(&rgba, 4, 4).unwrap();
    assert_eq!(intens.0.data, vec![128u8; 16]);
    let edges = intens.detect_edges();
    assert_eq!(edges.0.data, vec![0i16; 16]);
    assert_eq!(edges.to_rgba(), [0u8, 0, 0, 255].repeat(16));
}

#[test]
fn vertical_strip_is_symmetric() {
    let ctx = CarvingContext::new(gray_rgba(&[0, 255, 0]), 1, 3).unwrap();
    assert_eq!(ctx.intens(), &vec![0u8, 255, 0]);
    let edges = ctx.edges();
    assert_eq!(edges[0], edges[2]);
    // the central pixel's clamped window is symmetric above and below it,
    // so its vertical response cancels out
    assert_eq!(edges, &vec![1020i16, 0, 1020]);
}

#[test]
fn alternating_pattern_is_symmetric() {
    let intens = [0u8, 255, 0, 255, 0, 255, 0, 255, 0];
    let ctx = CarvingContext::new(gray_rgba(&intens), 3, 3).unwrap();
    let e = ctx.edges().clone();
    assert_eq!(e[0], e[2]);
    assert_eq!(e[0], e[6]);
    assert_eq!(e[0], e[8]);
    assert_eq!(e[1], e[3]);
    assert_eq!(e[1], e[5]);
    assert_eq!(e[1], e[7]);
    assert_eq!(e, vec![721i16, 0, 721, 0, 0, 0, 721, 0, 721]);
}

#[test]
fn empty_image_end_to_end() {
    let ctx = CarvingContext::new(Vec::new(), 0, 0).unwrap();
    assert!(ctx.intens().is_empty());
    assert!(ctx.edges().is_empty());
    let intens = IntensityImage::new(&[], 0, 0).unwrap();
    let edges = intens.detect_edges();
    assert!(edges.0.data.is_empty());
    assert!(edges.to_rgba().is_empty());
}

#[test]
fn empty_with_one_nonzero_dimension() {
    let edges = detect_edges(&[], 0, 5);
    assert!(edges.is_empty());
    let ctx = CarvingContext::new(Vec::new(), 7, 0).unwrap();
    assert!(ctx.edges().is_empty());
}

#[test]
fn single_pixel_has_no_gradient() {
    let ctx = CarvingContext::new(vec![200, 10, 30, 255], 1, 1).unwrap();
    assert_eq!(ctx.intens(), &vec![69u8]);
    assert_eq!(ctx.edges(), &vec![0i16]);
    let edges = IntensityImage::new(&[200, 10, 30, 255], 1, 1).unwrap().detect_edges();
    assert_eq!(edges.0.data, vec![0i16]);
    assert_eq!(edges.to_rgba(), vec![0, 0, 0, 255]);
}

#[test]
fn corner_of_two_by_two_sees_opposite_pixel() {
    let base = [10u8, 20, 30, 40];
    let changed = [10u8, 20, 30, 99];
    let before = detect_edges(&base, 2, 2);
    let after = detect_edges(&changed, 2, 2);
    assert_eq!(before, vec![89, 89, 89, 89]);
    assert_eq!(after, vec![171, 275, 258, 336]);
    assert_ne!(before[0], after[0]);
}

#[test]
fn corner_of_three_by_three_ignores_opposite_pixel() {
    let base = [10u8, 20, 30, 40, 50, 60, 70, 80, 90];
    let before = detect_edges(&base, 3, 3);
    for value in [0u8, 1, 128, 255] {
        let mut changed = base;
        changed[8] = value;
        let after = detect_edges(&changed, 3, 3);
        assert_eq!(before[0], after[0]);
        changed = base;
        changed[0] = value;
        let after = detect_edges(&changed, 3, 3);
        assert_eq!(before[8], after[8]);
        changed = base;
        changed[6] = value;
        let after = detect_edges(&changed, 3, 3);
        assert_eq!(before[2], after[2]);
    }
}

#[test]
fn every_pixel_of_three_by_three_depends_only_on_its_window() {
    let base = [10u8, 20, 30, 40, 50, 60, 70, 80, 90];
    let before = detect_edges(&base, 3, 3);
    for changed_at in 0..9usize {
        let mut changed = base;
        changed[changed_at] = 255 - changed[changed_at];
        let after = detect_edges(&changed, 3, 3);
        for at in 0..9usize {
            let far = (at % 3).abs_diff(changed_at % 3) > 1 || (at / 3).abs_diff(changed_at / 3) > 1;
            if far {
                assert_eq!(before[at], after[at]);
            }
        }
    }
}

#[test]
fn intensity_shape_mismatch() {
    assert!(matches!(IntensityImage::new(&[1, 2, 3], 1, 1), Err(EnergyError::ShapeMismatch)));
    assert!(matches!(IntensityImage::new(&[0; 16], 2, 1), Err(EnergyError::ShapeMismatch)));
    assert!(matches!(IntensityImage::new(&[0; 4], u32::MAX, u32::MAX), Err(EnergyError::ShapeMismatch)));
}

#[test]
fn context_shape_mismatch() {
    assert!(matches!(CarvingContext::new(vec![0; 12], 2, 2), Err(EnergyError::ShapeMismatch)));
    assert!(matches!(CarvingContext::new(vec![0; 4], 0, 0), Err(EnergyError::ShapeMismatch)));
}

#[test]
fn carve_rejects_larger_targets() {
    let rgba: Vec<u8> = (0..24u8).collect();
    let ctx = CarvingContext::new(rgba.clone(), 3, 2).unwrap();
    assert_eq!(ctx.carve(4, 2), Err(EnergyError::InvalidTargetSize));
    assert_eq!(ctx.carve(3, 3), Err(EnergyError::InvalidTargetSize));
    assert_eq!(ctx.carve(3, 2), Ok(rgba.clone()));
    assert_eq!(ctx.carve(1, 0), Ok(rgba));
}

#[test]
fn context_maps_match_standalone_stages() {
    let rgba: Vec<u8> = (0..80u32).map(|i| (i * 37 % 256) as u8).collect();
    let ctx = CarvingContext::new(rgba.clone(), 5, 4).unwrap();
    let intens = IntensityImage::new(&rgba, 5, 4).unwrap();
    assert_eq!(ctx.intens(), &intens.0.data);
    assert_eq!(ctx.edges(), &intens.detect_edges().0.data);
}

#[test]
fn energy_map_construction() {
    let zeros = EnergyMap::new(3, 2);
    assert_eq!(zeros.len(), 6);
    assert_eq!(zeros.width(), 3);
    assert_eq!(zeros.height(), 2);
    assert_eq!(zeros.row(1), &[0i16, 0, 0]);
    let map = EnergyMap::from_vec(vec![1, 2, 3, 4, 5, 6], 2, 3);
    assert_eq!(map.row(0), &[1i16, 2]);
    assert_eq!(map.row(2), &[5i16, 6]);
    let empty = EnergyMap::default();
    assert_eq!(empty.len(), 0);
    assert_eq!(empty.width(), 0);
    assert_eq!(empty.height(), 0);
}

#[test]
fn energy_map_edges_match_direct_engine() {
    let intens = [3u8, 200, 17, 90, 0, 255, 64, 128];
    let energy = rgba_to_energy(&gray_rgba(&intens), 4, 2).unwrap();
    assert_eq!(energy.row(0), &[3i16, 200, 17, 90]);
    assert_eq!(energy.row(1), &[0i16, 255, 64, 128]);
    let edges = detect_energy_edges(energy);
    let direct = detect_edges(&intens, 4, 2);
    assert_eq!(edges.width(), 4);
    assert_eq!(edges.height(), 2);
    assert_eq!(edges.row(0), &direct[0..4]);
    assert_eq!(edges.row(1), &direct[4..8]);
}

#[test]
fn energy_shape_mismatch() {
    assert!(matches!(rgba_to_energy(&[0; 7], 1, 2), Err(EnergyError::ShapeMismatch)));
}
