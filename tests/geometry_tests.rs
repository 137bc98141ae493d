use ledwall::geometry::{resize_image_with_cropping, transform_frame, GeometryError, ResizeAlgorithm};

fn gradient(w: usize, h: usize) -> Vec<u8> {
    (0..w * h * 3).map(|i| (i * 7 % 256) as u8).collect()
}

#[test]
fn same_size_is_a_copy() {
    let src = gradient(8, 4);
    let out = resize_image_with_cropping(src.clone(), 8, 4, 8, 4, ResizeAlgorithm::Nearest).unwrap();
    assert_eq!(out, src);
}

#[test]
fn nearest_halving_picks_every_other_pixel() {
    let src = gradient(8, 4);
    let out = resize_image_with_cropping(src.clone(), 8, 4, 4, 2, ResizeAlgorithm::Nearest).unwrap();
    assert_eq!(out.len(), 4 * 2 * 3);
    for y in 0..2 {
        for x in 0..4 {
            let s = 3 * ((2 * y + 1) * 8 + 2 * x + 1);
            let d = 3 * (y * 4 + x);
            assert_eq!(&out[d..d + 3], &src[s..s + 3]);
        }
    }
}

#[test]
fn centred_crop_to_square() {
    let mut src = vec![0u8; 6 * 2 * 3];
    for y in 0..2 {
        for x in 2..4 {
            let i = 3 * (y * 6 + x);
            src[i..i + 3].copy_from_slice(&[9, 9, 9]);
        }
    }
    let out = resize_image_with_cropping(src, 6, 2, 2, 2, ResizeAlgorithm::Nearest).unwrap();
    assert_eq!(out, vec![9u8; 12]);
}

#[test]
fn lanczos_keeps_a_flat_image_flat() {
    let src = vec![100u8; 16 * 16 * 3];
    let out = transform_frame(src, 16, 16, 5, 5, 5, 5, ResizeAlgorithm::Lanczos3, false).unwrap();
    assert_eq!(out.len(), 75);
    assert!(out.iter().all(|&b| (99..=101).contains(&b)));
}

#[test]
fn linear_light_round_trip_keeps_black_and_white() {
    let mut src = vec![0u8; 4 * 4 * 3];
    src[..24].fill(255);
    let out = transform_frame(src.clone(), 4, 4, 4, 4, 10, 10, ResizeAlgorithm::Nearest, true).unwrap();
    assert_eq!(out, src);
}

#[test]
fn linear_light_changes_mid_grey_average() {
    let mut src = vec![0u8; 2 * 2 * 3];
    src[..6].fill(255);
    let plain = transform_frame(src.clone(), 2, 2, 1, 1, 1, 1, ResizeAlgorithm::Lanczos3, false).unwrap();
    let linear = transform_frame(src, 2, 2, 1, 1, 1, 1, ResizeAlgorithm::Lanczos3, true).unwrap();
    assert!(linear[0] > plain[0]);
}

#[test]
fn transform_errors() {
    let src = gradient(4, 4);
    let t = |src: Vec<u8>, sw, sh, dw, dh, mw, mh| transform_frame(src, sw, sh, dw, dh, mw, mh, ResizeAlgorithm::Nearest, false);
    assert_eq!(t(src.clone(), 4, 4, 0, 2, 8, 8), Err(GeometryError::ZeroDimension));
    assert_eq!(t(src.clone(), 4, 4, 2, 0, 8, 8), Err(GeometryError::ZeroDimension));
    assert_eq!(t(src.clone(), 4, 4, 9, 2, 8, 8), Err(GeometryError::ExceedsDisplay));
    assert_eq!(t(src.clone(), 4, 4, 2, 9, 8, 8), Err(GeometryError::ExceedsDisplay));
    assert_eq!(t(src.clone(), 0, 4, 2, 2, 8, 8), Err(GeometryError::BadSource));
    assert_eq!(t(src.clone(), 4, 3, 2, 2, 8, 8), Err(GeometryError::BadSource));
    assert_eq!(t(src.clone(), 16385, 1, 2, 2, 8, 8), Err(GeometryError::TooLarge));
    assert_eq!(t(src.clone(), 4, 4, 16385, 2, 20000, 8), Err(GeometryError::TooLarge));
    assert_eq!(t(vec![0u8; 3], 1, 1, 1, 3, 8, 8), Err(GeometryError::DegenerateCrop));
}

#[test]
fn linear_light_round_trip_keeps_flat_mid_grey() {
    let src = vec![128u8; 4 * 4 * 3];
    let out = transform_frame(src, 4, 4, 2, 2, 2, 2, ResizeAlgorithm::Lanczos3, true).unwrap();
    assert_eq!(out.len(), 12);
    assert!(out.iter().all(|&b| (125..=131).contains(&b)), "{:?}", out);
}
