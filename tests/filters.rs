use imgproc::filters::{
    resize, sobel_edge_detection, threshold_binary, FilterError, ResizeAlgorithm, ResizeBackend,
};
use imgproc::image::Image;

fn sample_gray() -> Image {
    Image::gray(2, 2, vec![10, 20, 30, 40])
}

#[test]
fn test_resize_gray_nearest() {
    let img = Image::gray(2, 2, vec![10, 20, 30, 40]);
    let resized = resize(&img, 4, 4, ResizeBackend::Cpu, ResizeAlgorithm::Nearest).unwrap();
    assert_eq!(resized.width(), 4);
    assert_eq!(resized.height(), 4);
}

#[test]
fn test_resize_gray_bilinear_unimplemented() {
    let img = Image::gray(2, 2, vec![10, 20, 30, 40]);
    let r = resize(&img, 4, 4, ResizeBackend::Cpu, ResizeAlgorithm::Bilinear);
    assert!(matches!(r, Err(FilterError::Unsupported)));
}

#[test]
fn test_resize_gray_bicubic_unimplemented() {
    let img = Image::gray(2, 2, vec![10, 20, 30, 40]);
    let r = resize(&img, 4, 4, ResizeBackend::Cpu, ResizeAlgorithm::Bicubic);
    assert!(matches!(r, Err(FilterError::Unsupported)));
}

#[test]
fn test_resize_simd_unimplemented() {
    let img = Image::gray(2, 2, vec![10, 20, 30, 40]);
    let r = resize(&img, 4, 4, ResizeBackend::Simd, ResizeAlgorithm::Nearest);
    assert!(matches!(r, Err(FilterError::Unsupported)));
}

#[test]
fn test_resize_gpu_unimplemented() {
    let img = Image::gray(2, 2, vec![10, 20, 30, 40]);
    let r = resize(&img, 4, 4, ResizeBackend::Gpu, ResizeAlgorithm::Nearest);
    assert!(matches!(r, Err(FilterError::Unsupported)));
}

#[test]
fn every_unimplemented_pair_is_unsupported() {
    let img = sample_gray();
    let backends = [ResizeBackend::Cpu, ResizeBackend::Simd, ResizeBackend::Gpu];
    let algorithms = [
        ResizeAlgorithm::Nearest,
        ResizeAlgorithm::Bilinear,
        ResizeAlgorithm::Bicubic,
    ];
    for b in backends {
        for a in algorithms {
            let r = resize(&img, 3, 3, b, a);
            if b == ResizeBackend::Cpu && a == ResizeAlgorithm::Nearest {
                assert!(r.is_ok());
            } else {
                assert!(matches!(r, Err(FilterError::Unsupported)));
            }
        }
    }
}

#[test]
fn nearest_upscale_by_two_replicates_blocks() {
    let out = resize(&sample_gray(), 4, 4, ResizeBackend::Cpu, ResizeAlgorithm::Nearest).unwrap();
    assert_eq!(
        out.data(),
        &vec![10, 10, 20, 20, 10, 10, 20, 20, 30, 30, 40, 40, 30, 30, 40, 40]
    );
}

#[test]
fn nearest_same_size_is_identity() {
    let img = Image::rgb(2, 1, vec![1, 2, 3, 4, 5, 6]);
    let out = resize(&img, 2, 1, ResizeBackend::Cpu, ResizeAlgorithm::Nearest).unwrap();
    assert!(matches!(out, Image::Rgb { width: 2, height: 1, .. }));
    assert_eq!(out.data(), &vec![1, 2, 3, 4, 5, 6]);
}

#[test]
fn nearest_rgb_upscale_copies_three_bytes() {
    let img = Image::rgb(1, 1, vec![7, 8, 9]);
    let out = resize(&img, 2, 1, ResizeBackend::Cpu, ResizeAlgorithm::Nearest).unwrap();
    assert_eq!(out.data(), &vec![7, 8, 9, 7, 8, 9]);
}

#[test]
fn nearest_downscale_uses_floor_mapping() {
    let img = Image::gray(3, 1, vec![1, 2, 3]);
    let out = resize(&img, 2, 1, ResizeBackend::Cpu, ResizeAlgorithm::Nearest).unwrap();
    // src_x = x * 3 / 2: 0 and 1
    assert_eq!(out.data(), &vec![1, 2]);
}

#[test]
fn nearest_to_zero_size_is_empty() {
    let out = resize(&sample_gray(), 0, 3, ResizeBackend::Cpu, ResizeAlgorithm::Nearest).unwrap();
    assert_eq!(out.width(), 0);
    assert_eq!(out.height(), 3);
    assert!(out.data().is_empty());
}

#[test]
fn test_sobel_edge_detection_on_simple_image() {
    let input = Image::gray(3, 3, vec![0, 0, 0, 0, 255, 255, 0, 0, 0]);
    let output = sobel_edge_detection(&input).unwrap();

    if let Image::Gray { data, .. } = output {
        assert!(data[4] > 200, "Center pixel expected to have strong edge");
    } else {
        assert!(false, "Output image is not grayscale");
    }
}

#[test]
fn sobel_exact_values() {
    let input = Image::gray(3, 3, vec![0, 0, 0, 0, 255, 255, 0, 0, 0]);
    let out = sobel_edge_detection(&input).unwrap();
    // center: sx = 2*255 = 510, capped at 255
    assert_eq!(out.data()[4], 255);
    let small = Image::gray(3, 1, vec![0, 10, 20]);
    let out = sobel_edge_detection(&small).unwrap();
    // x=1: sx = -2*0 + 2*20 = 40, sy = 0
    assert_eq!(out.data(), &vec![20, 40, 20]);
}

#[test]
fn sobel_uniform_interior_is_zero() {
    let img = Image::gray(3, 3, vec![10; 9]);
    let out = sobel_edge_detection(&img).unwrap();
    assert_eq!(out.data()[4], 0);
    // border taps outside the image are skipped: the corner sees 3*10 + 3*10
    assert_eq!(out.data()[0], 60);
    let black = Image::gray(4, 2, vec![0; 8]);
    let out = sobel_edge_detection(&black).unwrap();
    assert_eq!(out.data(), &vec![0; 8]);
}

#[test]
fn sobel_on_empty_image_is_empty() {
    let out = sobel_edge_detection(&Image::gray(0, 0, vec![])).unwrap();
    assert_eq!(out.width(), 0);
    assert!(out.data().is_empty());
}

#[test]
fn test_threshold_binary() {
    let img = Image::gray(2, 2, vec![10, 200, 30, 250]);
    let out = threshold_binary(&img, 100, 255).unwrap();
    assert_eq!(out.data(), &vec![0, 255, 0, 255]);
}

#[test]
fn threshold_is_strict_and_keeps_shape() {
    let img = Image::gray(3, 1, vec![99, 100, 101]);
    let out = threshold_binary(&img, 100, 7).unwrap();
    assert_eq!(out.data(), &vec![0, 0, 7]);
    assert_eq!(out.width(), 3);
    assert_eq!(out.height(), 1);
}

#[test]
fn gray_only_filters_refuse_rgb() {
    let img = Image::rgb(1, 1, vec![1, 2, 3]);
    assert!(matches!(sobel_edge_detection(&img), Err(FilterError::InvalidOperation)));
    assert!(matches!(threshold_binary(&img, 0, 255), Err(FilterError::InvalidOperation)));
}
