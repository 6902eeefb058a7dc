use imgproc::image::Image;

#[test]
fn test_gray_image() {
    let w = 4;
    let h = 3;
    let data = vec![1u8; w * h];
    let img = Image::gray(w, h, data.clone());
    assert_eq!(img.width(), w);
    assert_eq!(img.height(), h);
    assert_eq!(img.data(), &data);
}

#[test]
fn test_rgb_image() {
    let w = 2;
    let h = 2;
    let data = vec![255u8, 0, 0, 0, 255, 0, 0, 0, 255, 255, 255, 0];
    let img = Image::rgb(w, h, data.clone());
    assert_eq!(img.width(), w);
    assert_eq!(img.height(), h);
    assert_eq!(img.data(), &data);
}

#[test]
fn zero_sized_image_is_valid() {
    let img = Image::gray(0, 5, vec![]);
    assert_eq!(img.width(), 0);
    assert_eq!(img.height(), 5);
    assert!(img.data().is_empty());
}

#[test]
fn data_mut_edits_in_place_and_keeps_shape() {
    let mut img = Image::rgb(1, 1, vec![1, 2, 3]);
    img.data_mut()[1] = 9;
    assert_eq!(img.data(), &vec![1, 9, 3]);
    assert!(matches!(img, Image::Rgb { width: 1, height: 1, .. }));
}
