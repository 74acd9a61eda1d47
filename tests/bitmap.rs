use raytracer::bitmap::Bitmap;

fn header(size: u32, width: u32, height: i32, image: u32) -> Vec<u8> {
    let mut h = vec![0x42, 0x4D];
    h.extend_from_slice(&size.to_le_bytes());
    h.extend_from_slice(&[0, 0, 0, 0, 0x36, 0, 0, 0, 0x28, 0, 0, 0]);
    h.extend_from_slice(&width.to_le_bytes());
    h.extend_from_slice(&height.to_le_bytes());
    h.extend_from_slice(&[1, 0, 0x18, 0, 0, 0, 0, 0]);
    h.extend_from_slice(&image.to_le_bytes());
    h.extend_from_slice(&[0x13, 0x0B, 0, 0, 0x13, 0x0B, 0, 0, 0, 0, 0, 0, 0, 0, 0, 0]);
    h
}

#[test]
fn new_keeps_data_and_width() {
    let b = Bitmap::new(vec![[1, 2, 3], [4, 5, 6]], 7);
    assert_eq!(b.data(), &[[1, 2, 3], [4, 5, 6]]);
    assert_eq!(b.width(), 7);
}

#[test]
fn push_pixel_appends() {
    let mut b = Bitmap::new(vec![[1, 2, 3]], 2);
    b.push_pixel([9, 8, 7]);
    assert_eq!(b.data(), &[[1, 2, 3], [9, 8, 7]]);
    assert_eq!(b.width(), 2);
}

#[test]
fn push_slice_appends_in_order() {
    let mut b = Bitmap::new(vec![[0, 0, 0]], 3);
    b.push_slice(&[[1, 1, 1], [2, 2, 2]]);
    b.push_slice(&[]);
    assert_eq!(b.data(), &[[0, 0, 0], [1, 1, 1], [2, 2, 2]]);
}

#[test]
fn output_two_by_two() {
    let b = Bitmap::new(vec![[1, 2, 3], [4, 5, 6], [7, 8, 9], [10, 11, 12]], 2);
    let bytes = b.output().unwrap();
    let mut expected = header(70, 2, -2, 16);
    assert_eq!(expected.len(), 54);
    expected.extend_from_slice(&[3, 2, 1, 6, 5, 4, 0, 0, 9, 8, 7, 12, 11, 10, 0, 0]);
    assert_eq!(bytes, expected);
}

#[test]
fn output_header_exact_bytes() {
    let b = Bitmap::new(vec![[0, 0, 0]; 4], 4);
    let bytes = b.output().unwrap();
    assert_eq!(
        &bytes[..54],
        &[
            0x42, 0x4D, 0x42, 0x00, 0x00, 0x00, 0x00, 0x00, 0x00, 0x00, 0x36, 0x00, 0x00, 0x00,
            0x28, 0x00, 0x00, 0x00, 0x04, 0x00, 0x00, 0x00, 0xFF, 0xFF, 0xFF, 0xFF, 0x01, 0x00,
            0x18, 0x00, 0x00, 0x00, 0x00, 0x00, 0x0C, 0x00, 0x00, 0x00, 0x13, 0x0B, 0x00, 0x00,
            0x13, 0x0B, 0x00, 0x00, 0x00, 0x00, 0x00, 0x00, 0x00, 0x00, 0x00, 0x00,
        ][..]
    );
    // A width of four needs no padding.
    assert_eq!(bytes.len(), 54 + 12);
}

#[test]
fn output_width_one_pads_three_bytes() {
    let b = Bitmap::new(vec![[10, 20, 30]], 1);
    let bytes = b.output().unwrap();
    let mut expected = header(58, 1, -1, 4);
    expected.extend_from_slice(&[30, 20, 10, 0, 0, 0]);
    assert_eq!(bytes, expected);
}

#[test]
fn output_short_last_row() {
    let b = Bitmap::new(vec![[1, 2, 3], [4, 5, 6], [7, 8, 9]], 2);
    let bytes = b.output().unwrap();
    // Two rows are stored, one of them complete.
    let mut expected = header(70, 2, -1, 16);
    expected.extend_from_slice(&[3, 2, 1, 6, 5, 4, 0, 0, 9, 8, 7, 0, 0]);
    assert_eq!(bytes, expected);
}

#[test]
fn output_empty_image() {
    let b = Bitmap::new(vec![], 4);
    assert_eq!(b.output().unwrap(), header(54, 4, 0, 0));
}

#[test]
fn output_zero_width_is_none() {
    let b = Bitmap::new(vec![[1, 2, 3]], 0);
    assert!(b.output().is_none());
}

#[test]
fn output_too_wide_is_none() {
    let b = Bitmap::new(vec![], 0x8000_0000);
    assert!(b.output().is_none());
}

#[test]
fn output_too_large_is_none() {
    // One row of 0x4000_0000 pixels takes 0xC000_0000 bytes: over the 32-bit size field.
    let b = Bitmap::new(vec![[0, 0, 0]], 0x4000_0000);
    assert!(b.output().is_none());
    // With no rows only the header is stored, and it fits.
    let empty = Bitmap::new(vec![], 0x4000_0000);
    assert_eq!(empty.output().unwrap(), header(54, 0x4000_0000, 0, 0));
}

#[test]
fn output_largest_row_that_fits() {
    // One row of 0x2000_0000 pixels takes 0x6000_0000 bytes, which still fits; the
    // short row holds a single pixel.
    let b = Bitmap::new(vec![[1, 2, 3]], 0x2000_0000);
    let mut expected = header(0x6000_0000 + 54, 0x2000_0000, 0, 0x6000_0000);
    expected.extend_from_slice(&[3, 2, 1]);
    assert_eq!(b.output().unwrap(), expected);
}
