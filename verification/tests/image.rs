use raytrust::image::Image;

#[derive(Debug, Clone, Copy, PartialEq, Default)]
struct Pixel {
    r: f32,
    g: f32,
    b: f32,
}

#[test]
fn test_image_size_accessors() {
    let image: Image<Pixel> = Image::new(32, 8);
    assert_eq!(image.width(), 32);
    assert_eq!(image.height(), 8);
}

#[test]
fn test_image_index() {
    let gray = |v: f32| Pixel { r: v, g: v, b: v };
    let mut image: Image<Pixel> = Image::new(2, 2);
    for idx in 0..4usize {
        image.set(idx / 2, idx % 2, gray((idx as f32) / 10.0));
    }
    assert_eq!(image.index(0), vec![gray(0.0), gray(0.1)]);
    assert_eq!(image.index(1), vec![gray(0.2), gray(0.3)]);
}

#[test]
fn test_image_iter() {
    let image: Image<Pixel> = Image::new(32, 8);
    assert_eq!(image.iter().len(), image.height());
    assert!(image.iter().iter().all(|row| row.len() == image.width()));
}

#[test]
fn test_image_into_iter() {
    let image: Image<Pixel> = Image::new(32, 8);
    for row in image.iter() {
        for pixel in row {
            assert_eq!(*pixel, Pixel::default());
        }
    }
}

#[test]
fn new_image_is_filled_with_the_default_pixel() {
    let image: Image<u8> = Image::new(3, 2);
    for row in 0..2usize {
        for col in 0..3usize {
            assert_eq!(image.get(row, col), 0);
        }
    }
}

#[test]
fn set_changes_one_cell_only() {
    let mut image: Image<u32> = Image::new(3, 2);
    image.set(1, 2, 7);
    for row in 0..2usize {
        for col in 0..3usize {
            let expected: u32 = if (row, col) == (1, 2) { 7 } else { 0 };
            assert_eq!(image.get(row, col), expected);
        }
    }
    assert_eq!(image.width(), 3);
    assert_eq!(image.height(), 2);
}

#[test]
fn cells_are_stored_row_by_row() {
    let mut image: Image<usize> = Image::new(4, 3);
    for row in 0..3usize {
        for col in 0..4usize {
            image.set(row, col, 10 * row + col);
        }
    }
    assert_eq!(image.index(0), vec![0, 1, 2, 3]);
    assert_eq!(image.index(1), vec![10, 11, 12, 13]);
    assert_eq!(image.index(2), vec![20, 21, 22, 23]);
    let rows = image.iter();
    assert_eq!(rows.len(), 3);
    assert_eq!(rows[2], image.index(2));
    assert_eq!(image.get(2, 1), 21);
}

#[test]
fn single_cell_image() {
    let mut image: Image<i8> = Image::new(1, 1);
    assert_eq!(image.index(0), vec![0]);
    image.set(0, 0, -3);
    assert_eq!(image.iter(), vec![&[-3i8][..]]);
}
