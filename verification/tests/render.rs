use raytrust::render::render;
use std::cell::RefCell;

#[test]
fn image_rows_hold_the_sample_rows_in_reverse() {
    let image = render(3, 2, |x: usize, y: usize| (x, y), |_: usize| ());
    assert_eq!(image.width(), 3);
    assert_eq!(image.height(), 2);
    assert_eq!(image.index(0), vec![(0, 1), (1, 1), (2, 1)]);
    assert_eq!(image.index(1), vec![(0, 0), (1, 0), (2, 0)]);
}

#[test]
fn sample_rows_are_rendered_from_the_bottom_up() {
    let order: RefCell<Vec<(usize, usize)>> = RefCell::new(Vec::new());
    render(
        2,
        3,
        |x: usize, y: usize| {
            order.borrow_mut().push((x, y));
            0u8
        },
        |_: usize| (),
    );
    assert_eq!(
        *order.borrow(),
        vec![(0, 0), (1, 0), (0, 1), (1, 1), (0, 2), (1, 2)]
    );
}

#[test]
fn render_reports_each_finished_row() {
    let rows: RefCell<Vec<usize>> = RefCell::new(Vec::new());
    render(4, 3, |_: usize, _: usize| 0u8, |row: usize| rows.borrow_mut().push(row));
    assert_eq!(*rows.borrow(), vec![1, 2, 3]);
}

#[test]
fn render_of_a_single_pixel() {
    let image = render(1, 1, |x: usize, y: usize| 100 * x + y + 7, |_: usize| ());
    assert_eq!(image.iter(), vec![&[7usize][..]]);
}

#[test]
fn rendering_twice_without_randomness_gives_the_same_image() {
    let shade = |x: usize, y: usize| (31 * x + 17 * y) % 256;
    let first = render(5, 4, shade, |_: usize| ());
    let second = render(5, 4, shade, |_: usize| ());
    assert_eq!(first.iter(), second.iter());
    assert_eq!(first.get(0, 0), (17 * 3) % 256);
    assert_eq!(first.get(3, 4), 31 * 4);
}
