use raytrust::scene::{nearer, nearest, not_a_number};
use std::ops::Range;

type Triple = (f32, f32, f32);

fn dot(a: Triple, b: Triple) -> f32 {
    a.0 * b.0 + a.1 * b.1 + a.2 * b.2
}

fn minus(a: Triple, b: Triple) -> Triple {
    (a.0 - b.0, a.1 - b.1, a.2 - b.2)
}

fn along(origin: Triple, direction: Triple, distance: f32) -> Triple {
    (
        origin.0 + distance * direction.0,
        origin.1 + distance * direction.1,
        origin.2 + distance * direction.2,
    )
}

/// The points where a ray meets a sphere, for the roots inside `filter`.
fn sphere_hits(
    origin: Triple,
    direction: Triple,
    center: Triple,
    radius: f32,
    filter: Range<f32>,
) -> Vec<Triple> {
    let offset = minus(origin, center);
    let a = dot(direction, direction);
    let b = dot(offset, direction);
    let c = dot(offset, offset) - radius * radius;
    let root = (b * b - a * c).sqrt();
    [(-b - root) / a, (-b + root) / a]
        .into_iter()
        .filter(|distance| filter.contains(distance))
        .map(|distance| along(origin, direction, distance))
        .collect()
}

/// The nearest point at which a ray meets one of the spheres.
fn intersects(
    origin: Triple,
    direction: Triple,
    spheres: &[(Triple, f32)],
    filter: Range<f32>,
) -> Option<Triple> {
    let points: Vec<Triple> = spheres
        .iter()
        .flat_map(|(center, radius)| sphere_hits(origin, direction, *center, *radius, filter.clone()))
        .collect();
    let distances: Vec<u32> = points
        .iter()
        .map(|point| {
            let span = minus(*point, origin);
            dot(span, span).sqrt().to_bits()
        })
        .collect();
    nearest(&distances).map(|index| points[index])
}

fn bits(values: &[f32]) -> Vec<u32> {
    values.iter().map(|value| value.to_bits()).collect()
}

const SAMPLES: [f32; 20] = [
    f32::NEG_INFINITY,
    f32::MIN,
    -3.0,
    -1.0,
    -f32::MIN_POSITIVE,
    -1.0e-45,
    -0.0,
    0.0,
    1.0e-45,
    1.0e-40,
    f32::MIN_POSITIVE,
    0.001,
    0.5,
    1.0,
    1.0000001,
    3.0,
    16777216.0,
    f32::MAX,
    f32::INFINITY,
    f32::NAN,
];

#[test]
fn scene_test_intersection_filter() {
    let spheres = [((0.0, 0.0, 2.0), 1.0)];
    let origin = (0.0, 0.0, 0.0);
    let direction = (0.0, 0.0, 1.0);

    assert!(intersects(origin, direction, &spheres, 0.0..f32::INFINITY).is_some());
    assert!(intersects(origin, direction, &spheres, 0.0..0.5).is_none());
    assert!(intersects(origin, direction, &spheres, 1.5..2.0).is_none());
}

#[test]
fn test_multiple_objects() {
    let spheres = [((0.0, 0.0, 2.0), 1.0), ((0.0, 0.0, 4.0), 1.0)];
    let origin = (0.0, 0.0, 0.0);
    let direction = (0.0, 0.0, 1.0);

    assert_eq!(
        intersects(origin, direction, &spheres, 0.0..f32::INFINITY),
        Some((0.0, 0.0, 1.0))
    );
    assert_eq!(
        intersects(origin, direction, &spheres, 2.0..f32::INFINITY),
        Some((0.0, 0.0, 3.0))
    );
}

#[test]
fn nearest_does_not_depend_on_the_order_of_the_spheres() {
    let forward = [((0.0, 0.0, 2.0), 1.0), ((0.0, 0.0, 4.0), 1.0)];
    let backward = [((0.0, 0.0, 4.0), 1.0), ((0.0, 0.0, 2.0), 1.0)];
    let origin = (0.0, 0.0, 0.0);
    let direction = (0.0, 0.0, 1.0);
    assert_eq!(
        intersects(origin, direction, &forward, 0.0..f32::INFINITY),
        intersects(origin, direction, &backward, 0.0..f32::INFINITY)
    );
}

#[test]
fn nearest_of_nothing_is_none() {
    assert_eq!(nearest(&[]), None);
}

#[test]
fn nearest_picks_the_least_distance() {
    assert_eq!(nearest(&bits(&[3.0, 1.0, 5.0])), Some(1));
    assert_eq!(nearest(&bits(&[1.0, 3.0, 3.0, 5.0])), Some(0));
    assert_eq!(nearest(&bits(&[3.0, 3.0, 5.0])), Some(0));
    assert_eq!(nearest(&bits(&[7.5])), Some(0));
    assert_eq!(nearest(&bits(&[f32::INFINITY, f32::MAX])), Some(1));
    assert_eq!(nearest(&bits(&[0.002, 0.0011, 1.0e-40, 1.0e-45])), Some(3));
    assert_eq!(nearest(&bits(&[1.0, -1.0, f32::NEG_INFINITY, -3.0])), Some(2));
}

#[test]
fn nearest_keeps_the_first_of_equal_distances() {
    assert_eq!(nearest(&bits(&[2.0, 1.0, 1.0, 2.0])), Some(1));
    assert_eq!(nearest(&bits(&[0.0, -0.0])), Some(0));
    assert_eq!(nearest(&bits(&[-0.0, 0.0])), Some(0));
    assert_eq!(nearest(&bits(&[f32::INFINITY, f32::INFINITY])), Some(0));
}

#[test]
fn nearest_never_picks_what_is_not_a_number() {
    assert_eq!(nearest(&bits(&[f32::NAN])), None);
    assert_eq!(nearest(&bits(&[f32::NAN, -f32::NAN, f32::NAN])), None);
    assert_eq!(nearest(&bits(&[f32::NAN, 4.0])), Some(1));
    assert_eq!(nearest(&bits(&[4.0, f32::NAN])), Some(0));
    assert_eq!(nearest(&bits(&[f32::NAN, f32::INFINITY, f32::NAN])), Some(1));
    assert_eq!(nearest(&[0x7f80_0001, 0xffff_ffff, 0x7fc0_0000, 0xff80_0001]), None);
    assert_eq!(nearest(&[0x7f80_0001, 0x7f80_0000, 0x7f7f_ffff]), Some(2));
}

#[test]
fn not_a_number_agrees_with_the_float() {
    for value in SAMPLES {
        assert_eq!(not_a_number(value.to_bits()), value.is_nan());
    }
    assert!(not_a_number(0x7f80_0001));
    assert!(not_a_number(0xffc0_0000));
    assert!(!not_a_number(0x7f80_0000));
    assert!(!not_a_number(0xff80_0000));
    assert!(!not_a_number(0x7f7f_ffff));
}

#[test]
fn nearer_agrees_with_the_float_order() {
    for a in SAMPLES {
        for b in SAMPLES {
            let expected = !a.is_nan() && (b.is_nan() || a < b);
            assert_eq!(nearer(a.to_bits(), b.to_bits()), expected, "{} {}", a, b);
        }
    }
}

#[test]
fn nearest_agrees_with_the_least_float() {
    let mut state: u32 = 0x2545_f491;
    for round in 0..200usize {
        let mut values: Vec<f32> = Vec::new();
        for _ in 0..(round % 7) {
            state ^= state << 13;
            state ^= state >> 17;
            state ^= state << 5;
            values.push(SAMPLES[(state % 20) as usize]);
        }
        let mut expected: Option<usize> = None;
        for (index, value) in values.iter().enumerate() {
            if value.is_nan() {
                continue;
            }
            match expected {
                Some(best) if values[best] <= *value => {}
                _ => expected = Some(index),
            }
        }
        assert_eq!(nearest(&bits(&values)), expected, "{:?}", values);
    }
}
