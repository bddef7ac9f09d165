use glazer::raster::{
    barycentric_coordinates, barycentric_in_range, rast_quad_colored, rast_triangle_colored,
    raster_in_range, triangle_fragments,
};

fn filled(width: usize, height: usize, v: [i32; 6]) -> Vec<u8> {
    let mut pixels = vec![0u8; width * height];
    rast_triangle_colored(&mut pixels, width, height, v[0], v[1], v[2], v[3], v[4], v[5], 1);
    pixels
}

fn drawn(pixels: &[u8], width: usize) -> Vec<(usize, usize)> {
    pixels
        .iter()
        .enumerate()
        .filter(|(_, p)| **p == 1)
        .map(|(i, _)| (i % width, i / width))
        .collect()
}

#[test]
fn barycentric_of_points() {
    assert_eq!(barycentric_coordinates(2, 2, 1, 1, 6, 1, 1, 6), Some((15, 5, 25)));
    assert_eq!(barycentric_coordinates(1, 1, 1, 1, 6, 1, 1, 6), Some((25, 0, 25)));
    assert_eq!(barycentric_coordinates(0, 0, 1, 1, 6, 1, 1, 6), None);
    // degenerate: the vertices are on one line
    assert_eq!(barycentric_coordinates(3, 3, 0, 0, 2, 2, 4, 4), None);
    // reversed winding gives negated coordinates
    assert_eq!(barycentric_coordinates(2, 2, 6, 1, 1, 1, 1, 6), Some((-5, -15, -25)));
}

#[test]
fn right_triangle_is_filled_without_its_right_and_bottom_box_edges() {
    let pixels = filled(8, 8, [1, 1, 6, 1, 1, 6]);
    let mut expected = vec![];
    for y in 1..=5usize {
        for x in 1..=5usize {
            if x + y <= 7 {
                expected.push((x, y));
            }
        }
    }
    expected.sort_by_key(|(x, y)| (*y, *x));
    assert_eq!(drawn(&pixels, 8), expected);
    assert_eq!(expected.len(), 19);
    // the vertex (6, 1) lies on the excluded right edge of the box
    assert_eq!(pixels[1 * 8 + 6], 0);
}

#[test]
fn other_pixels_are_left_alone() {
    let mut pixels = vec![9u8; 64];
    rast_triangle_colored(&mut pixels, 8, 8, 1, 1, 6, 1, 1, 6, 1);
    assert_eq!(pixels.iter().filter(|p| **p == 9).count(), 64 - 19);
}

#[test]
fn vertex_order_does_not_matter() {
    let a = (1, 1);
    let b = (6, 2);
    let c = (3, 7);
    let reference = filled(8, 8, [a.0, a.1, b.0, b.1, c.0, c.1]);
    for [p, q, r] in [[a, c, b], [b, a, c], [b, c, a], [c, a, b], [c, b, a]] {
        assert_eq!(filled(8, 8, [p.0, p.1, q.0, q.1, r.0, r.1]), reference);
    }
}

#[test]
fn filling_twice_changes_nothing() {
    let mut pixels = filled(8, 8, [0, 0, 7, 3, 2, 7]);
    let once = pixels.clone();
    rast_triangle_colored(&mut pixels, 8, 8, 0, 0, 7, 3, 2, 7, 1);
    assert_eq!(pixels, once);
}

#[test]
fn degenerate_triangle_draws_nothing() {
    let pixels = filled(8, 8, [0, 0, 3, 3, 6, 6]);
    assert!(pixels.iter().all(|p| *p == 0));
}

#[test]
fn triangle_outside_the_image_draws_nothing() {
    let pixels = filled(8, 8, [-10, -10, -2, -10, -10, -2]);
    assert!(pixels.iter().all(|p| *p == 0));
    let pixels = filled(8, 8, [9, 9, 20, 9, 9, 20]);
    assert!(pixels.iter().all(|p| *p == 0));
}

#[test]
fn quad_is_the_union_of_its_two_triangles() {
    let mut pixels = vec![0u8; 64];
    rast_quad_colored(&mut pixels, 8, 8, 1, 1, 6, 1, 6, 6, 1, 6, 1);
    let indices: Vec<usize> = pixels.iter().enumerate().filter(|(_, p)| **p == 1).map(|(i, _)| i).collect();
    let mut expected = vec![];
    for y in 1..=5usize {
        for x in 1..=5usize {
            expected.push(y * 8 + x);
        }
    }
    assert_eq!(indices, expected);
}

#[test]
fn fragments_come_row_by_row_with_their_coordinates() {
    let frags = triangle_fragments(8, 8, 1, 1, 6, 1, 1, 6);
    assert_eq!(frags.len(), 19);
    for pair in frags.windows(2) {
        assert!(pair[0].index < pair[1].index);
    }
    for f in &frags {
        assert_eq!(f.index, f.y as usize * 8 + f.x as usize);
    }
    let first = frags[0];
    assert_eq!((first.x, first.y, first.u, first.v, first.d), (1, 1, 25, 0, 25));
    let second = frags[1];
    assert_eq!((second.x, second.y, second.u, second.v, second.d), (2, 1, 20, 5, 25));
}

#[test]
fn overflow_checks() {
    assert!(barycentric_in_range(2, 2, 1, 1, 6, 1, 1, 6));
    assert!(!barycentric_in_range(0, 0, i32::MAX, 0, 0, i32::MAX, i32::MIN, i32::MIN));
    assert!(raster_in_range(8, 8, 1, 1, 6, 1, 1, 6));
    assert!(!raster_in_range(8, 8, -2_000_000_000, 0, 2_000_000_000, 0, 0, 5));
    assert!(!raster_in_range(usize::MAX, 8, 1, 1, 6, 1, 1, 6));
}

#[test]
fn fills_commute() {
    let mut a = vec![0u8; 64];
    rast_triangle_colored(&mut a, 8, 8, 0, 0, 6, 0, 0, 6, 1);
    rast_triangle_colored(&mut a, 8, 8, 2, 2, 8, 2, 2, 8, 1);
    let mut b = vec![0u8; 64];
    rast_triangle_colored(&mut b, 8, 8, 2, 2, 8, 2, 2, 8, 1);
    rast_triangle_colored(&mut b, 8, 8, 0, 0, 6, 0, 0, 6, 1);
    assert_eq!(a, b);
}
