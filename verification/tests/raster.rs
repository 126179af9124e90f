use h7cad::raster::{
    blank_screenshot, draw_circle, draw_cross, draw_line, put, Raster, SCREENSHOT_HEIGHT,
    SCREENSHOT_WIDTH,
};
use image::Rgb;

const BLACK: (u8, u8, u8) = (0, 0, 0);

fn painted(img: &Raster) -> Vec<(u32, u32)> {
    let mut out = Vec::new();
    for (x, y, p) in img.image.enumerate_pixels() {
        if *p != Rgb([255, 255, 255]) {
            out.push((x, y));
        }
    }
    out.sort();
    out
}

fn sorted(mut v: Vec<(u32, u32)>) -> Vec<(u32, u32)> {
    v.sort();
    v.dedup();
    v
}

#[test]
fn blank_screenshot_is_white_canvas_of_fixed_size() {
    let img = blank_screenshot();
    assert_eq!(img.image.dimensions(), (SCREENSHOT_WIDTH, SCREENSHOT_HEIGHT));
    assert_eq!((SCREENSHOT_WIDTH, SCREENSHOT_HEIGHT), (1600, 900));
    assert!(painted(&img).is_empty());
}

#[test]
fn put_paints_inside_and_ignores_outside() {
    let mut img = blank_screenshot();
    put(&mut img, 3, 4, (10, 20, 30));
    put(&mut img, -1, 4, BLACK);
    put(&mut img, 3, -7, BLACK);
    put(&mut img, 1600, 0, BLACK);
    put(&mut img, 0, 900, BLACK);
    assert_eq!(painted(&img), vec![(3, 4)]);
    assert_eq!(*img.image.get_pixel(3, 4), Rgb([10, 20, 30]));
}

#[test]
fn horizontal_line_covers_every_pixel_between_endpoints() {
    let mut img = blank_screenshot();
    draw_line(&mut img, 20, 5, 10, 5, BLACK);
    let expected: Vec<(u32, u32)> = (10..=20).map(|x| (x, 5)).collect();
    assert_eq!(painted(&img), expected);
}

#[test]
fn diagonal_line_is_one_pixel_per_step() {
    let mut img = blank_screenshot();
    draw_line(&mut img, 0, 0, 4, 4, BLACK);
    assert_eq!(painted(&img), vec![(0, 0), (1, 1), (2, 2), (3, 3), (4, 4)]);
}

#[test]
fn shallow_line_matches_bresenham() {
    let mut img = blank_screenshot();
    draw_line(&mut img, 0, 0, 6, 2, BLACK);
    assert_eq!(
        painted(&img),
        sorted(vec![(0, 0), (1, 0), (2, 1), (3, 1), (4, 1), (5, 2), (6, 2)])
    );
}

#[test]
fn steep_line_has_one_pixel_per_row_and_both_endpoints() {
    let mut img = blank_screenshot();
    draw_line(&mut img, 7, 30, 9, 10, BLACK);
    let px = painted(&img);
    assert_eq!(px.len(), 21);
    assert!(px.contains(&(7, 30)));
    assert!(px.contains(&(9, 10)));
    for y in 10..=30 {
        assert_eq!(px.iter().filter(|p| p.1 == y).count(), 1);
    }
}

#[test]
fn single_point_line_paints_one_pixel() {
    let mut img = blank_screenshot();
    draw_line(&mut img, 12, 13, 12, 13, BLACK);
    assert_eq!(painted(&img), vec![(12, 13)]);
}

#[test]
fn line_leaving_the_canvas_is_clipped() {
    let mut img = blank_screenshot();
    draw_line(&mut img, -5, 2, 3, 2, BLACK);
    assert_eq!(painted(&img), vec![(0, 2), (1, 2), (2, 2), (3, 2)]);
}

#[test]
fn circle_of_radius_zero_paints_centre() {
    let mut img = blank_screenshot();
    draw_circle(&mut img, 50, 60, 0, BLACK);
    assert_eq!(painted(&img), vec![(50, 60)]);
}

#[test]
fn circle_of_radius_one_paints_four_neighbours() {
    let mut img = blank_screenshot();
    draw_circle(&mut img, 50, 60, 1, BLACK);
    assert_eq!(painted(&img), vec![(49, 60), (50, 59), (50, 61), (51, 60)]);
}

#[test]
fn circle_of_radius_three_is_midpoint_ring() {
    let mut img = blank_screenshot();
    draw_circle(&mut img, 10, 10, 3, BLACK);
    let mut expected = Vec::new();
    for (x, y) in [(3i32, 0i32), (3, 1), (2, 2)] {
        for (a, b) in [(x, y), (y, x)] {
            for (sa, sb) in [(1, 1), (-1, 1), (1, -1), (-1, -1)] {
                expected.push(((10 + sa * a) as u32, (10 + sb * b) as u32));
            }
        }
    }
    assert_eq!(painted(&img), sorted(expected));
}

#[test]
fn circle_is_symmetric_about_its_centre() {
    let mut img = blank_screenshot();
    draw_circle(&mut img, 100, 100, 17, BLACK);
    let px = painted(&img);
    for &(x, y) in &px {
        let (dx, dy) = (x as i32 - 100, y as i32 - 100);
        for (a, b) in [(-dx, dy), (dx, -dy), (dy, dx)] {
            assert!(px.contains(&((100 + a) as u32, (100 + b) as u32)));
        }
    }
}

#[test]
fn cross_paints_both_arms() {
    let mut img = blank_screenshot();
    draw_cross(&mut img, 20, 20, 3, BLACK);
    let mut expected = Vec::new();
    for i in -3i32..=3 {
        expected.push(((20 + i) as u32, 20u32));
        expected.push((20u32, (20 + i) as u32));
    }
    assert_eq!(painted(&img), sorted(expected));
    assert_eq!(painted(&img).len(), 13);
}

#[test]
fn cross_with_negative_arm_paints_nothing() {
    let mut img = blank_screenshot();
    draw_cross(&mut img, 20, 20, -1, BLACK);
    assert!(painted(&img).is_empty());
}

#[test]
fn drawing_keeps_other_pixels_and_colours() {
    let mut img = blank_screenshot();
    put(&mut img, 0, 0, (1, 2, 3));
    draw_line(&mut img, 5, 5, 8, 5, (9, 9, 9));
    assert_eq!(*img.image.get_pixel(0, 0), Rgb([1, 2, 3]));
    assert_eq!(*img.image.get_pixel(6, 5), Rgb([9, 9, 9]));
    assert_eq!(*img.image.get_pixel(6, 6), Rgb([255, 255, 255]));
}

#[test]
fn circle_pixels_lie_within_half_a_pixel_of_the_circle() {
    for r in [1i32, 2, 5, 17, 40] {
        let mut img = blank_screenshot();
        draw_circle(&mut img, 100, 100, r, BLACK);
        for (x, y) in painted(&img) {
            let (dx, dy) = (x as i32 - 100, y as i32 - 100);
            let d2 = dx * dx + dy * dy;
            assert!(r * r - r < d2 && d2 <= r * r + r, "r={r} pixel=({x},{y})");
        }
    }
}

#[test]
fn line_has_one_pixel_per_unit_of_its_longer_span() {
    for (x1, y1) in [(9i32, 3i32), (3, 9), (-7, 7), (0, -5), (12, 0)] {
        let mut img = blank_screenshot();
        draw_line(&mut img, 50, 50, 50 + x1, 50 + y1, BLACK);
        let px = painted(&img);
        assert_eq!(px.len() as i32, x1.abs().max(y1.abs()) + 1);
        assert!(px.contains(&(50, 50)));
        assert!(px.contains(&((50 + x1) as u32, (50 + y1) as u32)));
    }
}
