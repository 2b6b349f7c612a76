use crab_tv::{
    barycentric_coords_2d, black, random_color, red, white, Canvas, Depth, Point, Rgba,
};

fn count_color(canvas: &Canvas, c: Rgba) -> usize {
    canvas.pixels().iter().filter(|p| **p == c).count()
}

fn depth(z: f32) -> Depth {
    Depth::from_bits(z.to_bits())
}

#[test]
fn new_canvas_is_clear_and_far() {
    let canvas = Canvas::new(4, 3);
    assert_eq!(canvas.width(), 4);
    assert_eq!(canvas.height(), 3);
    assert_eq!(canvas.pixels().len(), 12);
    assert_eq!(canvas.z_buffer().len(), 12);
    assert!(canvas.pixels().iter().all(|p| *p == Rgba::new(0, 0, 0, 0)));
    assert!(canvas
        .z_buffer()
        .iter()
        .all(|d| d.bits == f32::NEG_INFINITY.to_bits()));
}

#[test]
fn pixel_mut_writes_one_pixel() {
    let mut canvas = Canvas::new(5, 5);
    *canvas.pixel_mut(2, 3) = white();
    assert_eq!(canvas.pixel(2, 3), white());
    assert_eq!(canvas.pixels()[3 * 5 + 2], white());
    assert_eq!(count_color(&canvas, white()), 1);
    *canvas.z_buffer_at_mut(1, 1) = depth(4.5);
    assert_eq!(canvas.z_buffer_at(1, 1), depth(4.5));
}

#[test]
fn line_from_spec_scenario() {
    let mut canvas = Canvas::new(100, 100);
    canvas.line(Point::new(13, 20), Point::new(80, 40), white());
    assert_eq!(canvas.pixel(13, 20), white());
    assert_eq!(count_color(&canvas, white()), 67);
    // the far endpoint is left out; the last column drawn is 79
    assert_eq!(canvas.pixel(80, 40), Rgba::new(0, 0, 0, 0));
    assert_eq!(canvas.pixel(79, 40), white());
}

#[test]
fn line_steep_and_reversed_give_same_pixels() {
    let mut a = Canvas::new(100, 100);
    let mut b = Canvas::new(100, 100);
    a.line(Point::new(20, 13), Point::new(40, 80), red());
    b.line(Point::new(40, 80), Point::new(20, 13), red());
    assert_eq!(a.pixels(), b.pixels());
    assert_eq!(count_color(&a, red()), 67);
    let mut c = Canvas::new(100, 100);
    let mut d = Canvas::new(100, 100);
    c.line_fastest(80, 40, 13, 20, white());
    d.line_fastest(13, 20, 80, 40, white());
    assert_eq!(c.pixels(), d.pixels());
}

#[test]
fn diagonal_line_hits_the_diagonal() {
    let mut canvas = Canvas::new(60, 60);
    canvas.line(Point::new(0, 0), Point::new(50, 50), white());
    for k in 0..50 {
        assert_eq!(canvas.pixel(k, k), white());
    }
    assert_eq!(count_color(&canvas, white()), 50);
}

#[test]
fn triangle_from_spec_scenario() {
    let mut canvas = Canvas::new(200, 200);
    let t = [Point::new(10, 70), Point::new(50, 160), Point::new(70, 80)];
    canvas.triangle_barycentric(&t, red());
    assert_eq!(canvas.pixel(40, 100), red());
    assert_eq!(canvas.pixel(0, 0), Rgba::new(0, 0, 0, 0));
    // the vertices themselves are inside
    assert_eq!(canvas.pixel(10, 70), red());
    assert_eq!(canvas.pixel(50, 160), red());
    assert_eq!(canvas.pixel(70, 80), red());
}

#[test]
fn triangle_outside_leaves_canvas_unchanged() {
    let mut canvas = Canvas::new(50, 50);
    let before = canvas.pixels().to_vec();
    let t = [Point::new(-30, 5), Point::new(-1, 40), Point::new(-10, 20)];
    canvas.triangle_barycentric(&t, red());
    assert_eq!(canvas.pixels(), &before[..]);
    let t = [Point::new(60, 5), Point::new(70, 40), Point::new(55, 20)];
    canvas.triangle_barycentric(&t, red());
    assert_eq!(canvas.pixels(), &before[..]);
}

#[test]
fn degenerate_triangles_draw_nothing() {
    let mut canvas = Canvas::new(50, 50);
    canvas.triangle_barycentric(&[Point::new(7, 7), Point::new(7, 7), Point::new(7, 7)], red());
    canvas.triangle_barycentric(&[Point::new(1, 1), Point::new(5, 5), Point::new(9, 9)], red());
    assert_eq!(count_color(&canvas, red()), 0);
}

#[test]
fn small_triangle_fills_its_cells() {
    let mut canvas = Canvas::new(10, 10);
    canvas.triangle_barycentric(&[Point::new(2, 2), Point::new(3, 2), Point::new(2, 3)], red());
    assert_eq!(count_color(&canvas, red()), 3);
    assert_eq!(canvas.pixel(2, 2), red());
    assert_eq!(canvas.pixel(3, 2), red());
    assert_eq!(canvas.pixel(2, 3), red());
}

#[test]
fn barycentric_of_spec_scenario() {
    let t = [Point::new(0, 0), Point::new(10, 0), Point::new(0, 10)];
    let bc = barycentric_coords_2d(&t, Point::new(2, 3));
    assert_eq!(bc.denom, 100);
    assert_eq!((bc.alpha, bc.beta, bc.gamma), (50, 20, 30));
    let bc = barycentric_coords_2d(&t, Point::new(-1, -1));
    assert!(bc.alpha < 0 || bc.beta < 0 || bc.gamma < 0);
    assert_eq!(bc.alpha + bc.beta + bc.gamma, bc.denom);
}

#[test]
fn barycentric_of_degenerate_triangle() {
    let t = [Point::new(1, 1), Point::new(2, 2), Point::new(3, 3)];
    let bc = barycentric_coords_2d(&t, Point::new(2, 2));
    assert_eq!((bc.alpha, bc.beta, bc.gamma, bc.denom), (-1, 1, 1, 1));
}

#[test]
fn barycentric_sums_to_one_on_either_winding() {
    let t = [Point::new(0, 0), Point::new(0, 10), Point::new(10, 0)];
    let bc = barycentric_coords_2d(&t, Point::new(2, 3));
    assert!(bc.denom > 0);
    assert_eq!(bc.alpha + bc.beta + bc.gamma, bc.denom);
    assert_eq!((bc.alpha, bc.beta, bc.gamma), (50, 30, 20));
}

#[test]
fn flip_y_swaps_rows_and_twice_restores() {
    let mut canvas = Canvas::new(3, 5);
    *canvas.pixel_mut(0, 0) = red();
    *canvas.pixel_mut(2, 1) = white();
    *canvas.pixel_mut(1, 2) = black();
    let before = canvas.pixels().to_vec();
    canvas.flip_y();
    assert_eq!(canvas.pixel(0, 4), red());
    assert_eq!(canvas.pixel(2, 3), white());
    assert_eq!(canvas.pixel(1, 2), black());
    assert_eq!(canvas.pixel(0, 0), Rgba::new(0, 0, 0, 0));
    canvas.flip_y();
    assert_eq!(canvas.pixels(), &before[..]);
}

#[test]
fn depth_test_is_strict_and_keeps_nearest() {
    let mut canvas = Canvas::new(4, 4);
    assert!(canvas.put_fragment(1, 2, depth(-3.0), red()));
    assert_eq!(canvas.z_buffer_at(1, 2), depth(-3.0));
    // equal depth loses: the first writer wins
    assert!(!canvas.put_fragment(1, 2, depth(-3.0), white()));
    assert_eq!(canvas.pixel(1, 2), red());
    assert!(canvas.put_fragment(1, 2, depth(10.25), white()));
    assert!(!canvas.put_fragment(1, 2, depth(2.0), black()));
    assert_eq!(canvas.pixel(1, 2), white());
    assert_eq!(canvas.z_buffer_at(1, 2), depth(10.25));
    assert!(canvas.depth_test(1, 2, depth(11.0)));
    assert!(!canvas.depth_test(1, 2, depth(10.25)));
}

#[test]
fn fragments_no_nearer_leave_canvas_unchanged() {
    let mut canvas = Canvas::new(3, 3);
    canvas.put_fragment(0, 0, depth(5.0), red());
    canvas.put_fragment(2, 1, depth(0.5), white());
    let pixels = canvas.pixels().to_vec();
    let depths = canvas.z_buffer().to_vec();
    canvas.put_fragment(0, 0, depth(5.0), black());
    canvas.put_fragment(0, 0, depth(-1.0), black());
    canvas.put_fragment(2, 1, depth(0.0), black());
    assert_eq!(canvas.pixels(), &pixels[..]);
    assert_eq!(canvas.z_buffer(), &depths[..]);
}

#[test]
fn depth_order_follows_float_order() {
    let values = [
        f32::NEG_INFINITY,
        -1.0e30,
        -2.5,
        -1.0e-30,
        0.0,
        1.0e-30,
        1.0,
        255.0,
        f32::INFINITY,
    ];
    for (i, a) in values.iter().enumerate() {
        for (j, b) in values.iter().enumerate() {
            assert_eq!(depth(*a).is_nearer_than(&depth(*b)), i > j);
        }
    }
    assert!(!depth(-0.0).is_nearer_than(&depth(0.0)));
    assert!(!depth(0.0).is_nearer_than(&depth(-0.0)));
    assert_eq!(Depth::neg_infinity().bits, f32::NEG_INFINITY.to_bits());
}

#[test]
fn triangle_wireframe_and_debug_draw_edges() {
    let mut canvas = Canvas::new(20, 20);
    canvas.triangle_wireframe(Point::new(1, 1), Point::new(10, 1), Point::new(1, 10), white());
    assert_eq!(canvas.pixel(1, 1), white());
    assert_eq!(canvas.pixel(9, 1), white());
    assert_eq!(canvas.pixel(9, 2), white());
    assert_eq!(canvas.pixel(1, 10), white());
    assert_eq!(canvas.pixel(1, 9), white());
    // no edge reaches its far endpoint, and (10, 1) ends both edges that touch it
    assert_eq!(canvas.pixel(10, 1), Rgba::new(0, 0, 0, 0));
    assert_eq!(canvas.pixel(5, 5), Rgba::new(0, 0, 0, 0));

    let mut canvas = Canvas::new(20, 20);
    canvas.triangle_debug(Point::new(5, 15), Point::new(2, 2), Point::new(12, 8));
    // lowest (2, 2), middle (12, 8), highest (5, 15): the red edge is drawn
    // first, then green from (2, 2), then blue, which starts at (5, 15)
    assert_eq!(count_color(&canvas, red()), 12);
    assert_eq!(canvas.pixel(2, 2), crab_tv::green());
    assert_eq!(canvas.pixel(5, 15), crab_tv::blue());
    assert_eq!(canvas.pixel(12, 8), Rgba::new(0, 0, 0, 0));
}

#[test]
fn random_colors_are_opaque_and_below_white() {
    for _ in 0..200 {
        let c = random_color();
        assert!(c.r < 255 && c.g < 255 && c.b < 255);
        assert_eq!(c.a, 255);
    }
}

#[test]
fn linesweep_verbose_fills_rows() {
    let mut canvas = Canvas::new(10, 10);
    canvas.triangle_linesweep_verbose(&[Point::new(0, 0), Point::new(4, 0), Point::new(0, 4)], red());
    assert_eq!(count_color(&canvas, red()), 15);
    for y in 0..5 {
        for x in 0..10 {
            let expected = if x <= 4 - y { red() } else { Rgba::new(0, 0, 0, 0) };
            assert_eq!(canvas.pixel(x, y), expected);
        }
    }
}

#[test]
fn linesweep_compact_leaves_top_row() {
    let mut canvas = Canvas::new(10, 10);
    canvas.triangle_linesweep_compact(&[Point::new(0, 4), Point::new(4, 0), Point::new(0, 0)], red());
    assert_eq!(count_color(&canvas, red()), 14);
    assert_eq!(canvas.pixel(0, 4), Rgba::new(0, 0, 0, 0));
    assert_eq!(canvas.pixel(4, 0), red());
    assert_eq!(canvas.pixel(1, 3), red());
}

#[test]
fn linesweeps_skip_flat_triangles() {
    let mut canvas = Canvas::new(10, 10);
    let flat = [Point::new(1, 5), Point::new(8, 5), Point::new(3, 5)];
    canvas.triangle_linesweep_verbose(&flat, red());
    canvas.triangle_linesweep_compact(&flat, red());
    assert_eq!(count_color(&canvas, red()), 0);
}

#[test]
fn linesweeps_cover_scene_triangle() {
    let t = [Point::new(10, 70), Point::new(50, 160), Point::new(70, 80)];
    let mut a = Canvas::new(200, 200);
    a.triangle_linesweep_verbose(&t, red());
    let mut b = Canvas::new(200, 200);
    b.triangle_linesweep_compact(&t, red());
    assert_eq!(a.pixel(40, 100), red());
    assert_eq!(b.pixel(40, 100), red());
    assert_eq!(a.pixel(0, 0), Rgba::new(0, 0, 0, 0));
    assert_eq!(b.pixel(0, 0), Rgba::new(0, 0, 0, 0));
    // the lowest row holds only the lowest vertex
    assert_eq!(a.pixel(10, 70), red());
    assert_eq!(a.pixel(11, 70), Rgba::new(0, 0, 0, 0));
}

#[test]
fn model_wireframe_outlines_each_face() {
    let mesh = crab_tv::parse_obj(b"f 1/1/1 2/1/1 3/1/1\nf 3/1/1 2/1/1 4/1/1\n").unwrap();
    let screen = vec![
        Point::new(1, 1),
        Point::new(8, 1),
        Point::new(1, 8),
        Point::new(8, 8),
    ];
    let mut canvas = Canvas::new(10, 10);
    canvas.model_wireframe(&mesh.faces, &screen, white());
    let mut expected = Canvas::new(10, 10);
    expected.triangle_wireframe(screen[0], screen[1], screen[2], white());
    expected.triangle_wireframe(screen[2], screen[1], screen[3], white());
    assert_eq!(canvas.pixels(), expected.pixels());
    assert_eq!(canvas.pixel(1, 1), white());
    assert_eq!(canvas.pixel(8, 4), white());
}

#[test]
fn model_colored_triangles_fills_each_face() {
    let mesh = crab_tv::parse_obj(b"f 1/1/1 2/1/1 3/1/1\n").unwrap();
    let screen = vec![Point::new(1, 1), Point::new(8, 1), Point::new(1, 8)];
    let mut canvas = Canvas::new(10, 10);
    canvas.model_colored_triangles(&mesh.faces, &screen);
    let c = canvas.pixel(2, 2);
    assert_eq!(c.a, 255);
    assert!(c.r < 255 && c.g < 255 && c.b < 255);
    let mut expected = Canvas::new(10, 10);
    expected.triangle_barycentric(&screen, c);
    assert_eq!(canvas.pixels(), expected.pixels());
}

#[test]
fn colors_from_bytes_stay_below_white() {
    assert_eq!(crab_tv::color_from_bytes(255, 254, 0), Rgba::new(0, 254, 0, 255));
    assert_eq!(crab_tv::color_from_bytes(10, 200, 255), Rgba::new(10, 200, 0, 255));
}

#[test]
fn nan_depths_are_never_nearer() {
    let nan = Depth::from_bits(f32::NAN.to_bits());
    let neg_nan = Depth::from_bits((-f32::NAN).to_bits());
    let mut canvas = Canvas::new(2, 2);
    assert!(!canvas.put_fragment(0, 0, nan, red()));
    assert!(!canvas.put_fragment(0, 0, neg_nan, red()));
    assert_eq!(canvas.pixel(0, 0), Rgba::new(0, 0, 0, 0));
    *canvas.z_buffer_at_mut(1, 1) = nan;
    assert!(!canvas.put_fragment(1, 1, depth(1.0), red()));
    assert!(!depth(f32::INFINITY).is_nearer_than(&nan));
    assert!(!nan.is_nearer_than(&depth(f32::NEG_INFINITY)));
}

#[test]
fn flat_triangles_off_canvas_are_skipped() {
    let mut canvas = Canvas::new(10, 10);
    let flat = [Point::new(-5, 50), Point::new(80, 50), Point::new(3, 50)];
    canvas.triangle_linesweep_verbose(&flat, red());
    canvas.triangle_linesweep_compact(&flat, red());
    assert_eq!(count_color(&canvas, red()), 0);
}

#[test]
fn pixels_mut_writes_through() {
    let mut canvas = Canvas::new(3, 2);
    canvas.pixels_mut()[4] = white();
    assert_eq!(canvas.pixel(1, 1), white());
    assert_eq!(canvas.pixels().len(), 6);
}
