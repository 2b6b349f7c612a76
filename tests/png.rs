use crab_tv::{red, white, Canvas, Point};

#[test]
fn png_round_trip_keeps_every_pixel() {
    let mut canvas = Canvas::new(40, 30);
    canvas.triangle_barycentric(&[Point::new(2, 3), Point::new(35, 8), Point::new(12, 27)], red());
    canvas.line(Point::new(0, 0), Point::new(39, 29), white());
    let pixels: Vec<rgb::RGB8> = canvas
        .pixels()
        .iter()
        .map(|p| rgb::RGB8::new(p.r, p.g, p.b))
        .collect();
    let png = lodepng::encode_memory(&pixels, 40, 30, lodepng::ColorType::RGB, 8).unwrap();
    let back = lodepng::decode24(&png).unwrap();
    assert_eq!((back.width, back.height), (40, 30));
    assert_eq!(back.buffer, pixels);
}
