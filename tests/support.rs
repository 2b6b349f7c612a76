use crab_tv::config::image_pixel_count;
use crab_tv::{validate_image_size, yolo_max, yolo_min, RenderScene, SizeError, Texture, Rgb};

#[test]
fn yolo_min_and_max_pick_as_std_does() {
    assert_eq!(yolo_min(3, 7), 3);
    assert_eq!(yolo_max(3, 7), 7);
    assert_eq!(yolo_min(-2i64, -9), -9);
    assert_eq!(yolo_max(-2i64, -9), -2);
    assert_eq!(yolo_min(5u8, 5), 5);
    assert_eq!(yolo_max(0usize, 0), 0);
}

#[test]
fn scenes_cycle_in_order() {
    assert_eq!(RenderScene::default(), RenderScene::FivePixels);
    assert_eq!(RenderScene::FivePixels.next_scene(), RenderScene::Lines);
    assert_eq!(RenderScene::PhongShader.next_scene(), RenderScene::ShadowBuffer);
    assert_eq!(
        RenderScene::ScreenSpaceAmbientOcclusion.next_scene(),
        RenderScene::FivePixels
    );
    let mut s = RenderScene::first();
    let mut n = 0;
    loop {
        s = s.next_scene();
        n += 1;
        if s == RenderScene::first() {
            break;
        }
    }
    assert_eq!(n, crab_tv::scenes::SCENE_COUNT);
}

#[test]
fn image_size_bounds() {
    assert_eq!(validate_image_size(200, 5000), Ok(()));
    assert_eq!(validate_image_size(199, 300), Err(SizeError::WidthTooSmall));
    assert_eq!(validate_image_size(5001, 300), Err(SizeError::WidthTooLarge));
    assert_eq!(validate_image_size(300, 199), Err(SizeError::HeightTooSmall));
    assert_eq!(validate_image_size(300, 5001), Err(SizeError::HeightTooLarge));
    assert_eq!(validate_image_size(10, 10000), Err(SizeError::WidthTooSmall));
    assert_eq!(SizeError::WidthTooSmall.message(), "Width must be 200 or greater");
    assert_eq!(SizeError::WidthTooLarge.message(), "Width must be 5000 or less");
    assert_eq!(SizeError::HeightTooSmall.message(), "Height must be 200 or greater");
    assert_eq!(SizeError::HeightTooLarge.message(), "Height must be 5000 or less");
    assert_eq!(image_pixel_count(1000, 1000), 1_000_000);
}

#[test]
fn texture_rows_are_read_from_the_bottom() {
    let data = vec![
        Rgb::new(1, 0, 0),
        Rgb::new(2, 0, 0),
        Rgb::new(3, 0, 0),
        Rgb::new(4, 0, 0),
    ];
    let t = Texture::new(2, 2, data);
    assert_eq!(t.pixel_at(0, 2), Rgb::new(1, 0, 0));
    assert_eq!(t.pixel_at(1, 2), Rgb::new(2, 0, 0));
    assert_eq!(t.pixel_at(0, 1), Rgb::new(3, 0, 0));
    assert_eq!(t.pixel_at(1, 1), Rgb::new(4, 0, 0));
}
