use ff_video::image_bgr::Bgr;

#[test]
fn channels_are_blue_green_red() {
    let pixel = Bgr([10, 20, 30]);
    assert_eq!(Bgr::CHANNEL_COUNT, 3);
    assert_eq!(pixel.channels(), &[10, 20, 30]);
    assert_eq!(pixel.channels4(), (10, 20, 30, 255));
    assert_eq!(Bgr::from_channels(1, 2, 3, 4), Bgr([1, 2, 3]));
}

#[test]
fn to_rgb_reverses_the_order() {
    let pixel = Bgr([10, 20, 30]);
    assert_eq!(pixel.to_rgb(), [30, 20, 10]);
    assert_eq!(pixel.to_rgba(), [30, 20, 10, 255]);
}

#[test]
fn invert_takes_the_complement() {
    let mut pixel = Bgr([0, 255, 100]);
    pixel.invert();
    assert_eq!(pixel, Bgr([255, 0, 155]));
    pixel.invert();
    assert_eq!(pixel, Bgr([0, 255, 100]));
}
