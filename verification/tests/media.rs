use ff_video::media::{fcn_resnet50_12_int8_onnx, long_small_video, short_large_video};

#[test]
fn long_small_video_exists() {
    assert!(long_small_video("assets") == "assets/media/synth_640x480_40secs_10fps.mp4")
}

#[test]
fn short_large_exists() {
    assert!(short_large_video("assets") == "assets/media/synth_1280x720_5secs_30fps.mp4")
}

#[test]
fn fcn_resnet50_12_int8_onnx_exists() {
    assert!(fcn_resnet50_12_int8_onnx("assets") == "assets/models/fcn-resnet50-12-int8.onnx")
}

#[test]
fn media_paths_keep_the_root_as_given() {
    assert_eq!(long_small_video(""), "/media/synth_640x480_40secs_10fps.mp4");
    assert_eq!(short_large_video("/tmp/x/"), "/tmp/x//media/synth_1280x720_5secs_30fps.mp4");
}
