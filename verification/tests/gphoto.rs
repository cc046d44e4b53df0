use star_stuff::camera::Camera;
use star_stuff::gphoto::{check_shot, shoot_args, Options, ShootError};

#[test]
fn shoot_args_keep_raw() {
    let options = Options { keep_raw: true, shutter_speed: "0".to_string(), iso: "16".to_string() };
    let args = shoot_args(&options, "/mnt/ramdisk/a.jpg");
    let expected = [
        "--filename",
        "/mnt/ramdisk/a.jpg",
        "--force-overwrite",
        "--set-config",
        "capturetarget=1",
        "--keep-raw",
        "--set-config",
        "imageformat=8",
        "--set-config",
        "shutterspeed=0",
        "--set-config",
        "iso=16",
        "--capture-image-and-download",
    ];
    assert_eq!(args, expected.iter().map(|s| s.to_string()).collect::<Vec<_>>());
}

#[test]
fn shoot_args_jpeg_only() {
    let options = Options { keep_raw: false, shutter_speed: "6".to_string(), iso: "20".to_string() };
    let args = shoot_args(&options, "f.jpg");
    let expected = [
        "--filename",
        "f.jpg",
        "--force-overwrite",
        "--set-config",
        "capturetarget=0",
        "--set-config",
        "imageformat=0",
        "--set-config",
        "shutterspeed=6",
        "--set-config",
        "iso=20",
        "--capture-image-and-download",
    ];
    assert_eq!(args, expected.iter().map(|s| s.to_string()).collect::<Vec<_>>());
}

#[test]
fn check_shot_outcomes() {
    assert_eq!(check_shot(false, 10), Err(ShootError::GphotoCommandFailed));
    assert_eq!(check_shot(false, 0), Err(ShootError::GphotoCommandFailed));
    assert_eq!(check_shot(true, 0), Err(ShootError::EmptyFile));
    assert_eq!(check_shot(true, 1), Ok(()));
}

#[test]
fn camera_new() {
    let _camera = Camera::new();
}
