use star_stuff::channel::Channel;
use star_stuff::gray_image::GrayImage;
use star_stuff::rgb_image::RgbImage;

#[test]
fn channel_new_and_access() {
    let mut c: Channel<u16> = Channel::new(3, 2);
    assert_eq!((c.width(), c.height()), (3, 2));
    assert_eq!(c.pixels(), &vec![0u16; 6]);
    *c.at_mut(2, 1) = 9;
    assert_eq!(c.at(2, 1), 9);
    assert_eq!(c.pixels()[5], 9);
    c.pixels_mut()[0] = 4;
    assert_eq!(c.at(0, 0), 4);
}

#[test]
fn channel_from_data_keeps_samples() {
    let c = Channel::from_data(2, 2, vec![1u8, 2, 3, 4]);
    assert_eq!(c.at(1, 0), 2);
    assert_eq!(c.at(0, 1), 3);
    assert_eq!((c.width(), c.height()), (2, 2));
}

#[test]
fn gray_image_pixels() {
    let mut img = GrayImage { width: 2, height: 2, pixels: vec![1u16, 2, 3, 4] };
    assert_eq!(*img.pixel_at(1, 0), 2);
    *img.pixel_at_mut(0, 1) = 30;
    assert_eq!(img.pixels, vec![1, 2, 30, 4]);
}

#[test]
fn rgb_image_open_takes_the_first_sample_of_each_pixel() {
    let samples = [1u16, 2, 3, 4, 5, 6];
    let img = RgbImage::open(2, 1, &samples);
    assert_eq!(img.r.pixels(), &vec![1, 4]);
    assert_eq!(img.g.pixels(), &vec![1, 4]);
    assert_eq!(img.b.pixels(), &vec![1, 4]);
    assert_eq!((img.width(), img.height()), (2, 1));
}

#[test]
fn rgb_image_interleaves_channels() {
    let img = RgbImage {
        r: Channel::from_data(2, 1, vec![1u8, 4]),
        g: Channel::from_data(2, 1, vec![2u8, 5]),
        b: Channel::from_data(2, 1, vec![3u8, 6]),
    };
    assert_eq!(img.interleaved(), vec![1, 2, 3, 4, 5, 6]);
    let blank: RgbImage<u8> = RgbImage::new(2, 3);
    assert_eq!(blank.interleaved(), vec![0; 18]);
}
