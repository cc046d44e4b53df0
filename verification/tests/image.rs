use star_stuff::image::{Image, ImageDimensions, ImageMut, OwnedImage};
use star_stuff::rgb::Rgb;
use star_stuff::rgb_bayer::RgbBayer;

#[test]
fn as_ref() {
    let dimensions = ImageDimensions { width: 1, height: 2, pitch: 3 };
    let pixels = vec![4, 5, 6];
    let mut image = OwnedImage { dimensions, pixels: pixels.clone() };
    {
        let r = image.as_ref();
        assert_eq!(dimensions, r.dimensions());
        assert_eq!(&pixels[..], &r.pixels()[..]);
    }
    {
        let r = image.as_ref();
        let r = r.as_ref();
        assert_eq!(dimensions, r.dimensions());
        assert_eq!(&pixels[..], &r.pixels()[..]);
    }
    {
        let r = image.as_mut();
        assert_eq!(dimensions, r.dimensions());
        assert_eq!(&pixels[..], &r.pixels()[..]);
    }
    {
        let r = image.as_mut();
        let r = r.as_ref();
        assert_eq!(dimensions, r.dimensions());
        assert_eq!(&pixels[..], &r.pixels()[..]);
    }
    {
        let mut r = image.as_mut();
        let r = r.as_mut();
        assert_eq!(dimensions, r.dimensions());
        assert_eq!(&pixels[..], &r.pixels()[..]);
    }
}

fn sample() -> OwnedImage<u16> {
    // 3 x 2 image with a pitch of 4: the last column of each row is padding.
    OwnedImage {
        dimensions: ImageDimensions { width: 3, height: 2, pitch: 4 },
        pixels: vec![1, 2, 3, 99, 4, 5, 6, 99],
    }
}

#[test]
fn pixel_at_uses_pitch() {
    let img = sample();
    assert_eq!(*img.pixel_at(0, 0), 1);
    assert_eq!(*img.pixel_at(2, 0), 3);
    assert_eq!(*img.pixel_at(1, 1), 5);
}

#[test]
fn row_and_row_slice() {
    let img = sample();
    assert_eq!(img.row(1), &[4, 5, 6][..]);
    assert_eq!(img.row_slice(0, 1, 1), &[2][..]);
}

#[test]
fn clone_map_packs_rows() {
    let img = sample();
    let doubled = img.clone_map(|p: u16| p * 2);
    assert_eq!(doubled.dimensions, ImageDimensions { width: 3, height: 2, pitch: 3 });
    assert_eq!(doubled.pixels, vec![2, 4, 6, 8, 10, 12]);
}

#[test]
fn to_rgb_repeats_the_value() {
    let img = sample();
    let rgb = img.to_rgb();
    assert_eq!(rgb.pixels.len(), 6);
    let p: Rgb<u16> = rgb.pixels[4];
    assert_eq!((p.r, p.g, p.b), (5, 5, 5));
}

#[test]
fn crop_shares_the_buffer() {
    let img = sample();
    let c = img.crop(1, 0, 2, 2);
    assert_eq!(c.dimensions(), ImageDimensions { width: 2, height: 2, pitch: 4 });
    assert_eq!(*c.pixel_at(0, 0), 2);
    assert_eq!(*c.pixel_at(1, 1), 6);
}

#[test]
fn center_crop_takes_the_middle() {
    let img = OwnedImage {
        dimensions: ImageDimensions { width: 3, height: 3, pitch: 3 },
        pixels: (1..=9u8).collect::<Vec<u8>>(),
    };
    let c = img.center_crop(1, 1);
    assert_eq!(*c.pixel_at(0, 0), 5);
}

#[test]
fn pixel_at_mut_writes_one_pixel() {
    let mut img = sample();
    {
        let mut view = img.as_mut();
        *view.pixel_at_mut(2, 1) = 42;
    }
    assert_eq!(img.pixels, vec![1, 2, 3, 99, 4, 5, 42, 99]);
}

#[test]
fn zero_is_packed_and_default() {
    let img: OwnedImage<u16> = OwnedImage::zero(3, 2);
    assert_eq!(img.dimensions, ImageDimensions { width: 3, height: 2, pitch: 3 });
    assert_eq!(img.pixels, vec![0; 6]);
}

#[test]
fn pitch_bytes_counts_bytes() {
    let img = sample();
    assert_eq!(img.pitch_bytes(), 8);
}

#[test]
fn to_rggb_places_pixels_behind_the_filter() {
    let img = OwnedImage {
        dimensions: ImageDimensions { width: 2, height: 2, pitch: 3 },
        pixels: vec![1.0f32, 2.0, 0.0, 3.0, 4.0, 0.0],
    };
    let b = img.as_ref().to_rggb(1.0);
    assert_eq!(b.dimensions, ImageDimensions { width: 2, height: 2, pitch: 2 });
    let zero = RgbBayer::<f32>::default();
    assert!(b.pixels[0] == RgbBayer { r: 1.0, rc: 1.0, ..zero });
    assert!(b.pixels[1] == RgbBayer { g: 2.0, gc: 1.0, ..zero });
    assert!(b.pixels[2] == RgbBayer { g: 3.0, gc: 1.0, ..zero });
    assert!(b.pixels[3] == RgbBayer { b: 4.0, bc: 1.0, ..zero });
}

#[test]
fn rgb_arithmetic_by_component() {
    let a = Rgb { r: 5u16, g: 6, b: 7 };
    let b = Rgb { r: 1u16, g: 2, b: 3 };
    assert_eq!(a - b, Rgb { r: 4, g: 4, b: 4 });
    assert_eq!(a * b, Rgb { r: 5, g: 12, b: 21 });
    assert_eq!(b * 3u16, Rgb { r: 3, g: 6, b: 9 });
}

#[test]
fn rgb_bayer_scales_values_and_counts() {
    let p = RgbBayer { r: 1.0f32, g: 2.0, b: 3.0, rc: 1.0, gc: 0.0, bc: 2.0 };
    let q = p * 2.0;
    assert!(q == RgbBayer { r: 2.0, g: 4.0, b: 6.0, rc: 2.0, gc: 0.0, bc: 4.0 });
}
