use star_stuff::gray_image::GrayImage;
use star_stuff::pgm::{read, read_until, PgmError};

fn pgm(header: &str, samples: &[u16]) -> Vec<u8> {
    let mut out = header.as_bytes().to_vec();
    for s in samples {
        out.extend_from_slice(&s.to_be_bytes());
    }
    out
}

#[test]
fn read_until_keeps_the_delimiter() {
    let data = b"P5\n3 2\n";
    let (s, end) = read_until(data, 0, b'\n').unwrap();
    assert_eq!(s, "P5\n");
    assert_eq!(end, 3);
    let (s, end) = read_until(data, 3, b' ').unwrap();
    assert_eq!(s, "3 ");
    assert_eq!(end, 5);
    let (s, end) = read_until(b"abc", 1, b'\n').unwrap();
    assert_eq!(s, "bc");
    assert_eq!(end, 3);
    assert_eq!(read_until(&[0xff, b'\n'], 0, b'\n').err(), Some(PgmError::InvalidText));
}

#[test]
fn read_pgm() {
    let data = pgm("P5\n3 2\n65535\n", &[1, 2, 3, 0x1234, 5, 0xffff]);
    let (w, h, px) = read(&data).unwrap();
    assert_eq!((w, h), (3, 2));
    assert_eq!(px, vec![1, 2, 3, 0x1234, 5, 0xffff]);
}

#[test]
fn read_pgm_errors() {
    assert_eq!(read(&pgm("P6\n3 2\n65535\n", &[0; 6])).err(), Some(PgmError::BadMagic));
    assert_eq!(read(b"P5").err(), Some(PgmError::BadMagic));
    assert_eq!(read(&pgm("P5\nx 2\n65535\n", &[0; 6])).err(), Some(PgmError::InvalidNumber));
    assert_eq!(read(&pgm("P5\n3 2\n255\n", &[0; 6])).err(), Some(PgmError::BadMaxValue));
    assert_eq!(read(&pgm("P5\n3 2\n65535\n", &[0; 5])).err(), Some(PgmError::Truncated));
    assert_eq!(
        read(&pgm("P5\n18446744073709551615 2\n65535\n", &[])).err(),
        Some(PgmError::TooLarge)
    );
    let mut bad = b"P5\n3 \xff\n65535\n".to_vec();
    bad.extend_from_slice(&[0; 12]);
    assert_eq!(read(&bad).err(), Some(PgmError::InvalidText));
}

#[test]
fn open_raw_reads_dcraw_output() {
    let data = pgm("P5\n2 2\n65535\n", &[10, 20, 30, 40]);
    let img = GrayImage::open_raw(&data).unwrap();
    assert_eq!((img.width, img.height), (2, 2));
    assert_eq!(*img.pixel_at(1, 1), 40);
    assert_eq!(GrayImage::open_raw(b"junk").err(), Some(PgmError::BadMagic));
}
