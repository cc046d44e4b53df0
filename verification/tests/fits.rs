use star_stuff::fits::{
    get_value, read_header, read_image, write_header, write_image, Data, FitsError, HeaderRecord,
};

fn rec(name: &str, value: Option<&str>, comment: &str) -> HeaderRecord {
    HeaderRecord {
        name: name.to_string(),
        value: value.map(|v| v.to_string()),
        comment: comment.to_string(),
    }
}

fn record_text(bytes: &[u8], i: usize) -> String {
    String::from_utf8(bytes[80 * i..80 * i + 80].to_vec()).unwrap()
}

#[test]
fn write_header_lays_out_records() {
    let records = vec![
        rec("SIMPLE", Some("T"), ""),
        rec("EXPTIME", Some("30"), "seconds"),
        rec("HISTORY", None, "made by hand"),
    ];
    let bytes = write_header(&records);
    assert_eq!(bytes.len(), 2880);
    assert_eq!(record_text(&bytes, 0), format!("{:<8}= {:<70}", "SIMPLE", "T"));
    assert_eq!(record_text(&bytes, 1), format!("{:<8}= {:<70}", "EXPTIME", "30/seconds"));
    assert_eq!(record_text(&bytes, 2), format!("{:<8}  {:<70}", "HISTORY", "made by hand"));
    assert_eq!(record_text(&bytes, 3), format!("{:<80}", "END"));
    for i in 4..36 {
        assert_eq!(record_text(&bytes, i), " ".repeat(80));
    }
}

#[test]
fn header_round_trip() {
    let records = vec![
        rec("SIMPLE", Some("T"), ""),
        rec("EXPTIME", Some("30"), "seconds / exposure"),
        rec("HISTORY", None, "made by hand"),
        rec("EMPTY", Some(""), ""),
    ];
    let mut bytes = write_header(&records);
    bytes.extend_from_slice(&[1, 2, 3]);
    let (read, len) = read_header(&bytes).unwrap();
    assert_eq!(len, 2880);
    assert_eq!(read.len(), records.len());
    for (a, b) in read.iter().zip(records.iter()) {
        assert_eq!(a.name, b.name);
        assert_eq!(a.value, b.value);
        assert_eq!(a.comment, b.comment);
    }
}

#[test]
fn header_with_end_last_in_block_takes_another_block() {
    let records: Vec<HeaderRecord> = (0..35).map(|i| rec(&format!("K{}", i), Some("1"), "")).collect();
    let bytes = write_header(&records);
    assert_eq!(bytes.len(), 2 * 2880);
    let (read, len) = read_header(&bytes).unwrap();
    assert_eq!(len, 2 * 2880);
    assert_eq!(read.len(), 35);
    assert_eq!(read[34].name, "K34");
}

#[test]
fn read_header_trims_and_splits() {
    let mut block = Vec::new();
    block.extend_from_slice(format!("{:<8}= {:<70}", " NAXIS", "  2 /  number of axes ").as_bytes());
    block.extend_from_slice(format!("{:<80}", "").as_bytes());
    block.extend_from_slice(format!("{:<8}{:<72}", "COMMENT", "  hello  ").as_bytes());
    block.extend_from_slice(format!("{:<80}", "END").as_bytes());
    block.resize(2880, b' ');
    let (read, len) = read_header(&block).unwrap();
    assert_eq!(len, 2880);
    assert_eq!(read.len(), 2);
    assert_eq!(read[0].name, "NAXIS");
    assert_eq!(read[0].value.as_deref(), Some("2"));
    assert_eq!(read[0].comment, "number of axes");
    assert_eq!(read[1].name, "COMMENT");
    assert_eq!(read[1].value, None);
    assert_eq!(read[1].comment, "hello");
}

#[test]
fn read_header_errors() {
    assert_eq!(read_header(&[b' '; 79]).err(), Some(FitsError::Truncated));
    // No END record before the data runs out.
    let bytes = write_header(&[rec("A", Some("1"), "")]);
    assert_eq!(read_header(&bytes[..80]).err(), Some(FitsError::Truncated));
    // END found, but the block is not complete.
    assert_eq!(read_header(&bytes[..2000]).err(), Some(FitsError::Truncated));
    let mut bad = bytes.clone();
    bad[0] = 0xff;
    assert_eq!(read_header(&bad).err(), Some(FitsError::InvalidText));
}

#[test]
fn get_value_finds_the_first_record() {
    let records = vec![
        rec("A", Some("1"), ""),
        rec("B", None, "no value"),
        rec("A", Some("2"), ""),
    ];
    assert_eq!(get_value(&records, "A").unwrap(), "1");
    assert_eq!(get_value(&records, "B").err(), Some(FitsError::MissingValue));
    assert_eq!(get_value(&records, "C").err(), Some(FitsError::MissingRecord));
}

#[test]
fn image_round_trip_u16() {
    let pixels = vec![0u16, 1, 0x1234, 0xffff, 7, 8];
    let bytes = write_image(3, 2, &Data::U16(pixels.clone()));
    assert_eq!(bytes.len(), 2880 + 12);
    assert_eq!(&bytes[2880..2886], &[0, 0, 0, 1, 0x12, 0x34]);
    let (w, h, d, end) = read_image(&bytes).unwrap();
    assert_eq!(end, bytes.len());
    assert_eq!((w, h), (3, 2));
    match d {
        Data::U16(v) => assert_eq!(v, pixels),
        Data::F32(_) => panic!("wrong kind"),
    }
}

#[test]
fn image_round_trip_f32() {
    let values = [1.5f32, -2.0, 0.0, 3.25];
    let bits: Vec<u32> = values.iter().map(|v| v.to_bits()).collect();
    let bytes = write_image(2, 2, &Data::F32(bits.clone()));
    assert_eq!(bytes.len(), 2880 + 16);
    assert_eq!(&bytes[2880..2884], &1.5f32.to_be_bytes());
    let header = String::from_utf8(bytes[..480].to_vec()).unwrap();
    assert!(header.starts_with("SIMPLE  = T"));
    assert_eq!(&header[80..90], "BITPIX  = ");
    assert_eq!(header[90..160].trim(), "-32");
    let (w, h, d, end) = read_image(&bytes).unwrap();
    assert_eq!(end, bytes.len());
    assert_eq!((w, h), (2, 2));
    match d {
        Data::F32(v) => {
            let back: Vec<f32> = v.iter().map(|b| f32::from_bits(*b)).collect();
            assert_eq!(back, values.to_vec());
        }
        Data::U16(_) => panic!("wrong kind"),
    }
}

fn image_header(records: &[HeaderRecord]) -> Vec<u8> {
    write_header(records)
}

#[test]
fn read_image_errors() {
    let base = |naxis: &str, w: &str, bitpix: &str| {
        vec![
            rec("SIMPLE", Some("T"), ""),
            rec("BITPIX", Some(bitpix), ""),
            rec("NAXIS", Some(naxis), ""),
            rec("NAXIS1", Some(w), ""),
            rec("NAXIS2", Some("2"), ""),
        ]
    };
    let bytes = image_header(&base("3", "2", "16"));
    assert_eq!(read_image(&bytes).err(), Some(FitsError::UnexpectedAxes));
    let bytes = image_header(&base("2", "two", "16"));
    assert_eq!(read_image(&bytes).err(), Some(FitsError::InvalidNumber));
    let bytes = image_header(&base("2", "2", "8"));
    assert_eq!(read_image(&bytes).err(), Some(FitsError::UnexpectedBitpix));
    let bytes = image_header(&base("2", "18446744073709551615", "16"));
    assert_eq!(read_image(&bytes).err(), Some(FitsError::TooLarge));
    let mut bytes = image_header(&base("2", "2", "16"));
    bytes.extend_from_slice(&[0; 7]);
    assert_eq!(read_image(&bytes).err(), Some(FitsError::Truncated));
    bytes.push(0);
    let (w, h, d, end) = read_image(&bytes).unwrap();
    assert_eq!(end, bytes.len());
    assert_eq!((w, h), (2, 2));
    assert!(matches!(d, Data::U16(ref v) if v.len() == 4));
    let no_naxis = vec![rec("SIMPLE", Some("T"), "")];
    assert_eq!(read_image(&image_header(&no_naxis)).err(), Some(FitsError::MissingRecord));
}

#[test]
fn image_followed_by_other_bytes() {
    let pixels = vec![1u16, 2, 3, 4];
    let mut bytes = write_image(2, 2, &Data::U16(pixels.clone()));
    let written = bytes.len();
    bytes.extend_from_slice(b"more data after the image");
    let (w, h, d, end) = read_image(&bytes).unwrap();
    assert_eq!((w, h), (2, 2));
    assert_eq!(end, written);
    assert_eq!(&bytes[end..], b"more data after the image");
    match d {
        Data::U16(v) => assert_eq!(v, pixels),
        Data::F32(_) => panic!("wrong kind"),
    }
}
