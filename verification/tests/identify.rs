use star_stuff::identify::{image_info_from_groups, parse_identify, IdentifyError, ImageInfo};

#[test]
fn parse_identify_output() {
    let out = "test/a.jpg JPEG 6000x4000 6000x4000+0+0 8-bit sRGB 9.5MB 0.000u 0:00.000\n";
    assert_eq!(parse_identify(out), Ok(ImageInfo { width: 6000, height: 4000 }));
}

#[test]
fn parse_identify_takes_the_first_size() {
    let out = "x 12x34 56x78 ";
    assert_eq!(parse_identify(out), Ok(ImageInfo { width: 12, height: 34 }));
}

#[test]
fn parse_identify_errors() {
    assert_eq!(parse_identify("no size here"), Err(IdentifyError::NoMatch));
    assert_eq!(parse_identify("a 12x34+0+0"), Err(IdentifyError::NoMatch));
    assert_eq!(
        parse_identify("a 99999999999999999999x2 "),
        Err(IdentifyError::InvalidNumber)
    );
}

#[test]
fn groups_to_info() {
    let g = Some((Some("3".to_string()), Some("4".to_string())));
    assert_eq!(image_info_from_groups(g), Ok(ImageInfo { width: 3, height: 4 }));
    assert_eq!(image_info_from_groups(None), Err(IdentifyError::NoMatch));
    assert_eq!(
        image_info_from_groups(Some((Some("3".to_string()), None))),
        Err(IdentifyError::NoMatch)
    );
    assert_eq!(
        image_info_from_groups(Some((Some("-3".to_string()), Some("4".to_string())))),
        Err(IdentifyError::InvalidNumber)
    );
}
