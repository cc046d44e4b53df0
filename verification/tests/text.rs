use star_stuff::bytes::{push_u16s, push_u32s, read_u16s_at, read_u32s_at};
use star_stuff::text::{parse_usize, text_is, usize_to_string};

#[test]
fn parse_usize_like_std() {
    for s in ["0", "42", "+7", "007", "18446744073709551615", "", "+", "-1", " 1", "1 ", "18446744073709551616", "1x"] {
        assert_eq!(parse_usize(s), s.parse::<usize>().ok(), "{:?}", s);
    }
}

#[test]
fn usize_to_string_like_std() {
    for n in [0usize, 9, 10, 12345, usize::MAX] {
        assert_eq!(usize_to_string(n), n.to_string());
    }
}

#[test]
fn text_is_compares_bytes() {
    assert!(text_is("END", b"END"));
    assert!(!text_is("END", b"EN"));
    assert!(!text_is("éND", b"END"));
}

#[test]
fn samples_big_endian() {
    let mut out = vec![9u8];
    push_u16s(&mut out, &[0x0102, 0xa0b0]);
    assert_eq!(out, vec![9, 1, 2, 0xa0, 0xb0]);
    assert_eq!(read_u16s_at(&out, 1, 2), vec![0x0102, 0xa0b0]);
    let mut out = Vec::new();
    push_u32s(&mut out, &[0x01020304]);
    assert_eq!(out, vec![1, 2, 3, 4]);
    assert_eq!(read_u32s_at(&out, 0, 1), vec![0x01020304]);
}
