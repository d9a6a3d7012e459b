use win_toolkit::icon::{icon_from_decoded, icon_pixels};
use win_toolkit::overview::{
    contains_str, cpu_label, drive_root, drive_roots, is_fixed_drive, os_build, os_name, parse_u32,
    replace_all, uptime_from_millis,
};

#[test]
fn windows_11_builds_correct_the_product_name() {
    assert_eq!(os_name("Windows 10 Pro", Some("22631")), "Windows 11 Pro");
    assert_eq!(os_name("Windows 10 Pro", Some("22000")), "Windows 11 Pro");
    assert_eq!(os_name("Windows 10 Pro", Some("21999")), "Windows 10 Pro");
    assert_eq!(os_name("Windows 10 Pro", None), "Windows 10 Pro");
    assert_eq!(os_name("Windows 10 Pro", Some(" 22631")), "Windows 10 Pro");
    assert_eq!(os_name("Windows Server 2022", Some("26100")), "Windows Server 2022");
}

#[test]
fn parse_follows_the_standard_parser() {
    for text in ["0", "7", "007", "+15", "4294967295", "4294967296", "", "+", "-1", "12a", " 1", "99999999999999999999"] {
        assert_eq!(parse_u32(text), text.parse::<u32>().ok(), "text = {text:?}");
    }
}

#[test]
fn replace_follows_the_standard_replace() {
    for (s, from, to) in [("aaa", "aa", "b"), ("Windows 10 / Windows 10", "Windows 10", "Windows 11"), ("abc", "x", "y"), ("", "a", "b"), ("ab", "", "z"), ("", "", "z")] {
        assert_eq!(replace_all(s, from, to), s.replace(from, to), "{s:?} {from:?} {to:?}");
    }
    assert!(contains_str("abc", "bc"));
    assert!(contains_str("abc", ""));
    assert!(!contains_str("ab", "abc"));
}

#[test]
fn build_cpu_uptime_and_drives() {
    assert_eq!(os_build("26100", Some(1234)), "26100.1234");
    assert_eq!(os_build("26100", None), "26100");
    assert_eq!(cpu_label(Some("  Intel(R) Core(TM)  \t")), "Intel(R) Core(TM)");
    assert_eq!(cpu_label(Some("   ")), "");
    assert_eq!(cpu_label(None), "Unknown CPU");
    assert_eq!(uptime_from_millis(90_500), "1m");
    assert_eq!(uptime_from_millis(3_600_000), "1h 0m");
    assert_eq!(drive_root('C'), "C:\\");
    let roots = drive_roots();
    assert_eq!(roots.len(), 26);
    assert_eq!(roots[0], "A:\\");
    assert_eq!(roots[25], "Z:\\");
    assert!(is_fixed_drive(3));
    assert!(!is_fixed_drive(2));
}

#[test]
fn icon_decodes_png_pixels() {
    let picture = image::RgbaImage::from_raw(2, 1, vec![1, 2, 3, 4, 5, 6, 7, 8]).unwrap();
    let mut png: Vec<u8> = Vec::new();
    picture
        .write_to(&mut std::io::Cursor::new(&mut png), image::ImageFormat::Png)
        .unwrap();
    let icon = icon_pixels(&png);
    assert_eq!(icon.width, 2);
    assert_eq!(icon.height, 1);
    assert_eq!(icon.rgba, vec![1, 2, 3, 4, 5, 6, 7, 8]);
}

#[test]
fn undecodable_icon_is_empty() {
    let icon = icon_pixels(b"not an image");
    assert!(icon.rgba.is_empty());
    assert_eq!((icon.width, icon.height), (0, 0));
    let given = icon_from_decoded(Some((vec![9, 9, 9, 9], 1, 1)));
    assert_eq!(given.rgba, vec![9, 9, 9, 9]);
}
