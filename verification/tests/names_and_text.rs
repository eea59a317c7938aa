use exif_catcher::filename::{
    eq_ignore_ascii_case, extension_of, file_stem_of, is_heif_name, is_listed_photo,
    is_removable_original, is_webp_name,
};
use exif_catcher::textparse::{parse_unsigned, strip_quotes};

#[test]
fn extension_follows_path_rules() {
    assert_eq!(extension_of("photo.JPG"), Some("JPG"));
    assert_eq!(extension_of("archive.tar.gz"), Some("gz"));
    assert_eq!(extension_of("noext"), None);
    assert_eq!(extension_of(".bashrc"), None);
    assert_eq!(extension_of(".hidden.png"), Some("png"));
    assert_eq!(extension_of("trailing."), Some(""));
    assert_eq!(extension_of(".."), None);
    assert_eq!(extension_of("照片.heic"), Some("heic"));
}

#[test]
fn extension_agrees_with_std_path() {
    for name in ["photo.JPG", "archive.tar.gz", "noext", ".bashrc", ".hidden.png", "trailing.", "a..b", "...", "x.y.z"] {
        let p = std::path::Path::new(name);
        assert_eq!(extension_of(name), p.extension().and_then(|e| e.to_str()), "{}", name);
        assert_eq!(Some(file_stem_of(name)), p.file_stem().and_then(|e| e.to_str()), "{}", name);
    }
}

#[test]
fn stem_follows_path_rules() {
    assert_eq!(file_stem_of("IMG_0001.jpg"), "IMG_0001");
    assert_eq!(file_stem_of("archive.tar.gz"), "archive.tar");
    assert_eq!(file_stem_of(".bashrc"), ".bashrc");
    assert_eq!(file_stem_of("noext"), "noext");
    assert_eq!(file_stem_of(".."), "..");
}

#[test]
fn stem_dot_extension_rebuilds_name() {
    for name in ["IMG_0001.jpg", "a.b.c", "x.", ".h.png"] {
        let ext = extension_of(name).unwrap();
        assert_eq!(format!("{}.{}", file_stem_of(name), ext), name);
    }
}

#[test]
fn ascii_case_is_ignored() {
    assert!(eq_ignore_ascii_case("WebP", "webp"));
    assert!(eq_ignore_ascii_case("", ""));
    assert!(!eq_ignore_ascii_case("webp", "web"));
    assert!(!eq_ignore_ascii_case("é", "É"));
}

#[test]
fn listed_photo_formats() {
    for name in ["a.jpg", "b.JPEG", "c.Png", "d.heic", "e.WEBP"] {
        assert!(is_listed_photo(name), "{}", name);
    }
    for name in ["a.gif", "b.heif", "jpg", ".jpg", "c.jpg.txt", "d"] {
        assert!(!is_listed_photo(name), "{}", name);
    }
}

#[test]
fn format_predicates() {
    assert!(is_webp_name("x.WebP"));
    assert!(!is_webp_name("x.jpg"));
    assert!(is_heif_name("x.HEIC"));
    assert!(is_heif_name("x.heif"));
    assert!(!is_heif_name("x.png"));
    assert!(is_removable_original("x.heif"));
    assert!(is_removable_original("x.JPG"));
    assert!(!is_removable_original("x.webp"));
}

#[test]
fn quotes_are_stripped() {
    assert_eq!(strip_quotes("\"Canon\""), "Canon");
    assert_eq!(strip_quotes("\"\"EOS R5\""), "EOS R5");
    assert_eq!(strip_quotes("\"\"\""), "");
    assert_eq!(strip_quotes("a\"b"), "a\"b");
    assert_eq!(strip_quotes(""), "");
    let once = strip_quotes("\"\"x\"");
    assert_eq!(strip_quotes(&once), once);
}

#[test]
fn quotes_stripped_like_std() {
    for s in ["\"Canon\"", "\"\"", "x", "\"a\"b\"", "  \"a\" "] {
        assert_eq!(strip_quotes(s), s.trim_matches('"'));
    }
}

#[test]
fn unsigned_numbers_are_read_like_std() {
    assert_eq!(parse_unsigned("4000", u32::MAX), Some(4000));
    assert_eq!(parse_unsigned("+7", u32::MAX), Some(7));
    assert_eq!(parse_unsigned("007", u32::MAX), Some(7));
    assert_eq!(parse_unsigned("4294967295", u32::MAX), Some(u32::MAX));
    assert_eq!(parse_unsigned("4294967296", u32::MAX), None);
    assert_eq!(parse_unsigned("", u32::MAX), None);
    assert_eq!(parse_unsigned("+", u32::MAX), None);
    assert_eq!(parse_unsigned("-1", u32::MAX), None);
    assert_eq!(parse_unsigned("1 2", u32::MAX), None);
    assert_eq!(parse_unsigned("255", 255), Some(255));
    assert_eq!(parse_unsigned("256", 255), None);
    for s in ["0", "12", "+3", "-0", "99999999999", "1e3", " 5", "0x10"] {
        assert_eq!(parse_unsigned(s, u32::MAX), s.parse::<u32>().ok(), "{}", s);
        assert_eq!(parse_unsigned(s, 255).map(|v| v as u8), s.parse::<u8>().ok(), "{}", s);
    }
}
