use fontsync::fontfile::{
    get_font_mime_type, is_font_file, is_installable_font_file, rename_candidate, valid_font_magic,
};
use fontsync::hashing::sha256_hex;
use fontsync::text::{format_file_size, sanitize_filename, u64_to_dec_string};

#[test]
fn test_calculate_sha256() {
    let result = sha256_hex(b"Hello, world!\n");
    assert!(!result.is_empty());
    assert_eq!(result.len(), 64); // SHA256 hex string is 64 characters
}

#[test]
fn test_is_font_file() {
    assert!(is_font_file("test.ttf"));
    assert!(is_font_file("test.otf"));
    assert!(is_font_file("test.woff"));
    assert!(is_font_file("test.woff2"));
    assert!(!is_font_file("test.txt"));
    assert!(!is_font_file("test"));
}

#[test]
fn test_is_font_file_edge_names() {
    assert!(is_font_file("TEST.TTF"));
    assert!(is_font_file("a.b.ttf"));
    assert!(!is_font_file(".ttf"));
    assert!(!is_font_file("test."));
    assert!(is_font_file("test.pfa"));
    assert!(is_font_file("test.pfm"));
    assert!(!is_installable_font_file("test.pfa"));
    assert!(is_installable_font_file("test.ttc"));
}

#[test]
fn test_get_font_mime_type() {
    assert_eq!(get_font_mime_type("test.ttf"), "font/ttf");
    assert_eq!(get_font_mime_type("test.otf"), "font/otf");
    assert_eq!(get_font_mime_type("test.woff"), "font/woff");
    assert_eq!(get_font_mime_type("test.woff2"), "font/woff2");
    assert_eq!(get_font_mime_type("test.txt"), "application/octet-stream");
}

#[test]
fn test_get_font_mime_type_rare() {
    assert_eq!(get_font_mime_type("test.eot"), "application/vnd.ms-fontobject");
    assert_eq!(get_font_mime_type("test.TTC"), "font/collection");
    assert_eq!(get_font_mime_type("test.pfb"), "application/x-font-type1");
    assert_eq!(get_font_mime_type("test.afm"), "application/x-font-afm");
    assert_eq!(get_font_mime_type("noext"), "application/octet-stream");
}

#[test]
fn test_format_file_size() {
    assert_eq!(format_file_size(0), "0 B");
    assert_eq!(format_file_size(1023), "1023 B");
    assert_eq!(format_file_size(1024), "1.00 KB");
    assert_eq!(format_file_size(1536), "1.50 KB");
    assert_eq!(format_file_size(1024 * 1024), "1.00 MB");
}

#[test]
fn test_format_file_size_large_units() {
    assert_eq!(format_file_size(1024 * 1024 * 1024), "1.00 GB");
    assert_eq!(format_file_size(1024u64 * 1024 * 1024 * 1024), "1.00 TB");
    assert_eq!(format_file_size(1024 + 256), "1.25 KB");
}

#[test]
fn test_format_file_size_rounds_to_nearest() {
    // 1535 / 1024 = 1.49902...: the hundredths round up, not truncate.
    assert_eq!(format_file_size(1535), "1.50 KB");
    // 1029 / 1024 = 1.00488...: rounds down.
    assert_eq!(format_file_size(1029), "1.00 KB");
    // 2047 / 1024 = 1.99902...: rounding carries into the integer part.
    assert_eq!(format_file_size(2047), "2.00 KB");
    // Just below the next unit the carry shows the full integer part.
    assert_eq!(format_file_size(1024 * 1024 - 1), "1024.00 KB");
    assert_eq!(format_file_size(2 * 1024 * 1024 * 1024 - 1), "2.00 GB");
}

#[test]
fn test_sanitize_filename() {
    let sanitized = sanitize_filename("My Font (v1).ttf");
    assert_eq!(sanitized, "My_Font__v1_.ttf");
}

#[test]
fn test_validate_font_file() {
    assert!(valid_font_magic(&[0x00, 0x01, 0x00, 0x00]));
    assert!(valid_font_magic(&[0x4f, 0x54, 0x54, 0x4f, 0xff]));
    assert!(valid_font_magic(&[0x77, 0x4f, 0x46, 0x46]));
    assert!(valid_font_magic(&[0x77, 0x4f, 0x46, 0x32]));
    assert!(valid_font_magic(&[0x74, 0x74, 0x63, 0x66]));
    assert!(!valid_font_magic(&[0x00, 0x00, 0x00, 0x00]));
    assert!(!valid_font_magic(&[0x00, 0x01]));
    assert!(is_font_file("sample.ttf"));
}

#[test]
fn test_decimal_rendering() {
    assert_eq!(u64_to_dec_string(0), "0");
    assert_eq!(u64_to_dec_string(7), "7");
    assert_eq!(u64_to_dec_string(1234567890), "1234567890");
    assert_eq!(u64_to_dec_string(u64::MAX), "18446744073709551615");
}

#[test]
fn test_rename_candidate_shapes() {
    assert_eq!(rename_candidate("X.ttf", 1), "X (1).ttf");
    assert_eq!(rename_candidate("My Font.woff2", 12), "My Font (12).woff2");
    assert_eq!(rename_candidate("noext", 3), "noext (3)");
    assert_eq!(rename_candidate(".hidden", 2), ".hidden (2)");
}
