use exif_catcher::exif_data::{exif_from_entries, lookup_field, ExifEntry, SummaryTag, TagContext, TagId};
use exif_catcher::exif_reader::extract_exif;

fn entry(tag: SummaryTag, ifd: u16, text: &str) -> ExifEntry {
    ExifEntry { tag: tag.id(), ifd, text: text.to_string() }
}

/// A little-endian TIFF block with ImageWidth (SHORT 4000), Make (ASCII
/// "Canon") and, in a second directory, Model (ASCII "Thumb").
fn tiff_bytes() -> Vec<u8> {
    let mut b: Vec<u8> = vec![0x49, 0x49, 0x2a, 0x00, 0x08, 0x00, 0x00, 0x00];
    // IFD0 at 8: two entries, next IFD at 38 + 6 = 44.
    b.extend_from_slice(&[0x02, 0x00]);
    b.extend_from_slice(&[0x00, 0x01, 0x03, 0x00, 0x01, 0x00, 0x00, 0x00, 0xa0, 0x0f, 0x00, 0x00]);
    b.extend_from_slice(&[0x0f, 0x01, 0x02, 0x00, 0x06, 0x00, 0x00, 0x00, 38, 0x00, 0x00, 0x00]);
    b.extend_from_slice(&[44, 0x00, 0x00, 0x00]);
    b.extend_from_slice(b"Canon\0");
    // IFD1 at 44: one entry, Model "Thumb" at 44 + 2 + 12 + 4 = 62.
    b.extend_from_slice(&[0x01, 0x00]);
    b.extend_from_slice(&[0x10, 0x01, 0x02, 0x00, 0x06, 0x00, 0x00, 0x00, 62, 0x00, 0x00, 0x00]);
    b.extend_from_slice(&[0x00, 0x00, 0x00, 0x00]);
    b.extend_from_slice(b"Thumb\0");
    b
}

#[test]
fn tiff_block_is_summarised() {
    let data = extract_exif(&tiff_bytes());
    assert_eq!(data.make.as_deref(), Some("Canon"));
    assert_eq!(data.width, Some(4000));
    // Model sits only in the thumbnail directory: it is still found.
    assert_eq!(data.model.as_deref(), Some("Thumb"));
    assert_eq!(data.height, None);
    assert_eq!(data.iso, None);
}

#[test]
fn file_without_exif_gives_empty_summary() {
    for bytes in [&b"not an image at all"[..], &[][..], &[0x89, b'P', b'N', b'G', 0x0d, 0x0a, 0x1a, 0x0a][..]] {
        let data = extract_exif(bytes);
        assert!(data.make.is_none() && data.model.is_none() && data.lens.is_none());
        assert!(data.iso.is_none() && data.shutter_speed.is_none() && data.aperture.is_none());
        assert!(data.focal_length.is_none() && data.date_time.is_none());
        assert!(data.width.is_none() && data.height.is_none());
    }
}

#[test]
fn primary_field_wins_over_thumbnail() {
    let entries = vec![
        entry(SummaryTag::Make, 1, "\"Thumb\""),
        entry(SummaryTag::Make, 0, "\"First\""),
        entry(SummaryTag::Make, 0, "\"Last\""),
    ];
    assert_eq!(lookup_field(&entries, SummaryTag::Make.id()).as_deref(), Some("\"Last\""));
    let only_thumb = vec![entry(SummaryTag::Make, 2, "a"), entry(SummaryTag::Make, 1, "b")];
    assert_eq!(lookup_field(&only_thumb, SummaryTag::Make.id()).as_deref(), Some("a"));
    let other = TagId { context: TagContext::Gps, number: 0x10f };
    assert_eq!(lookup_field(&entries, other), None);
}

#[test]
fn summary_prefers_first_tag_then_fallback() {
    let entries = vec![
        entry(SummaryTag::Make, 0, "\"Canon\""),
        entry(SummaryTag::Model, 0, "\"Canon EOS R5\""),
        entry(SummaryTag::LensModel, 0, "\"RF24-70mm F2.8 L IS USM\""),
        entry(SummaryTag::IsoSpeed, 0, "800"),
        entry(SummaryTag::PhotographicSensitivity, 0, "400"),
        entry(SummaryTag::ShutterSpeedValue, 0, "9.97"),
        entry(SummaryTag::ApertureValue, 0, "2.97"),
        entry(SummaryTag::FocalLength, 0, "50 mm"),
        entry(SummaryTag::DateTime, 0, "2024-12-18 14:30:00"),
        entry(SummaryTag::ImageWidth, 0, "8192"),
        entry(SummaryTag::PixelXDimension, 0, "not a number"),
        entry(SummaryTag::ImageLength, 0, "5464"),
    ];
    let d = exif_from_entries(&entries);
    assert_eq!(d.make.as_deref(), Some("Canon"));
    assert_eq!(d.model.as_deref(), Some("Canon EOS R5"));
    assert_eq!(d.lens.as_deref(), Some("RF24-70mm F2.8 L IS USM"));
    assert_eq!(d.iso.as_deref(), Some("400"));
    assert_eq!(d.shutter_speed.as_deref(), Some("9.97"));
    assert_eq!(d.aperture.as_deref(), Some("2.97"));
    assert_eq!(d.focal_length.as_deref(), Some("50 mm"));
    assert_eq!(d.date_time.as_deref(), Some("2024-12-18 14:30:00"));
    // The pixel dimension is present but not a number: no width at all.
    assert_eq!(d.width, None);
    assert_eq!(d.height, Some(5464));
}

#[test]
fn exposure_time_before_shutter_speed_value() {
    let entries = vec![
        entry(SummaryTag::ShutterSpeedValue, 0, "9.97"),
        entry(SummaryTag::ExposureTime, 0, "1/1000"),
        entry(SummaryTag::FNumber, 0, "2.8"),
        entry(SummaryTag::ApertureValue, 0, "2.97"),
        entry(SummaryTag::PixelXDimension, 0, "4000"),
        entry(SummaryTag::ImageWidth, 0, "160"),
    ];
    let d = exif_from_entries(&entries);
    assert_eq!(d.shutter_speed.as_deref(), Some("1/1000"));
    assert_eq!(d.aperture.as_deref(), Some("2.8"));
    assert_eq!(d.width, Some(4000));
    assert_eq!(d.make, None);
}

#[test]
fn no_entries_no_summary() {
    let d = exif_from_entries(&Vec::new());
    assert!(d.make.is_none() && d.width.is_none() && d.iso.is_none());
}
