//! The EXIF summary of a photo: which fields of the EXIF block are read, in
//! which order of preference, and how their text becomes the summary.

use vstd::prelude::*;
use crate::textparse::{parse_unsigned, spec_parse_unsigned, strip_quotes, trim_quotes};

verus! {

/// The group of tags a tag number belongs to.
#[derive(PartialEq, Eq, Structural, Clone, Copy, Debug)]
pub enum TagContext {
    Tiff,
    Exif,
    Gps,
    Interop,
    Other,
}

/// An EXIF tag: its group and its number.
#[derive(PartialEq, Eq, Structural, Clone, Copy, Debug)]
pub struct TagId {
    pub context: TagContext,
    pub number: u16,
}

/// One field of an EXIF block: its tag, the index of the image directory it
/// sits in (0 is the primary image), and its value rendered as text.
#[derive(Debug)]
pub struct ExifEntry {
    pub tag: TagId,
    pub ifd: u16,
    pub text: String,
}

/// The mathematical view of an [`ExifEntry`].
pub struct EntryView {
    pub tag: TagId,
    pub ifd: u16,
    pub text: Seq<char>,
}

impl View for ExifEntry {
    type V = EntryView;

    open spec fn view(&self) -> EntryView {
        EntryView { tag: self.tag, ifd: self.ifd, text: self.text@ }
    }
}

/// The view of a list of entries.
pub open spec fn entries_view(v: Seq<ExifEntry>) -> Seq<EntryView> {
    v.map_values(|e: ExifEntry| e@)
}

/// The tags that the summary reads.
#[derive(PartialEq, Eq, Structural, Clone, Copy, Debug)]
pub enum SummaryTag {
    Make,
    Model,
    LensModel,
    PhotographicSensitivity,
    IsoSpeed,
    ExposureTime,
    ShutterSpeedValue,
    FNumber,
    ApertureValue,
    FocalLength,
    DateTime,
    PixelXDimension,
    ImageWidth,
    PixelYDimension,
    ImageLength,
}

impl SummaryTag {
    /// The group and number of the tag, as the EXIF standard assigns them.
    pub open spec fn spec_id(self) -> TagId {
        match self {
            SummaryTag::Make => TagId { context: TagContext::Tiff, number: 0x10f },
            SummaryTag::Model => TagId { context: TagContext::Tiff, number: 0x110 },
            SummaryTag::LensModel => TagId { context: TagContext::Exif, number: 0xa434 },
            SummaryTag::PhotographicSensitivity => TagId { context: TagContext::Exif, number: 0x8827 },
            SummaryTag::IsoSpeed => TagId { context: TagContext::Exif, number: 0x8833 },
            SummaryTag::ExposureTime => TagId { context: TagContext::Exif, number: 0x829a },
            SummaryTag::ShutterSpeedValue => TagId { context: TagContext::Exif, number: 0x9201 },
            SummaryTag::FNumber => TagId { context: TagContext::Exif, number: 0x829d },
            SummaryTag::ApertureValue => TagId { context: TagContext::Exif, number: 0x9202 },
            SummaryTag::FocalLength => TagId { context: TagContext::Exif, number: 0x920a },
            SummaryTag::DateTime => TagId { context: TagContext::Tiff, number: 0x132 },
            SummaryTag::PixelXDimension => TagId { context: TagContext::Exif, number: 0xa002 },
            SummaryTag::ImageWidth => TagId { context: TagContext::Tiff, number: 0x100 },
            SummaryTag::PixelYDimension => TagId { context: TagContext::Exif, number: 0xa003 },
            SummaryTag::ImageLength => TagId { context: TagContext::Tiff, number: 0x101 },
        }
    }

    /// The group and number of the tag.
    pub fn id(self) -> (r: TagId)
        ensures
            r == self.spec_id(),
    {
        match self {
            SummaryTag::Make => TagId { context: TagContext::Tiff, number: 0x10f },
            SummaryTag::Model => TagId { context: TagContext::Tiff, number: 0x110 },
            SummaryTag::LensModel => TagId { context: TagContext::Exif, number: 0xa434 },
            SummaryTag::PhotographicSensitivity => TagId { context: TagContext::Exif, number: 0x8827 },
            SummaryTag::IsoSpeed => TagId { context: TagContext::Exif, number: 0x8833 },
            SummaryTag::ExposureTime => TagId { context: TagContext::Exif, number: 0x829a },
            SummaryTag::ShutterSpeedValue => TagId { context: TagContext::Exif, number: 0x9201 },
            SummaryTag::FNumber => TagId { context: TagContext::Exif, number: 0x829d },
            SummaryTag::ApertureValue => TagId { context: TagContext::Exif, number: 0x9202 },
            SummaryTag::FocalLength => TagId { context: TagContext::Exif, number: 0x920a },
            SummaryTag::DateTime => TagId { context: TagContext::Tiff, number: 0x132 },
            SummaryTag::PixelXDimension => TagId { context: TagContext::Exif, number: 0xa002 },
            SummaryTag::ImageWidth => TagId { context: TagContext::Tiff, number: 0x100 },
            SummaryTag::PixelYDimension => TagId { context: TagContext::Exif, number: 0xa003 },
            SummaryTag::ImageLength => TagId { context: TagContext::Tiff, number: 0x101 },
        }
    }
}

/// Index of the last entry of the primary image with tag `tag`, or `-1`.
pub open spec fn last_primary_index(es: Seq<EntryView>, tag: TagId) -> int
    decreases es.len(),
{
    if es.len() == 0 {
        -1
    } else if es.last().tag == tag && es.last().ifd == 0 {
        es.len() - 1
    } else {
        last_primary_index(es.drop_last(), tag)
    }
}

/// Index of the first entry with tag `tag` in any image directory, or `-1`.
pub open spec fn first_index(es: Seq<EntryView>, tag: TagId) -> int
    decreases es.len(),
{
    if es.len() == 0 {
        -1
    } else {
        let f = first_index(es.drop_last(), tag);
        if f >= 0 {
            f
        } else if es.last().tag == tag {
            es.len() - 1
        } else {
            -1
        }
    }
}

/// The text of a tag: from the primary image's field when there is one (the
/// last of them when the block repeats it), else from the first field with
/// that tag in any directory.
pub open spec fn field_text(es: Seq<EntryView>, tag: TagId) -> Option<Seq<char>> {
    let p = last_primary_index(es, tag);
    let f = first_index(es, tag);
    if p >= 0 {
        Some(es[p].text)
    } else if f >= 0 {
        Some(es[f].text)
    } else {
        None
    }
}

pub proof fn lemma_indices_in_range(es: Seq<EntryView>, tag: TagId)
    ensures
        -1 <= last_primary_index(es, tag) < es.len(),
        -1 <= first_index(es, tag) < es.len(),
        last_primary_index(es, tag) >= 0 ==> es[last_primary_index(es, tag)].tag == tag
            && es[last_primary_index(es, tag)].ifd == 0,
        first_index(es, tag) >= 0 ==> es[first_index(es, tag)].tag == tag,
    decreases es.len(),
{
    if es.len() > 0 {
        lemma_indices_in_range(es.drop_last(), tag);
    }
}

/// Some entry of `es` has tag `tag`.
pub open spec fn has_tag(es: Seq<EntryView>, tag: TagId) -> bool {
    exists|i: int| 0 <= i < es.len() && (#[trigger] es[i]).tag == tag
}

/// Some entry of the primary image in `es` has tag `tag`.
pub open spec fn has_primary_tag(es: Seq<EntryView>, tag: TagId) -> bool {
    exists|i: int| 0 <= i < es.len() && (#[trigger] es[i]).tag == tag && es[i].ifd == 0
}

/// Some entry of `es` with tag `tag` has the text `x`.
pub open spec fn text_of_some_entry(es: Seq<EntryView>, tag: TagId, x: Seq<char>) -> bool {
    exists|i: int| 0 <= i < es.len() && (#[trigger] es[i]).tag == tag && es[i].text == x
}

/// Some entry of the primary image in `es` with tag `tag` has the text `x`.
pub open spec fn text_of_primary_entry(es: Seq<EntryView>, tag: TagId, x: Seq<char>) -> bool {
    exists|i: int| 0 <= i < es.len() && (#[trigger] es[i]).tag == tag && es[i].ifd == 0 && es[i].text == x
}

proof fn lemma_indices_found(es: Seq<EntryView>, tag: TagId)
    ensures
        first_index(es, tag) >= 0 <==> has_tag(es, tag),
        last_primary_index(es, tag) >= 0 <==> has_primary_tag(es, tag),
    decreases es.len(),
{
    lemma_indices_in_range(es, tag);
    if es.len() > 0 {
        let d = es.drop_last();
        lemma_indices_found(d, tag);
        lemma_indices_in_range(d, tag);
        if has_tag(d, tag) {
            let i = choose|i: int| 0 <= i < d.len() && (#[trigger] d[i]).tag == tag;
            assert(es[i] == d[i]);
        }
        if has_tag(es, tag) && !has_tag(d, tag) {
            let i = choose|i: int| 0 <= i < es.len() && (#[trigger] es[i]).tag == tag;
            if i < d.len() {
                assert(d[i] == es[i]);
            }
        }
        if has_primary_tag(d, tag) {
            let i = choose|i: int| 0 <= i < d.len() && (#[trigger] d[i]).tag == tag && d[i].ifd == 0;
            assert(es[i] == d[i]);
        }
        if has_primary_tag(es, tag) && !has_primary_tag(d, tag) {
            let i = choose|i: int| 0 <= i < es.len() && (#[trigger] es[i]).tag == tag && es[i].ifd == 0;
            if i < d.len() {
                assert(d[i] == es[i]);
            }
        }
        if first_index(d, tag) >= 0 {
            assert(es[first_index(d, tag)] == d[first_index(d, tag)]);
        }
        if last_primary_index(d, tag) >= 0 {
            assert(es[last_primary_index(d, tag)] == d[last_primary_index(d, tag)]);
        }
        assert(es.last() == es[es.len() - 1]);
    }
}

/// The text of a tag is the text of an entry with that tag: of an entry of
/// the primary image when the primary image has one, else of any entry; it
/// is absent exactly when no entry has the tag.
pub proof fn lemma_field_text_source(es: Seq<EntryView>, tag: TagId)
    ensures
        field_text(es, tag) is Some <==> has_tag(es, tag),
        field_text(es, tag) matches Some(x) ==> text_of_some_entry(es, tag, x),
        has_primary_tag(es, tag) ==> (field_text(es, tag) matches Some(x) && text_of_primary_entry(
            es,
            tag,
            x,
        )),
{
    lemma_indices_found(es, tag);
    lemma_indices_in_range(es, tag);
    let p = last_primary_index(es, tag);
    let f = first_index(es, tag);
    if p >= 0 {
        assert(es[p].tag == tag && es[p].ifd == 0);
        assert(text_of_some_entry(es, tag, es[p].text));
        assert(text_of_primary_entry(es, tag, es[p].text));
    } else if f >= 0 {
        assert(es[f].tag == tag);
        assert(text_of_some_entry(es, tag, es[f].text));
    }
}

/// Some entry of `es` with tag `tag` has a text that is `x` once its
/// surrounding double quotes are removed.
pub open spec fn trimmed_text_of_some_entry(es: Seq<EntryView>, tag: TagId, x: Seq<char>) -> bool {
    exists|i: int| 0 <= i < es.len() && (#[trigger] es[i]).tag == tag && trim_quotes(es[i].text) == x
}

/// Some entry of `es` with tag `tag` has a text that reads as the number `n`.
pub open spec fn number_of_some_entry(es: Seq<EntryView>, tag: TagId, n: u32) -> bool {
    exists|i: int|
        0 <= i < es.len() && (#[trigger] es[i]).tag == tag && spec_parse_unsigned(es[i].text, u32::MAX as nat)
            == Some(n as nat)
}

proof fn lemma_trimmed_source(es: Seq<EntryView>, tag: TagId)
    ensures
        quotes_trimmed(field_text(es, tag)) is Some <==> has_tag(es, tag),
        quotes_trimmed(field_text(es, tag)) matches Some(x) ==> trimmed_text_of_some_entry(es, tag, x),
{
    lemma_field_text_source(es, tag);
    if let Some(y) = field_text(es, tag) {
        let i = choose|i: int| 0 <= i < es.len() && (#[trigger] es[i]).tag == tag && es[i].text == y;
        assert(trim_quotes(es[i].text) == trim_quotes(y));
    }
}

proof fn lemma_fallback_source(es: Seq<EntryView>, first: TagId, second: TagId)
    ensures
        or_else(field_text(es, first), field_text(es, second)) is Some <==> (has_tag(es, first)
            || has_tag(es, second)),
        or_else(field_text(es, first), field_text(es, second)) matches Some(x) ==> (
        text_of_some_entry(es, first, x) || text_of_some_entry(es, second, x)),
        has_tag(es, first) ==> or_else(field_text(es, first), field_text(es, second)) == field_text(
            es,
            first,
        ),
{
    lemma_field_text_source(es, first);
    lemma_field_text_source(es, second);
}

proof fn lemma_number_source(es: Seq<EntryView>, first: TagId, second: TagId)
    ensures
        !has_tag(es, first) && !has_tag(es, second) ==> as_u32(
            or_else(field_text(es, first), field_text(es, second)),
        ) is None,
        as_u32(or_else(field_text(es, first), field_text(es, second))) matches Some(n) ==> (
        number_of_some_entry(es, first, n) || number_of_some_entry(es, second, n)),
{
    lemma_fallback_source(es, first, second);
    let o = or_else(field_text(es, first), field_text(es, second));
    if let Some(y) = o {
        if let Some(n) = as_u32(o) {
            let v = spec_parse_unsigned(y, u32::MAX as nat)->0;
            assert(spec_parse_unsigned(y, u32::MAX as nat) == Some(v));
            assert(v <= u32::MAX);
            assert(v == n as nat);
            if text_of_some_entry(es, first, y) {
                let i = choose|i: int| 0 <= i < es.len() && (#[trigger] es[i]).tag == first && es[i].text == y;
                assert(es[i].tag == first);
            } else {
                let i = choose|i: int| 0 <= i < es.len() && (#[trigger] es[i]).tag == second && es[i].text == y;
                assert(es[i].tag == second);
            }
        }
    }
}

/// The view of an optional text.
pub open spec fn opt_text(o: Option<String>) -> Option<Seq<char>> {
    match o {
        Some(s) => Some(s@),
        None => None,
    }
}

/// `a`, or `b` when `a` is absent.
pub open spec fn or_else(a: Option<Seq<char>>, b: Option<Seq<char>>) -> Option<Seq<char>> {
    match a {
        Some(x) => Some(x),
        None => b,
    }
}

/// The text with surrounding double quotes removed.
pub open spec fn quotes_trimmed(a: Option<Seq<char>>) -> Option<Seq<char>> {
    match a {
        Some(x) => Some(trim_quotes(x)),
        None => None,
    }
}

/// The text read as an unsigned 32-bit number; absent when it is not one.
pub open spec fn as_u32(a: Option<Seq<char>>) -> Option<u32> {
    match a {
        Some(x) => match spec_parse_unsigned(x, u32::MAX as nat) {
            Some(v) => Some(v as u32),
            None => None,
        },
        None => None,
    }
}

/// The EXIF summary of one photo.
#[derive(Debug)]
pub struct ExifData {
    pub make: Option<String>,
    pub model: Option<String>,
    pub lens: Option<String>,
    pub iso: Option<String>,
    pub shutter_speed: Option<String>,
    pub aperture: Option<String>,
    pub focal_length: Option<String>,
    pub date_time: Option<String>,
    pub width: Option<u32>,
    pub height: Option<u32>,
}

/// The mathematical view of an [`ExifData`].
pub struct ExifView {
    pub make: Option<Seq<char>>,
    pub model: Option<Seq<char>>,
    pub lens: Option<Seq<char>>,
    pub iso: Option<Seq<char>>,
    pub shutter_speed: Option<Seq<char>>,
    pub aperture: Option<Seq<char>>,
    pub focal_length: Option<Seq<char>>,
    pub date_time: Option<Seq<char>>,
    pub width: Option<u32>,
    pub height: Option<u32>,
}

impl View for ExifData {
    type V = ExifView;

    open spec fn view(&self) -> ExifView {
        ExifView {
            make: opt_text(self.make),
            model: opt_text(self.model),
            lens: opt_text(self.lens),
            iso: opt_text(self.iso),
            shutter_speed: opt_text(self.shutter_speed),
            aperture: opt_text(self.aperture),
            focal_length: opt_text(self.focal_length),
            date_time: opt_text(self.date_time),
            width: self.width,
            height: self.height,
        }
    }
}

/// The summary with no field at all.
pub open spec fn empty_view() -> ExifView {
    ExifView {
        make: None,
        model: None,
        lens: None,
        iso: None,
        shutter_speed: None,
        aperture: None,
        focal_length: None,
        date_time: None,
        width: None,
        height: None,
    }
}

/// The summary of an EXIF block whose fields are `es`: make, model and lens
/// without surrounding quotes; ISO from the photographic sensitivity, else
/// the ISO speed; shutter speed from the exposure time, else the shutter
/// speed value; aperture from the F-number, else the aperture value; focal
/// length and date as they are; width and height from the pixel dimension,
/// else the image width or length, kept only when the text is a number.
pub open spec fn summary_of(es: Seq<EntryView>) -> ExifView {
    ExifView {
        make: quotes_trimmed(field_text(es, SummaryTag::Make.spec_id())),
        model: quotes_trimmed(field_text(es, SummaryTag::Model.spec_id())),
        lens: quotes_trimmed(field_text(es, SummaryTag::LensModel.spec_id())),
        iso: or_else(
            field_text(es, SummaryTag::PhotographicSensitivity.spec_id()),
            field_text(es, SummaryTag::IsoSpeed.spec_id()),
        ),
        shutter_speed: or_else(
            field_text(es, SummaryTag::ExposureTime.spec_id()),
            field_text(es, SummaryTag::ShutterSpeedValue.spec_id()),
        ),
        aperture: or_else(
            field_text(es, SummaryTag::FNumber.spec_id()),
            field_text(es, SummaryTag::ApertureValue.spec_id()),
        ),
        focal_length: field_text(es, SummaryTag::FocalLength.spec_id()),
        date_time: field_text(es, SummaryTag::DateTime.spec_id()),
        width: as_u32(
            or_else(
                field_text(es, SummaryTag::PixelXDimension.spec_id()),
                field_text(es, SummaryTag::ImageWidth.spec_id()),
            ),
        ),
        height: as_u32(
            or_else(
                field_text(es, SummaryTag::PixelYDimension.spec_id()),
                field_text(es, SummaryTag::ImageLength.spec_id()),
            ),
        ),
    }
}

/// Where each part of the summary comes from. Make (TIFF 0x10f), model
/// (TIFF 0x110) and lens (Exif 0xa434) come only from their own tag, without
/// surrounding quotes, and are absent exactly when the tag is. ISO comes from
/// the photographic sensitivity (Exif 0x8827), else the ISO speed (Exif
/// 0x8833); shutter speed from the exposure time (Exif 0x829a), else the
/// shutter speed value (Exif 0x9201); aperture from the F-number (Exif
/// 0x829d), else the aperture value (Exif 0x9202). Focal length (Exif
/// 0x920a) and date (TIFF 0x132) come only from their own tag. Width comes
/// from the pixel X dimension (Exif 0xa002) or the image width (TIFF 0x100),
/// height from the pixel Y dimension (Exif 0xa003) or the image length
/// (TIFF 0x101), as the number their text spells.
pub proof fn lemma_summary_sources(es: Seq<EntryView>)
    ensures
        summary_of(es).make is Some <==> has_tag(es, TagId { context: TagContext::Tiff, number: 0x10f }),
        summary_of(es).make matches Some(x) ==> trimmed_text_of_some_entry(
            es,
            TagId { context: TagContext::Tiff, number: 0x10f },
            x,
        ),
        summary_of(es).model is Some <==> has_tag(es, TagId { context: TagContext::Tiff, number: 0x110 }),
        summary_of(es).model matches Some(x) ==> trimmed_text_of_some_entry(
            es,
            TagId { context: TagContext::Tiff, number: 0x110 },
            x,
        ),
        summary_of(es).lens is Some <==> has_tag(es, TagId { context: TagContext::Exif, number: 0xa434 }),
        summary_of(es).lens matches Some(x) ==> trimmed_text_of_some_entry(
            es,
            TagId { context: TagContext::Exif, number: 0xa434 },
            x,
        ),
        summary_of(es).iso is Some <==> (has_tag(es, TagId { context: TagContext::Exif, number: 0x8827 })
            || has_tag(es, TagId { context: TagContext::Exif, number: 0x8833 })),
        summary_of(es).iso matches Some(x) ==> (text_of_some_entry(
            es,
            TagId { context: TagContext::Exif, number: 0x8827 },
            x,
        ) || text_of_some_entry(es, TagId { context: TagContext::Exif, number: 0x8833 }, x)),
        has_tag(es, TagId { context: TagContext::Exif, number: 0x8827 }) ==> summary_of(es).iso
            == field_text(es, TagId { context: TagContext::Exif, number: 0x8827 }),
        summary_of(es).shutter_speed is Some <==> (has_tag(
            es,
            TagId { context: TagContext::Exif, number: 0x829a },
        ) || has_tag(es, TagId { context: TagContext::Exif, number: 0x9201 })),
        summary_of(es).shutter_speed matches Some(x) ==> (text_of_some_entry(
            es,
            TagId { context: TagContext::Exif, number: 0x829a },
            x,
        ) || text_of_some_entry(es, TagId { context: TagContext::Exif, number: 0x9201 }, x)),
        has_tag(es, TagId { context: TagContext::Exif, number: 0x829a }) ==> summary_of(
            es,
        ).shutter_speed == field_text(es, TagId { context: TagContext::Exif, number: 0x829a }),
        summary_of(es).aperture is Some <==> (has_tag(
            es,
            TagId { context: TagContext::Exif, number: 0x829d },
        ) || has_tag(es, TagId { context: TagContext::Exif, number: 0x9202 })),
        summary_of(es).aperture matches Some(x) ==> (text_of_some_entry(
            es,
            TagId { context: TagContext::Exif, number: 0x829d },
            x,
        ) || text_of_some_entry(es, TagId { context: TagContext::Exif, number: 0x9202 }, x)),
        has_tag(es, TagId { context: TagContext::Exif, number: 0x829d }) ==> summary_of(es).aperture
            == field_text(es, TagId { context: TagContext::Exif, number: 0x829d }),
        summary_of(es).focal_length is Some <==> has_tag(
            es,
            TagId { context: TagContext::Exif, number: 0x920a },
        ),
        summary_of(es).focal_length matches Some(x) ==> text_of_some_entry(
            es,
            TagId { context: TagContext::Exif, number: 0x920a },
            x,
        ),
        summary_of(es).date_time is Some <==> has_tag(es, TagId { context: TagContext::Tiff, number: 0x132 }),
        summary_of(es).date_time matches Some(x) ==> text_of_some_entry(
            es,
            TagId { context: TagContext::Tiff, number: 0x132 },
            x,
        ),
        summary_of(es).width matches Some(n) ==> (number_of_some_entry(
            es,
            TagId { context: TagContext::Exif, number: 0xa002 },
            n,
        ) || number_of_some_entry(es, TagId { context: TagContext::Tiff, number: 0x100 }, n)),
        !has_tag(es, TagId { context: TagContext::Exif, number: 0xa002 }) && !has_tag(
            es,
            TagId { context: TagContext::Tiff, number: 0x100 },
        ) ==> summary_of(es).width is None,
        summary_of(es).height matches Some(n) ==> (number_of_some_entry(
            es,
            TagId { context: TagContext::Exif, number: 0xa003 },
            n,
        ) || number_of_some_entry(es, TagId { context: TagContext::Tiff, number: 0x101 }, n)),
        !has_tag(es, TagId { context: TagContext::Exif, number: 0xa003 }) && !has_tag(
            es,
            TagId { context: TagContext::Tiff, number: 0x101 },
        ) ==> summary_of(es).height is None,
{
    lemma_trimmed_source(es, SummaryTag::Make.spec_id());
    lemma_trimmed_source(es, SummaryTag::Model.spec_id());
    lemma_trimmed_source(es, SummaryTag::LensModel.spec_id());
    lemma_fallback_source(es, SummaryTag::PhotographicSensitivity.spec_id(), SummaryTag::IsoSpeed.spec_id());
    lemma_fallback_source(es, SummaryTag::ExposureTime.spec_id(), SummaryTag::ShutterSpeedValue.spec_id());
    lemma_fallback_source(es, SummaryTag::FNumber.spec_id(), SummaryTag::ApertureValue.spec_id());
    lemma_field_text_source(es, SummaryTag::FocalLength.spec_id());
    lemma_field_text_source(es, SummaryTag::DateTime.spec_id());
    lemma_number_source(es, SummaryTag::PixelXDimension.spec_id(), SummaryTag::ImageWidth.spec_id());
    lemma_number_source(es, SummaryTag::PixelYDimension.spec_id(), SummaryTag::ImageLength.spec_id());
}

/// The text of `tag` among `entries`, chosen as [`field_text`] says.
pub fn lookup_field(entries: &Vec<ExifEntry>, tag: TagId) -> (r: Option<String>)
    ensures
        opt_text(r) == field_text(entries_view(entries@), tag),
{
    let ghost es = entries_view(entries@);
    let n = entries.len();
    let mut primary: Option<usize> = None;
    let mut first: Option<usize> = None;
    let mut i: usize = 0;
    while i < n
        invariant
            n == entries@.len(),
            es == entries_view(entries@),
            es.len() == n,
            i <= n,
            match primary {
                Some(p) => p as int == last_primary_index(es.take(i as int), tag),
                None => last_primary_index(es.take(i as int), tag) == -1,
            },
            match first {
                Some(f) => f as int == first_index(es.take(i as int), tag),
                None => first_index(es.take(i as int), tag) == -1,
            },
        decreases n - i,
    {
        assert(es.take(i + 1).drop_last() =~= es.take(i as int));
        assert(es.take(i + 1).last() == entries@[i as int]@);
        proof {
            lemma_indices_in_range(es.take(i as int), tag);
        }
        let e = &entries[i];
        if e.tag == tag {
            if e.ifd == 0 {
                primary = Some(i);
            }
            if first.is_none() {
                first = Some(i);
            }
        }
        i = i + 1;
    }
    assert(es.take(n as int) =~= es);
    proof {
        lemma_indices_in_range(es, tag);
    }
    match primary {
        Some(p) => Some(entries[p].text.clone()),
        None => match first {
            Some(f) => Some(entries[f].text.clone()),
            None => None,
        },
    }
}

fn lookup(entries: &Vec<ExifEntry>, tag: SummaryTag) -> (r: Option<String>)
    ensures
        opt_text(r) == field_text(entries_view(entries@), tag.spec_id()),
{
    lookup_field(entries, tag.id())
}

fn trimmed(o: Option<String>) -> (r: Option<String>)
    ensures
        opt_text(r) == quotes_trimmed(opt_text(o)),
{
    match o {
        Some(s) => Some(strip_quotes(s.as_str())),
        None => None,
    }
}

fn first_present(a: Option<String>, b: Option<String>) -> (r: Option<String>)
    ensures
        opt_text(r) == or_else(opt_text(a), opt_text(b)),
{
    match a {
        Some(x) => Some(x),
        None => b,
    }
}

fn number_of(o: Option<String>) -> (r: Option<u32>)
    ensures
        r == as_u32(opt_text(o)),
{
    match o {
        Some(s) => parse_unsigned(s.as_str(), u32::MAX),
        None => None,
    }
}

/// The summary of the fields of an EXIF block.
pub fn exif_from_entries(entries: &Vec<ExifEntry>) -> (r: ExifData)
    ensures
        r@ == summary_of(entries_view(entries@)),
{
    ExifData {
        make: trimmed(lookup(entries, SummaryTag::Make)),
        model: trimmed(lookup(entries, SummaryTag::Model)),
        lens: trimmed(lookup(entries, SummaryTag::LensModel)),
        iso: first_present(
            lookup(entries, SummaryTag::PhotographicSensitivity),
            lookup(entries, SummaryTag::IsoSpeed),
        ),
        shutter_speed: first_present(
            lookup(entries, SummaryTag::ExposureTime),
            lookup(entries, SummaryTag::ShutterSpeedValue),
        ),
        aperture: first_present(
            lookup(entries, SummaryTag::FNumber),
            lookup(entries, SummaryTag::ApertureValue),
        ),
        focal_length: lookup(entries, SummaryTag::FocalLength),
        date_time: lookup(entries, SummaryTag::DateTime),
        width: number_of(
            first_present(
                lookup(entries, SummaryTag::PixelXDimension),
                lookup(entries, SummaryTag::ImageWidth),
            ),
        ),
        height: number_of(
            first_present(
                lookup(entries, SummaryTag::PixelYDimension),
                lookup(entries, SummaryTag::ImageLength),
            ),
        ),
    }
}

/// The summary with no field at all, for a file without an EXIF block.
pub fn empty_exif() -> (r: ExifData)
    ensures
        r@ == empty_view(),
{
    ExifData {
        make: None,
        model: None,
        lens: None,
        iso: None,
        shutter_speed: None,
        aperture: None,
        focal_length: None,
        date_time: None,
        width: None,
        height: None,
    }
}

} // verus!
