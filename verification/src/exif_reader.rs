//! Reading the EXIF block of an image file, and the summary of a file's bytes.

use vstd::prelude::*;
use crate::exif_data::{
    empty_exif, empty_view, entries_view, exif_from_entries, summary_of, EntryView, ExifData,
    ExifEntry, TagContext, TagId,
};

verus! {

/// The fields that the EXIF reader finds in the bytes `data` of an image
/// file (JPEG, PNG, HEIF, WebP or TIFF container), each with its value
/// rendered as display text; absent when the reader reports an error (no
/// EXIF block, unknown format, malformed data).
pub uninterp spec fn exif_block_entries(data: Seq<u8>) -> Option<Seq<EntryView>>;

/// Calls `exif::Reader::read_from_container` on the bytes of a file and,
/// on success, converts every field that `Exif::fields` lists, in its order,
/// to an entry: the tag's group and number, the index of its image
/// directory, and `Field::display_value` written out as text. The contract
/// claims only that the outcome is a function of the bytes, named
/// `exif_block_entries`; it states nothing about which fields a file holds
/// or how a value is displayed.
#[verifier::external_body]
fn read_exif_entries(data: &[u8]) -> (r: Option<Vec<ExifEntry>>)
    ensures
        match r {
            Some(v) => exif_block_entries(data@) == Some(entries_view(v@)),
            None => exif_block_entries(data@) is None,
        },
{
    let mut cursor = std::io::Cursor::new(data);
    match exif::Reader::new().read_from_container(&mut cursor) {
        Ok(block) => Some(block.fields().map(|f| ExifEntry {
            tag: TagId { context: match f.tag.0 {
                exif::Context::Tiff => TagContext::Tiff,
                exif::Context::Exif => TagContext::Exif,
                exif::Context::Gps => TagContext::Gps,
                exif::Context::Interop => TagContext::Interop,
                _ => TagContext::Other,
            }, number: f.tag.1 },
            ifd: f.ifd_num.0,
            text: f.display_value().to_string(),
        }).collect()),
        Err(_) => None,
    }
}

/// The EXIF summary of an image file whose bytes are `data`; a file with no
/// readable EXIF block gives the empty summary rather than an error.
pub fn extract_exif(data: &[u8]) -> (r: ExifData)
    ensures
        r@ == match exif_block_entries(data@) {
            Some(es) => summary_of(es),
            None => empty_view(),
        },
{
    match read_exif_entries(data) {
        Some(entries) => exif_from_entries(&entries),
        None => empty_exif(),
    }
}

} // verus!
