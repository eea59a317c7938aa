//! One photo of an album: its record in the album's metadata, the WebP
//! conversion planned for it, and whether its original may be removed.

use vstd::prelude::*;
use crate::exif_data::{ExifData, ExifView};
use crate::filename::{
    eq_ascii_ci, is_parent_marker, lemma_joined_name, lemma_name_without_dot,
    file_stem_of, is_heif_name, is_removable_original, is_webp_name, spec_file_stem,
    spec_is_heif_name, spec_is_removable_original, spec_is_webp_name,
};

verus! {

/// The record of one photo in an album's metadata.
#[derive(Debug)]
pub struct Photo {
    /// File name of the original.
    pub original: String,
    /// File name of the WebP copy, when one was written.
    pub webp: Option<String>,
    /// Size of the original in bytes.
    pub original_size: u64,
    /// Size of the WebP copy in bytes, when one was written.
    pub webp_size: Option<u64>,
    /// The EXIF summary.
    pub exif: ExifData,
}

/// The mathematical view of a [`Photo`].
pub struct PhotoView {
    pub original: Seq<char>,
    pub webp: Option<Seq<char>>,
    pub original_size: u64,
    pub webp_size: Option<u64>,
    pub exif: ExifView,
}

impl View for Photo {
    type V = PhotoView;

    open spec fn view(&self) -> PhotoView {
        PhotoView {
            original: self.original@,
            webp: match self.webp {
                Some(w) => Some(w@),
                None => None,
            },
            original_size: self.original_size,
            webp_size: self.webp_size,
            exif: self.exif@,
        }
    }
}

/// Whether a WebP copy is to be made of a file of this name: not when
/// conversion is switched off, not for a WebP file, not for HEIC or HEIF.
pub open spec fn spec_converts(name: Seq<char>, skip_webp: bool) -> bool {
    !skip_webp && !spec_is_webp_name(name) && !spec_is_heif_name(name)
}

/// The name of the WebP copy of a file: its stem with the extension `webp`.
pub open spec fn spec_webp_name(name: Seq<char>) -> Seq<char> {
    spec_file_stem(name) + ".webp"@
}

/// The WebP copy to attempt for the file `name`: its name when one is to be
/// made, nothing otherwise.
pub fn plan_webp(name: &str, skip_webp: bool) -> (r: Option<String>)
    ensures
        r is Some <==> spec_converts(name@, skip_webp),
        r matches Some(w) ==> w@ == spec_webp_name(name@),
{
    if !skip_webp && !is_webp_name(name) && !is_heif_name(name) {
        Some(webp_file_name(name))
    } else {
        None
    }
}

/// The name of the WebP copy of the file `name`.
pub fn webp_file_name(name: &str) -> (r: String)
    ensures
        r@ == spec_webp_name(name@),
{
    let stem = file_stem_of(name);
    String::from_str(stem).concat(".webp")
}

/// The record of a processed photo. `converted` is the size of the WebP copy
/// when one was planned (`webp_name`) and written; a planned copy that could
/// not be written leaves the record without WebP, which is no error.
pub fn assemble_photo(
    original: String,
    original_size: u64,
    exif: ExifData,
    webp_name: Option<String>,
    converted: Option<u64>,
) -> (r: Photo)
    ensures
        r.original@ == original@,
        r.original_size == original_size,
        r.exif@ == exif@,
        r.webp is Some <==> (webp_name is Some && converted is Some),
        r.webp matches Some(w) ==> webp_name matches Some(n) && w@ == n@,
        r.webp_size == (if webp_name is Some { converted } else { None }),
{
    let (webp, webp_size) = match webp_name {
        Some(n) => match converted {
            Some(size) => (Some(n), Some(size)),
            None => (None, None),
        },
        None => (None, None),
    };
    Photo { original, webp, original_size, webp_size, exif }
}

/// Whether the original file `name`, whose record is `photo`, may be removed
/// by cleanup: only a JPEG, PNG, HEIC or HEIF original of which a WebP copy
/// was written.
pub fn should_cleanup_original(name: &str, photo: &Photo) -> (r: bool)
    ensures
        r == (spec_is_removable_original(name@) && photo.webp is Some),
{
    is_removable_original(name) && photo.webp.is_some()
}

/// With conversion on, a file `stem.ext` is converted exactly when its
/// extension is, up to ASCII case, none of webp, heic and heif; its copy is
/// named `stem.webp`. With conversion off nothing is converted.
pub proof fn lemma_conversion_formats(stem: Seq<char>, ext: Seq<char>, skip_webp: bool)
    requires
        stem.len() > 0,
        forall|k: int| 0 <= k < ext.len() ==> ext[k] != '.',
        !is_parent_marker(stem + seq!['.'] + ext),
    ensures
        spec_converts(stem + seq!['.'] + ext, skip_webp) <==> (!skip_webp && !eq_ascii_ci(
            ext,
            "webp"@,
        ) && !eq_ascii_ci(ext, "heic"@) && !eq_ascii_ci(ext, "heif"@)),
        spec_webp_name(stem + seq!['.'] + ext) == stem + ".webp"@,
{
    lemma_joined_name(stem, ext);
}

/// A file without any dot in its name is converted whenever conversion is
/// on, and its copy is named after the whole name.
pub proof fn lemma_conversion_without_extension(name: Seq<char>, skip_webp: bool)
    requires
        forall|k: int| 0 <= k < name.len() ==> name[k] != '.',
    ensures
        spec_converts(name, skip_webp) == !skip_webp,
        spec_webp_name(name) == name + ".webp"@,
{
    lemma_name_without_dot(name);
}

/// A photo that is WebP already is never converted again.
pub proof fn lemma_webp_inputs_not_reencoded(name: Seq<char>, skip_webp: bool)
    requires
        spec_is_webp_name(name),
    ensures
        !spec_converts(name, skip_webp),
{
}

/// With conversion switched off no WebP copy is planned, whatever the file.
pub proof fn lemma_skip_plans_nothing(name: Seq<char>)
    ensures
        !spec_converts(name, true),
{
}

/// Whether an image `width` pixels wide is scaled down before conversion to
/// the width limit `max_width` (0 means no limit).
pub fn needs_resize(width: u32, max_width: u32) -> (r: bool)
    ensures
        r == (max_width > 0 && width > max_width),
{
    max_width > 0 && width > max_width
}

} // verus!
