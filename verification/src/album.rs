//! Decisions about the albums of a run: where an album is written, what is
//! collected from its processed photos, the size totals, and which originals
//! cleanup removes.

use vstd::prelude::*;
use crate::filename::{
    eq_ascii_ci, is_parent_marker, lemma_removable_formats, spec_is_removable_original,
};
use crate::photo::{
    should_cleanup_original, spec_webp_name, webp_file_name, Photo, PhotoView,
};

verus! {

/// The directory an album's output is written under.
#[derive(PartialEq, Eq, Structural, Clone, Copy, Debug)]
pub enum BaseDir {
    /// The input directory itself (in-place output).
    Input,
    /// The output root directory.
    OutputRoot,
}

/// An album's output directory: a base directory and the path segments
/// joined under it.
#[derive(Debug)]
pub struct OutputDirPlan {
    pub base: BaseDir,
    pub segments: Vec<String>,
}

/// The segments of an album's output directory under its base: in place,
/// the album's own directory relative to the input; otherwise the folder
/// name, then that relative directory when it is not the input itself.
pub open spec fn spec_output_segments(folder_name: Seq<char>, rel_dir: Seq<char>, in_place: bool) -> Seq<Seq<char>> {
    if in_place {
        if rel_dir.len() == 0 {
            seq![]
        } else {
            seq![rel_dir]
        }
    } else if rel_dir.len() == 0 {
        seq![folder_name]
    } else {
        seq![folder_name, rel_dir]
    }
}

/// The base directory of an album's output.
pub open spec fn spec_output_base(in_place: bool) -> BaseDir {
    if in_place {
        BaseDir::Input
    } else {
        BaseDir::OutputRoot
    }
}

/// The texts of a list of strings.
pub open spec fn strings_view(v: Seq<String>) -> Seq<Seq<char>> {
    v.map_values(|s: String| s@)
}

/// Where the album of the directory `rel_dir` (relative to the input
/// directory, empty for the input directory itself) is written.
pub fn output_dir_plan(folder_name: &str, rel_dir: &str, in_place: bool) -> (r: OutputDirPlan)
    ensures
        r.base == spec_output_base(in_place),
        strings_view(r.segments@) == spec_output_segments(folder_name@, rel_dir@, in_place),
{
    let mut segments: Vec<String> = Vec::new();
    let empty_rel = rel_dir.unicode_len() == 0;
    if !in_place {
        segments.push(String::from_str(folder_name));
    }
    if !empty_rel {
        segments.push(String::from_str(rel_dir));
    }
    let base = if in_place {
        BaseDir::Input
    } else {
        BaseDir::OutputRoot
    };
    assert(strings_view(segments@) =~= spec_output_segments(folder_name@, rel_dir@, in_place));
    OutputDirPlan { base, segments }
}

/// In place, an album is written into its own directory under the input
/// directory (the input directory itself for its top level); otherwise
/// under the output root, in the folder of the run's name, followed by the
/// album's relative directory.
pub proof fn lemma_output_dir_layout(folder_name: Seq<char>, rel_dir: Seq<char>, in_place: bool)
    ensures
        in_place ==> spec_output_base(in_place) == BaseDir::Input,
        !in_place ==> spec_output_base(in_place) == BaseDir::OutputRoot,
        in_place && rel_dir.len() == 0 ==> spec_output_segments(folder_name, rel_dir, in_place).len()
            == 0,
        in_place && rel_dir.len() > 0 ==> spec_output_segments(folder_name, rel_dir, in_place)
            =~= seq![rel_dir],
        !in_place ==> spec_output_segments(folder_name, rel_dir, in_place)[0] == folder_name,
        !in_place && rel_dir.len() > 0 ==> spec_output_segments(folder_name, rel_dir, in_place).len()
            == 2 && spec_output_segments(folder_name, rel_dir, in_place)[1] == rel_dir,
        !in_place && rel_dir.len() == 0 ==> spec_output_segments(folder_name, rel_dir, in_place).len()
            == 1,
{
}

/// Two different directories never share an output directory: albums do
/// not overwrite each other's metadata.
pub proof fn lemma_output_dirs_distinct(folder_name: Seq<char>, rel_a: Seq<char>, rel_b: Seq<char>, in_place: bool)
    requires
        rel_a != rel_b,
    ensures
        spec_output_segments(folder_name, rel_a, in_place) != spec_output_segments(
            folder_name,
            rel_b,
            in_place,
        ),
{
    let sa = spec_output_segments(folder_name, rel_a, in_place);
    let sb = spec_output_segments(folder_name, rel_b, in_place);
    if sa == sb {
        assert(sa.len() == sb.len());
        if rel_a.len() == 0 || rel_b.len() == 0 {
            assert(rel_a.len() == 0 && rel_b.len() == 0);
            assert(rel_a =~= rel_b);
        } else if in_place {
            assert(sa[0] == rel_a && sb[0] == rel_b);
        } else {
            assert(sa[1] == rel_a && sb[1] == rel_b);
        }
    }
}

/// The name of the image directory inside an album's output directory.
pub fn image_dir_name() -> (r: &'static str)
    ensures
        r@ == "img"@,
{
    "img"
}

/// The name of the metadata file inside an album's output directory.
pub fn metadata_file_name() -> (r: &'static str)
    ensures
        r@ == "exif.json"@,
{
    "exif.json"
}

/// The name an album is shown under: the folder name, followed by the
/// album's relative directory when that is not empty.
pub fn album_display_name(folder_name: &str, rel_dir: &str) -> (r: String)
    ensures
        r@ == (if rel_dir@.len() == 0 {
            folder_name@
        } else {
            folder_name@ + "/"@ + rel_dir@
        }),
{
    if rel_dir.unicode_len() == 0 {
        String::from_str(folder_name)
    } else {
        String::from_str(folder_name).concat("/").concat(rel_dir)
    }
}

/// A usable folder name: present and not empty.
pub open spec fn usable_name(o: Option<String>) -> bool {
    match o {
        Some(n) => n@.len() > 0,
        None => false,
    }
}

/// The name of the output folder: the input directory's own name when it has
/// one, else the name of its canonical form, else `album`. (A file name from
/// a path is never empty; an empty one counts as absent, so the result is
/// never empty.)
pub fn choose_folder_name(own_name: Option<String>, canonical_name: Option<String>) -> (r: String)
    ensures
        r@ == (if usable_name(own_name) {
            own_name->0@
        } else if usable_name(canonical_name) {
            canonical_name->0@
        } else {
            "album"@
        }),
        r@.len() > 0,
{
    proof {
        reveal_strlit("album");
    }
    match own_name {
        Some(n) if n.as_str().unicode_len() > 0 => n,
        _ => match canonical_name {
            Some(c) if c.as_str().unicode_len() > 0 => c,
            _ => String::from_str("album"),
        },
    }
}

/// How the output layout is announced.
#[derive(PartialEq, Eq, Structural, Clone, Copy, Debug)]
pub enum LayoutNotice {
    /// In place, each of several directories gets its own images and metadata.
    InPlaceEachDir,
    /// In place, one images directory and one metadata file.
    InPlaceSingle,
    /// Several albums nested under the output root, one per directory.
    NestedAlbums,
    /// One album under the output root.
    SingleAlbum,
}

/// How the output layout is announced, for `n_groups` albums.
pub fn layout_notice(in_place: bool, recursive: bool, n_groups: usize) -> (r: LayoutNotice)
    ensures
        r == (if in_place {
            if recursive && n_groups > 1 {
                LayoutNotice::InPlaceEachDir
            } else {
                LayoutNotice::InPlaceSingle
            }
        } else if recursive && n_groups > 1 {
            LayoutNotice::NestedAlbums
        } else {
            LayoutNotice::SingleAlbum
        }),
{
    if in_place {
        if recursive && n_groups > 1 {
            LayoutNotice::InPlaceEachDir
        } else {
            LayoutNotice::InPlaceSingle
        }
    } else if recursive && n_groups > 1 {
        LayoutNotice::NestedAlbums
    } else {
        LayoutNotice::SingleAlbum
    }
}

/// The hint given about speed before the photos are processed.
#[derive(PartialEq, Eq, Structural, Clone, Copy, Debug)]
pub enum SpeedHint {
    /// Nothing is said (no conversion).
    Silent,
    /// Images are scaled down to the width limit.
    Scaling,
    /// A width limit is suggested.
    SuggestWidthLimit,
}

/// The hint given about speed: only when converting; scaling when a width
/// limit is set, a suggestion otherwise.
pub fn speed_hint(skip_webp: bool, max_width: u32) -> (r: SpeedHint)
    ensures
        r == (if skip_webp {
            SpeedHint::Silent
        } else if max_width > 0 {
            SpeedHint::Scaling
        } else {
            SpeedHint::SuggestWidthLimit
        }),
{
    if skip_webp {
        SpeedHint::Silent
    } else if max_width > 0 {
        SpeedHint::Scaling
    } else {
        SpeedHint::SuggestWidthLimit
    }
}

/// The records of the photos that were processed, in order.
pub open spec fn kept_photos(outs: Seq<Option<Photo>>) -> Seq<PhotoView>
    decreases outs.len(),
{
    if outs.len() == 0 {
        seq![]
    } else {
        let rest = kept_photos(outs.drop_last());
        match outs.last() {
            Some(p) => rest.push(p@),
            None => rest,
        }
    }
}

/// The positions (from `members`) of the photos that failed, in order.
pub open spec fn failed_members(members: Seq<usize>, outs: Seq<Option<Photo>>) -> Seq<usize>
    decreases outs.len(),
{
    if outs.len() == 0 {
        seq![]
    } else {
        let rest = failed_members(members, outs.drop_last());
        match outs.last() {
            Some(_) => rest,
            None => rest.push(members[outs.len() - 1]),
        }
    }
}

/// Whether each photo of an album was processed and a WebP copy of it was
/// written.
pub open spec fn written_flags(outs: Seq<Option<Photo>>) -> Seq<bool> {
    outs.map_values(|o: Option<Photo>| converted_outcome(o))
}

/// Another photo of the album (`names` are the file names of its photos,
/// `written` says of which a WebP copy was written) had its copy written to
/// the very WebP name of `names[k]`: one of the two copies overwrote the other.
pub open spec fn webp_name_shared(names: Seq<Seq<char>>, written: Seq<bool>, k: int) -> bool {
    exists|j: int|
        0 <= j < names.len() && j < written.len() && j != k && #[trigger] written[j]
            && spec_webp_name(names[j]) == spec_webp_name(names[k])
}

/// The positions (from `members`) of the originals that cleanup removes:
/// when cleanup is on, those processed whose original format may be removed
/// and of which a WebP copy was written, except an original whose copy's
/// name another written copy of the album also took (`written` are the
/// flags of the whole album).
pub open spec fn removable_members(
    members: Seq<usize>,
    names: Seq<Seq<char>>,
    written: Seq<bool>,
    outs: Seq<Option<Photo>>,
    cleanup: bool,
) -> Seq<usize>
    decreases outs.len(),
{
    if outs.len() == 0 {
        seq![]
    } else {
        let rest = removable_members(members, names, written, outs.drop_last(), cleanup);
        let k = outs.len() - 1;
        match outs.last() {
            Some(p) => if cleanup && spec_is_removable_original(names[k]) && p.webp is Some
                && !webp_name_shared(names, written, k) {
                rest.push(members[k])
            } else {
                rest
            },
            None => rest,
        }
    }
}

/// Whether another photo of the album had its WebP copy written to the same
/// name as the copy of `names[k]`.
pub fn webp_name_clash(names: &Vec<String>, written: &Vec<bool>, k: usize) -> (r: bool)
    requires
        k < names@.len(),
    ensures
        r == webp_name_shared(strings_view(names@), written@, k as int),
{
    let ghost ns = strings_view(names@);
    let target = webp_file_name(names[k].as_str());
    assert(ns[k as int] == names@[k as int]@);
    let mut j: usize = 0;
    while j < names.len() && j < written.len()
        invariant
            k < names@.len(),
            ns == strings_view(names@),
            j <= names@.len(),
            j <= written@.len(),
            target@ == spec_webp_name(ns[k as int]),
            forall|q: int|
                0 <= q < j && q != k && #[trigger] written@[q] ==> spec_webp_name(ns[q])
                    != spec_webp_name(ns[k as int]),
        decreases names@.len() - j,
    {
        assert(ns[j as int] == names@[j as int]@);
        if j != k && written[j] {
            let w = webp_file_name(names[j].as_str());
            if w == target {
                return true;
            }
        }
        j = j + 1;
    }
    false
}

/// Whether each photo was processed with a WebP copy written.
fn written_of(outcomes: &Vec<Option<Photo>>) -> (r: Vec<bool>)
    ensures
        r@ == written_flags(outcomes@),
{
    let mut r: Vec<bool> = Vec::new();
    let mut i: usize = 0;
    while i < outcomes.len()
        invariant
            i <= outcomes@.len(),
            r@ =~= written_flags(outcomes@.take(i as int)),
        decreases outcomes@.len() - i,
    {
        let w = match &outcomes[i] {
            Some(p) => p.webp.is_some(),
            None => false,
        };
        r.push(w);
        assert(written_flags(outcomes@.take(i + 1)) =~= written_flags(outcomes@.take(i as int)).push(
            converted_outcome(outcomes@[i as int]),
        ));
        i = i + 1;
    }
    assert(outcomes@.take(outcomes@.len() as int) =~= outcomes@);
    r
}

/// What one album's processing leaves.
#[derive(Debug)]
pub struct GroupOutcome {
    /// The records of the processed photos, in order.
    pub photos: Vec<Photo>,
    /// Positions of the photos that could not be processed.
    pub failed: Vec<usize>,
    /// Positions of the originals that cleanup removes.
    pub removable: Vec<usize>,
}

/// The records of a list of photos.
pub open spec fn photos_view(ps: Seq<Photo>) -> Seq<PhotoView> {
    ps.map_values(|p: Photo| p@)
}

/// Collects an album's results: `outcomes[k]` is the record of the photo at
/// position `members[k]`, named `names[k]`, or nothing when processing it
/// failed.
pub fn collect_group(
    members: &Vec<usize>,
    names: &Vec<String>,
    outcomes: Vec<Option<Photo>>,
    cleanup: bool,
) -> (r: GroupOutcome)
    requires
        outcomes@.len() == members@.len(),
        names@.len() == members@.len(),
    ensures
        photos_view(r.photos@) == kept_photos(outcomes@),
        r.failed@ == failed_members(members@, outcomes@),
        r.removable@ == removable_members(
            members@,
            strings_view(names@),
            written_flags(outcomes@),
            outcomes@,
            cleanup,
        ),
{
    let written = written_of(&outcomes);
    let ghost outs = outcomes@;
    let ghost ns = strings_view(names@);
    let n = members.len();
    let mut rest = outcomes;
    let mut photos: Vec<Photo> = Vec::new();
    let mut failed: Vec<usize> = Vec::new();
    let mut removable: Vec<usize> = Vec::new();
    let mut i: usize = 0;
    while i < n
        invariant
            n == members@.len(),
            outs.len() == n,
            names@.len() == n,
            ns == strings_view(names@),
            i <= n,
            rest@ == outs.skip(i as int),
            photos_view(photos@) == kept_photos(outs.take(i as int)),
            failed@ == failed_members(members@, outs.take(i as int)),
            written@ == written_flags(outs),
            removable@ == removable_members(members@, ns, written@, outs.take(i as int), cleanup),
        decreases n - i,
    {
        let ghost t = outs.take(i + 1);
        assert(t.drop_last() =~= outs.take(i as int));
        assert(t.last() == outs[i as int]);
        assert(rest@[0] == outs[i as int]);
        assert(t.len() - 1 == i);
        let o = rest.remove(0);
        assert(rest@ =~= outs.skip(i + 1));
        match o {
            Some(p) => {
                if cleanup && should_cleanup_original(names[i].as_str(), &p) && !webp_name_clash(
                    names,
                    &written,
                    i,
                ) {
                    removable.push(members[i]);
                }
                photos.push(p);
                assert(photos_view(photos@) =~= kept_photos(outs.take(i as int)).push(p@));
            },
            None => {
                failed.push(members[i]);
            },
        }
        i = i + 1;
    }
    assert(outs.take(n as int) =~= outs);
    GroupOutcome { photos, failed, removable }
}

/// The photo was processed and a WebP copy of it was written.
pub open spec fn converted_outcome(o: Option<Photo>) -> bool {
    match o {
        Some(p) => p.webp is Some,
        None => false,
    }
}

/// Every original that cleanup removes was processed, may be removed by its
/// format, has a WebP copy, and shares its WebP name with no other converted
/// photo of the album: cleanup never removes a photo whose copy was not
/// written or may have been overwritten.
pub proof fn lemma_removable_were_converted(
    members: Seq<usize>,
    names: Seq<Seq<char>>,
    written: Seq<bool>,
    outs: Seq<Option<Photo>>,
    cleanup: bool,
    x: usize,
)
    requires
        outs.len() <= members.len(),
        names.len() == members.len(),
        removable_members(members, names, written, outs, cleanup).contains(x),
    ensures
        cleanup,
        exists|k: int|
            0 <= k < outs.len() && members[k] == x && spec_is_removable_original(#[trigger] names[k])
                && converted_outcome(outs[k]) && !webp_name_shared(names, written, k),
    decreases outs.len(),
{
    let k = outs.len() - 1;
    let rest = removable_members(members, names, written, outs.drop_last(), cleanup);
    let whole = removable_members(members, names, written, outs, cleanup);
    if rest.contains(x) {
        lemma_removable_were_converted(members, names, written, outs.drop_last(), cleanup, x);
        let j = choose|j: int|
            0 <= j < outs.drop_last().len() && members[j] == x && spec_is_removable_original(
                #[trigger] names[j],
            ) && converted_outcome(outs.drop_last()[j]) && !webp_name_shared(names, written, j);
        assert(outs[j] == outs.drop_last()[j]);
    } else {
        assert(whole != rest);
        assert(whole == rest.push(members[k]));
        assert(whole[whole.len() - 1] == members[k]);
        let idx = choose|idx: int| 0 <= idx < whole.len() && whole[idx] == x;
        if idx < rest.len() {
            assert(rest[idx] == x);
        }
        assert(members[k] == x);
    }
}

/// With cleanup on, every processed original `stem.ext` whose extension is,
/// up to ASCII case, one of jpg, jpeg, png, heic and heif, of which a WebP
/// copy was written and whose copy's name no other written copy of the album
/// took, is removed.
pub proof fn lemma_converted_original_removed(
    members: Seq<usize>,
    names: Seq<Seq<char>>,
    written: Seq<bool>,
    outs: Seq<Option<Photo>>,
    k: int,
    stem: Seq<char>,
    ext: Seq<char>,
)
    requires
        outs.len() <= members.len(),
        names.len() == members.len(),
        0 <= k < outs.len(),
        converted_outcome(outs[k]),
        !webp_name_shared(names, written, k),
        names[k] == stem + seq!['.'] + ext,
        stem.len() > 0,
        forall|q: int| 0 <= q < ext.len() ==> ext[q] != '.',
        !is_parent_marker(stem + seq!['.'] + ext),
        eq_ascii_ci(ext, "jpg"@) || eq_ascii_ci(ext, "jpeg"@) || eq_ascii_ci(ext, "png"@)
            || eq_ascii_ci(ext, "heic"@) || eq_ascii_ci(ext, "heif"@),
    ensures
        removable_members(members, names, written, outs, true).contains(members[k]),
    decreases outs.len(),
{
    lemma_removable_formats(stem, ext);
    let last = outs.len() - 1;
    let rest = removable_members(members, names, written, outs.drop_last(), true);
    let whole = removable_members(members, names, written, outs, true);
    if k == last {
        assert(outs.last() == outs[k]);
        assert(whole == rest.push(members[k]));
        assert(whole[whole.len() - 1] == members[k]);
    } else {
        assert(outs.drop_last()[k] == outs[k]);
        lemma_converted_original_removed(members, names, written, outs.drop_last(), k, stem, ext);
        let i = choose|i: int| 0 <= i < rest.len() && rest[i] == members[k];
        if whole != rest {
            assert(whole == rest.push(members[last]));
            assert(whole[i] == rest[i]);
        }
    }
}

/// When no photo got a WebP copy (as when conversion is switched off),
/// cleanup removes nothing.
pub proof fn lemma_no_copies_no_removal(
    members: Seq<usize>,
    names: Seq<Seq<char>>,
    written: Seq<bool>,
    outs: Seq<Option<Photo>>,
    cleanup: bool,
)
    requires
        forall|k: int| 0 <= k < outs.len() ==> !converted_outcome(#[trigger] outs[k]),
    ensures
        removable_members(members, names, written, outs, cleanup).len() == 0,
    decreases outs.len(),
{
    if outs.len() > 0 {
        assert(!converted_outcome(outs[outs.len() - 1]));
        lemma_no_copies_no_removal(members, names, written, outs.drop_last(), cleanup);
    }
}

/// Total size in bytes of the originals of a list of photos.
pub open spec fn original_total(ps: Seq<Photo>) -> int
    decreases ps.len(),
{
    if ps.len() == 0 {
        0
    } else {
        original_total(ps.drop_last()) + ps.last().original_size
    }
}

/// Total size in bytes of the WebP copies of a list of photos.
pub open spec fn webp_total(ps: Seq<Photo>) -> int
    decreases ps.len(),
{
    if ps.len() == 0 {
        0
    } else {
        webp_total(ps.drop_last()) + match ps.last().webp_size {
            Some(s) => s as int,
            None => 0,
        }
    }
}

/// Number of photos over all albums.
pub open spec fn albums_count(albums: Seq<Vec<Photo>>) -> int
    decreases albums.len(),
{
    if albums.len() == 0 {
        0
    } else {
        albums_count(albums.drop_last()) + albums.last()@.len()
    }
}

/// Total size of the originals over all albums.
pub open spec fn albums_original_total(albums: Seq<Vec<Photo>>) -> int
    decreases albums.len(),
{
    if albums.len() == 0 {
        0
    } else {
        albums_original_total(albums.drop_last()) + original_total(albums.last()@)
    }
}

/// Total size of the WebP copies over all albums.
pub open spec fn albums_webp_total(albums: Seq<Vec<Photo>>) -> int
    decreases albums.len(),
{
    if albums.len() == 0 {
        0
    } else {
        albums_webp_total(albums.drop_last()) + webp_total(albums.last()@)
    }
}

/// `x`, or the largest `u128` when `x` is larger.
pub open spec fn capped(x: int) -> int {
    if x > u128::MAX {
        u128::MAX as int
    } else {
        x
    }
}

/// The totals of a run.
#[derive(Debug, Clone, Copy)]
pub struct Totals {
    /// Number of processed photos.
    pub photos: u128,
    /// Total size of their originals in bytes.
    pub original_bytes: u128,
    /// Total size of their WebP copies in bytes.
    pub webp_bytes: u128,
}

fn add_capped(a: u128, b: u128) -> (r: u128)
    ensures
        r == capped(a + b),
{
    if a > u128::MAX - b {
        u128::MAX
    } else {
        a + b
    }
}

proof fn lemma_totals_nonneg(ps: Seq<Photo>)
    ensures
        original_total(ps) >= 0,
        webp_total(ps) >= 0,
    decreases ps.len(),
{
    if ps.len() > 0 {
        lemma_totals_nonneg(ps.drop_last());
    }
}

/// The totals over all albums (each capped at the largest `u128`).
pub fn album_totals(albums: &Vec<Vec<Photo>>) -> (r: Totals)
    ensures
        r.photos == capped(albums_count(albums@)),
        r.original_bytes == capped(albums_original_total(albums@)),
        r.webp_bytes == capped(albums_webp_total(albums@)),
{
    let mut count: u128 = 0;
    let mut orig: u128 = 0;
    let mut webp: u128 = 0;
    let mut a: usize = 0;
    while a < albums.len()
        invariant
            a <= albums@.len(),
            count == capped(albums_count(albums@.take(a as int))),
            orig == capped(albums_original_total(albums@.take(a as int))),
            webp == capped(albums_webp_total(albums@.take(a as int))),
            albums_count(albums@.take(a as int)) >= 0,
            albums_original_total(albums@.take(a as int)) >= 0,
            albums_webp_total(albums@.take(a as int)) >= 0,
        decreases albums@.len() - a,
    {
        let ps = &albums[a];
        let ghost before = albums@.take(a as int);
        assert(albums@.take(a + 1).drop_last() =~= before);
        assert(albums@.take(a + 1).last() == *ps);
        let mut k: usize = 0;
        while k < ps.len()
            invariant
                k <= ps@.len(),
                count == capped(albums_count(before) + k),
                orig == capped(albums_original_total(before) + original_total(ps@.take(k as int))),
                webp == capped(albums_webp_total(before) + webp_total(ps@.take(k as int))),
                albums_count(before) >= 0,
                albums_original_total(before) >= 0,
                albums_webp_total(before) >= 0,
            decreases ps@.len() - k,
        {
            let p = &ps[k];
            assert(ps@.take(k + 1).drop_last() =~= ps@.take(k as int));
            assert(ps@.take(k + 1).last() == *p);
            proof {
                lemma_totals_nonneg(ps@.take(k as int));
            }
            count = add_capped(count, 1);
            orig = add_capped(orig, p.original_size as u128);
            let w: u128 = match p.webp_size {
                Some(s) => s as u128,
                None => 0,
            };
            webp = add_capped(webp, w);
            k = k + 1;
        }
        assert(ps@.take(ps@.len() as int) =~= ps@);
        proof {
            lemma_totals_nonneg(ps@);
        }
        a = a + 1;
    }
    assert(albums@.take(albums@.len() as int) =~= albums@);
    Totals { photos: count, original_bytes: orig, webp_bytes: webp }
}

/// Whether the compression totals are reported: when converting and at
/// least one photo was processed.
pub fn reports_compression(skip_webp: bool, processed: u128) -> (r: bool)
    ensures
        r == (!skip_webp && processed > 0),
{
    !skip_webp && processed > 0
}

/// The positions of the albums that hold at least one photo, ascending.
pub open spec fn nonempty_albums(sizes: Seq<usize>) -> Seq<usize>
    decreases sizes.len(),
{
    if sizes.len() == 0 {
        seq![]
    } else {
        let rest = nonempty_albums(sizes.drop_last());
        if sizes.last() > 0 {
            rest.push((sizes.len() - 1) as usize)
        } else {
            rest
        }
    }
}

/// The albums whose metadata file is written, given the number of photos of
/// each album and the number processed in all: none when no photo was
/// processed, otherwise each album that holds a photo, in order.
pub fn albums_to_write(album_sizes: &Vec<usize>, processed: u128) -> (r: Vec<usize>)
    ensures
        r@ == (if processed == 0 {
            Seq::<usize>::empty()
        } else {
            nonempty_albums(album_sizes@)
        }),
{
    let mut r: Vec<usize> = Vec::new();
    if processed == 0 {
        return r;
    }
    let mut i: usize = 0;
    while i < album_sizes.len()
        invariant
            i <= album_sizes@.len(),
            r@ == nonempty_albums(album_sizes@.take(i as int)),
        decreases album_sizes@.len() - i,
    {
        assert(album_sizes@.take(i + 1).drop_last() =~= album_sizes@.take(i as int));
        assert(album_sizes@.take(i + 1).last() == album_sizes@[i as int]);
        if album_sizes[i] > 0 {
            r.push(i);
        }
        i = i + 1;
    }
    assert(album_sizes@.take(album_sizes@.len() as int) =~= album_sizes@);
    r
}

/// Whether originals are removed at the end of a run: only with cleanup on
/// and at least one photo processed (after all metadata files are written).
pub fn removes_originals(cleanup: bool, processed: u128) -> (r: bool)
    ensures
        r == (cleanup && processed > 0),
{
    cleanup && processed > 0
}

/// `s` is strictly ascending.
pub open spec fn strictly_ascending(s: Seq<usize>) -> bool {
    forall|a: int, b: int| 0 <= a < b < s.len() ==> s[a] < s[b]
}

/// The positions of `ids` in ascending order, each once. Positions follow
/// the path order of the list, so this is the paths sorted and deduplicated.
pub fn sorted_unique(ids: &Vec<usize>) -> (r: Vec<usize>)
    ensures
        strictly_ascending(r@),
        forall|x: usize| r@.contains(x) <==> ids@.contains(x),
{
    let mut r: Vec<usize> = Vec::new();
    let mut i: usize = 0;
    while i < ids.len()
        invariant
            i <= ids@.len(),
            strictly_ascending(r@),
            forall|x: usize| r@.contains(x) <==> ids@.take(i as int).contains(x),
        decreases ids@.len() - i,
    {
        let v = ids[i];
        let mut p: usize = 0;
        while p < r.len() && r[p] < v
            invariant
                p <= r@.len(),
                forall|q: int| 0 <= q < p ==> r@[q] < v,
            decreases r@.len() - p,
        {
            p = p + 1;
        }
        let ghost old_r = r@;
        let ghost t0 = ids@.take(i as int);
        let ghost t1 = ids@.take(i + 1);
        assert(t1 =~= t0.push(v));
        if p < r.len() && r[p] == v {
            assert forall|x: usize| r@.contains(x) <==> t1.contains(x) by {
                if x == v {
                    assert(r@[p as int] == v);
                    assert(t1[t1.len() - 1] == v);
                }
                if t1.contains(x) && x != v {
                    let j = choose|j: int| 0 <= j < t1.len() && t1[j] == x;
                    assert(t0[j] == x);
                }
                if t0.contains(x) {
                    let j = choose|j: int| 0 <= j < t0.len() && t0[j] == x;
                    assert(t1[j] == x);
                }
            }
        } else {
            r.insert(p, v);
            assert(r@ =~= old_r.insert(p as int, v));
            assert forall|a: int, b: int| 0 <= a < b < r@.len() implies r@[a] < r@[b] by {
                if b < p {
                    assert(r@[a] == old_r[a] && r@[b] == old_r[b]);
                } else if b == p {
                    assert(r@[a] == old_r[a]);
                } else if a < p {
                    assert(r@[a] == old_r[a] && r@[b] == old_r[b - 1]);
                    assert(old_r[p as int] > v);
                } else if a == p {
                    assert(r@[b] == old_r[b - 1]);
                    assert(old_r[p as int] > v);
                } else {
                    assert(r@[a] == old_r[a - 1] && r@[b] == old_r[b - 1]);
                }
            }
            assert forall|x: usize| r@.contains(x) <==> t1.contains(x) by {
                if r@.contains(x) {
                    let k = choose|k: int| 0 <= k < r@.len() && r@[k] == x;
                    if k < p {
                        assert(old_r[k] == x);
                    } else if k > p {
                        assert(old_r[k - 1] == x);
                    }
                }
                if old_r.contains(x) {
                    let k = choose|k: int| 0 <= k < old_r.len() && old_r[k] == x;
                    if k < p {
                        assert(r@[k] == x);
                    } else {
                        assert(r@[k + 1] == x);
                    }
                }
                if x == v {
                    assert(r@[p as int] == v);
                    assert(t1[t1.len() - 1] == v);
                }
                if t1.contains(x) && x != v {
                    let j = choose|j: int| 0 <= j < t1.len() && t1[j] == x;
                    assert(t0[j] == x);
                }
                if t0.contains(x) {
                    let j = choose|j: int| 0 <= j < t0.len() && t0[j] == x;
                    assert(t1[j] == x);
                }
            }
        }
        i = i + 1;
    }
    assert(ids@.take(ids@.len() as int) =~= ids@);
    r
}

/// How many cleanup errors are listed (at most three), and how many more
/// are only counted.
pub fn error_preview(n_errors: usize) -> (r: (usize, usize))
    ensures
        r.0 == (if n_errors < 3 { n_errors } else { 3 }),
        r.1 == (if n_errors > 3 { n_errors - 3 } else { 0 }),
{
    if n_errors > 3 {
        (3, n_errors - 3)
    } else {
        (n_errors, 0)
    }
}

} // verus!
