//! File names: extension and stem as the platform path rules define them,
//! ASCII case-insensitive comparison, and the photo formats the tool knows.

use vstd::prelude::*;

verus! {

/// Index of the last `'.'` in `name`, or `-1` when there is none.
pub open spec fn last_dot(name: Seq<char>) -> int
    decreases name.len(),
{
    if name.len() == 0 {
        -1
    } else if name.last() == '.' {
        name.len() - 1
    } else {
        last_dot(name.drop_last())
    }
}

/// The special file name `..`.
pub open spec fn is_parent_marker(name: Seq<char>) -> bool {
    name =~= seq!['.', '.']
}

/// Whether `name` has an extension: a `'.'` that is not its first character
/// (and `name` is not `..`).
pub open spec fn has_extension(name: Seq<char>) -> bool {
    !is_parent_marker(name) && last_dot(name) > 0
}

/// The extension of a file name: what follows its last `'.'`, absent when
/// the only dot is the leading one, or when there is no dot.
pub open spec fn spec_extension(name: Seq<char>) -> Option<Seq<char>> {
    if has_extension(name) {
        Some(name.subrange(last_dot(name) + 1, name.len() as int))
    } else {
        None
    }
}

/// The stem of a file name: what precedes its last `'.'`, or the whole name
/// when it has no extension.
pub open spec fn spec_file_stem(name: Seq<char>) -> Seq<char> {
    if has_extension(name) {
        name.subrange(0, last_dot(name))
    } else {
        name
    }
}

/// The code of a character after ASCII lower-casing (other characters keep
/// their code).
pub open spec fn ascii_lower_code(c: char) -> u32 {
    if 65 <= (c as u32) <= 90 {
        ((c as u32) + 32) as u32
    } else {
        c as u32
    }
}

/// Equality of two strings up to ASCII case.
pub open spec fn eq_ascii_ci(a: Seq<char>, b: Seq<char>) -> bool {
    &&& a.len() == b.len()
    &&& forall|i: int| 0 <= i < a.len() ==> #[trigger] ascii_lower_code(a[i]) == ascii_lower_code(b[i])
}

/// Two texts are equal up to ASCII case exactly when they have the same
/// length and at each position the characters have the same code, or one is
/// an ASCII capital letter and the other its small letter.
pub proof fn lemma_eq_ascii_ci_letters(a: Seq<char>, b: Seq<char>)
    ensures
        eq_ascii_ci(a, b) <==> (a.len() == b.len() && forall|i: int|
            0 <= i < a.len() ==> same_letter(#[trigger] a[i], b[i])),
{
    assert forall|c: char, d: char|
        #[trigger] same_letter(c, d) <==> ascii_lower_code(c) == ascii_lower_code(d) by {
        let x = c as u32;
        let y = d as u32;
        if 65 <= x <= 90 {
            assert(ascii_lower_code(c) == x + 32);
        } else {
            assert(ascii_lower_code(c) == x);
        }
        if 65 <= y <= 90 {
            assert(ascii_lower_code(d) == y + 32);
        } else {
            assert(ascii_lower_code(d) == y);
        }
    }
}

/// The same character, or an ASCII capital letter and its small letter.
pub open spec fn same_letter(c: char, d: char) -> bool {
    ||| (c as u32) == (d as u32)
    ||| 65 <= (c as u32) <= 90 && (d as u32) == (c as u32) + 32
    ||| 65 <= (d as u32) <= 90 && (c as u32) == (d as u32) + 32
}

/// `last_dot` picks the last dot, and is `-1` exactly when there is none.
pub proof fn lemma_last_dot(name: Seq<char>)
    ensures
        -1 <= last_dot(name) < name.len(),
        last_dot(name) >= 0 ==> name[last_dot(name)] == '.',
        forall|k: int| last_dot(name) < k < name.len() ==> name[k] != '.',
    decreases name.len(),
{
    if name.len() > 0 && name.last() != '.' {
        lemma_last_dot(name.drop_last());
        assert forall|k: int| last_dot(name) < k < name.len() implies name[k] != '.' by {
            if k < name.len() - 1 {
                assert(name[k] == name.drop_last()[k]);
            }
        }
    }
}

/// A file name with an extension is its stem, a dot, and its extension.
pub proof fn lemma_stem_dot_extension(name: Seq<char>)
    requires
        has_extension(name),
    ensures
        spec_extension(name) matches Some(e) && name =~= spec_file_stem(name) + seq!['.'] + e,
{
    lemma_last_dot(name);
}

/// Appending text without a dot leaves the last dot where it was.
proof fn lemma_last_dot_append(x: Seq<char>, t: Seq<char>)
    requires
        forall|k: int| 0 <= k < t.len() ==> t[k] != '.',
    ensures
        last_dot(x + t) == last_dot(x),
    decreases t.len(),
{
    if t.len() > 0 {
        assert((x + t).drop_last() =~= x + t.drop_last());
        assert((x + t).last() == t.last());
        lemma_last_dot_append(x, t.drop_last());
    } else {
        assert(x + t =~= x);
    }
}

/// The name `stem.ext`, for a non-empty `stem` and an `ext` without a dot,
/// has the extension `ext` and the stem `stem`.
pub proof fn lemma_joined_name(stem: Seq<char>, ext: Seq<char>)
    requires
        stem.len() > 0,
        forall|k: int| 0 <= k < ext.len() ==> ext[k] != '.',
        !is_parent_marker(stem + seq!['.'] + ext),
    ensures
        spec_extension(stem + seq!['.'] + ext) == Some(ext),
        spec_file_stem(stem + seq!['.'] + ext) == stem,
{
    let x = stem + seq!['.'];
    let name = x + ext;
    assert(stem + seq!['.'] + ext == name);
    lemma_last_dot_append(x, ext);
    assert(x.last() == '.');
    assert(last_dot(x) == stem.len());
    assert(name.subrange(stem.len() as int + 1, name.len() as int) =~= ext);
    assert(name.subrange(0, stem.len() as int) =~= stem);
}

/// A name without any dot has no extension, and is its own stem.
pub proof fn lemma_name_without_dot(name: Seq<char>)
    requires
        forall|k: int| 0 <= k < name.len() ==> name[k] != '.',
    ensures
        spec_extension(name) is None,
        spec_file_stem(name) == name,
{
    lemma_last_dot_append(Seq::empty(), name);
    assert(Seq::<char>::empty() + name =~= name);
    if is_parent_marker(name) {
        assert(name[0] == '.');
    }
}

/// Cleanup may remove exactly the originals whose extension is, up to ASCII
/// case, one of jpg, jpeg, png, heic and heif.
pub proof fn lemma_removable_formats(stem: Seq<char>, ext: Seq<char>)
    requires
        stem.len() > 0,
        forall|k: int| 0 <= k < ext.len() ==> ext[k] != '.',
        !is_parent_marker(stem + seq!['.'] + ext),
    ensures
        spec_is_removable_original(stem + seq!['.'] + ext) <==> (eq_ascii_ci(ext, "jpg"@)
            || eq_ascii_ci(ext, "jpeg"@) || eq_ascii_ci(ext, "png"@) || eq_ascii_ci(ext, "heic"@)
            || eq_ascii_ci(ext, "heif"@)),
{
    lemma_joined_name(stem, ext);
}

/// The scan lists exactly the files whose extension is, up to ASCII case,
/// one of jpg, jpeg, png, heic and webp; a name without a dot is never listed.
pub proof fn lemma_listed_formats(stem: Seq<char>, ext: Seq<char>)
    requires
        stem.len() > 0,
        forall|k: int| 0 <= k < ext.len() ==> ext[k] != '.',
        !is_parent_marker(stem + seq!['.'] + ext),
    ensures
        spec_is_listed_photo(stem + seq!['.'] + ext) <==> (eq_ascii_ci(ext, "jpg"@) || eq_ascii_ci(
            ext,
            "jpeg"@,
        ) || eq_ascii_ci(ext, "png"@) || eq_ascii_ci(ext, "heic"@) || eq_ascii_ci(ext, "webp"@)),
{
    lemma_joined_name(stem, ext);
}

fn char_lower_code(c: char) -> (r: u32)
    ensures
        r == ascii_lower_code(c),
{
    let code = c as u32;
    if 65 <= code && code <= 90 {
        code + 32
    } else {
        code
    }
}

/// Compares two strings, ignoring ASCII case.
pub fn eq_ignore_ascii_case(a: &str, b: &str) -> (r: bool)
    ensures
        r == eq_ascii_ci(a@, b@),
{
    let n = a.unicode_len();
    let m = b.unicode_len();
    if n != m {
        return false;
    }
    let mut i: usize = 0;
    while i < n
        invariant
            n == a@.len(),
            m == b@.len(),
            n == m,
            i <= n,
            forall|k: int| 0 <= k < i ==> #[trigger] ascii_lower_code(a@[k]) == ascii_lower_code(b@[k]),
        decreases n - i,
    {
        if char_lower_code(a.get_char(i)) != char_lower_code(b.get_char(i)) {
            return false;
        }
        i = i + 1;
    }
    true
}

/// Index of the last `'.'` of `name`, if any.
fn find_last_dot(name: &str) -> (r: Option<usize>)
    ensures
        match r {
            Some(i) => i as int == last_dot(name@) && i < name@.len(),
            None => last_dot(name@) == -1,
        },
{
    let n = name.unicode_len();
    let mut i: usize = n;
    proof {
        lemma_last_dot(name@);
    }
    while i > 0
        invariant
            n == name@.len(),
            i <= n,
            -1 <= last_dot(name@) < n,
            last_dot(name@) >= 0 ==> name@[last_dot(name@)] == '.',
            forall|k: int| last_dot(name@) < k < n ==> name@[k] != '.',
            last_dot(name@) < i as int,
        decreases i,
    {
        if name.get_char(i - 1) == '.' {
            return Some(i - 1);
        }
        i = i - 1;
    }
    None
}

fn is_parent_name(name: &str) -> (r: bool)
    ensures
        r == is_parent_marker(name@),
{
    let n = name.unicode_len();
    if n != 2 {
        return false;
    }
    name.get_char(0) == '.' && name.get_char(1) == '.'
}

/// The extension of a file name, as the platform path rules take it.
pub fn extension_of(name: &str) -> (r: Option<&str>)
    ensures
        match r {
            Some(e) => spec_extension(name@) == Some(e@),
            None => spec_extension(name@) is None,
        },
{
    if is_parent_name(name) {
        return None;
    }
    match find_last_dot(name) {
        Some(i) => {
            if i == 0 {
                None
            } else {
                let n = name.unicode_len();
                Some(name.substring_char(i + 1, n))
            }
        },
        None => None,
    }
}

/// The stem of a file name, as the platform path rules take it.
pub fn file_stem_of(name: &str) -> (r: &str)
    ensures
        r@ == spec_file_stem(name@),
{
    if is_parent_name(name) {
        return name;
    }
    match find_last_dot(name) {
        Some(i) => {
            if i == 0 {
                name
            } else {
                name.substring_char(0, i)
            }
        },
        None => name,
    }
}


/// Whether the file name's extension is `target`, ignoring ASCII case.
pub open spec fn ext_is(name: Seq<char>, target: Seq<char>) -> bool {
    match spec_extension(name) {
        Some(e) => eq_ascii_ci(e, target),
        None => false,
    }
}

/// The formats the scan picks up: JPEG, PNG, HEIC and WebP.
pub open spec fn spec_is_listed_photo(name: Seq<char>) -> bool {
    ||| ext_is(name, "jpg"@)
    ||| ext_is(name, "jpeg"@)
    ||| ext_is(name, "png"@)
    ||| ext_is(name, "heic"@)
    ||| ext_is(name, "webp"@)
}

/// A file that is WebP already.
pub open spec fn spec_is_webp_name(name: Seq<char>) -> bool {
    ext_is(name, "webp"@)
}

/// A HEIC or HEIF file, which the converter does not take.
pub open spec fn spec_is_heif_name(name: Seq<char>) -> bool {
    ext_is(name, "heic"@) || ext_is(name, "heif"@)
}

/// The originals that may be removed once converted: JPEG, PNG, HEIC, HEIF.
pub open spec fn spec_is_removable_original(name: Seq<char>) -> bool {
    ||| ext_is(name, "jpg"@)
    ||| ext_is(name, "jpeg"@)
    ||| ext_is(name, "png"@)
    ||| ext_is(name, "heic"@)
    ||| ext_is(name, "heif"@)
}

/// Whether the extension of `name` is `target`, ignoring ASCII case.
pub fn extension_is(name: &str, target: &str) -> (r: bool)
    ensures
        r == ext_is(name@, target@),
{
    match extension_of(name) {
        Some(e) => eq_ignore_ascii_case(e, target),
        None => false,
    }
}

/// Whether the scan lists a file of this name as a photo. (Lower-casing the
/// extension with the full Unicode rules gives the same answer here: no
/// character other than an ASCII letter lowers to a letter of these names.)
pub fn is_listed_photo(name: &str) -> (r: bool)
    ensures
        r == spec_is_listed_photo(name@),
{
    extension_is(name, "jpg") || extension_is(name, "jpeg") || extension_is(name, "png")
        || extension_is(name, "heic") || extension_is(name, "webp")
}

/// Whether a file of this name is WebP already.
pub fn is_webp_name(name: &str) -> (r: bool)
    ensures
        r == spec_is_webp_name(name@),
{
    extension_is(name, "webp")
}

/// Whether a file of this name is HEIC or HEIF.
pub fn is_heif_name(name: &str) -> (r: bool)
    ensures
        r == spec_is_heif_name(name@),
{
    extension_is(name, "heic") || extension_is(name, "heif")
}

/// Whether a file of this name is an original that cleanup may remove.
pub fn is_removable_original(name: &str) -> (r: bool)
    ensures
        r == spec_is_removable_original(name@),
{
    extension_is(name, "jpg") || extension_is(name, "jpeg") || extension_is(name, "png")
        || extension_is(name, "heic") || extension_is(name, "heif")
}

} // verus!
