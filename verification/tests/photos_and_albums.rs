use exif_catcher::album::{
    album_display_name, album_totals, albums_to_write, choose_folder_name, collect_group,
    error_preview, image_dir_name, layout_notice, metadata_file_name, output_dir_plan,
    removes_originals, reports_compression, sorted_unique, speed_hint, webp_name_clash, BaseDir,
    LayoutNotice, SpeedHint,
};
use exif_catcher::exif_data::empty_exif;
use exif_catcher::grouping::group_by_dir;
use exif_catcher::ordering::{component_lt, path_less, path_order};
use exif_catcher::photo::{
    assemble_photo, needs_resize, plan_webp, should_cleanup_original, webp_file_name, Photo,
};

fn photo(name: &str, size: u64, webp: Option<u64>) -> Photo {
    let webp_name = Some(format!("{}.webp", name));
    assemble_photo(name.to_string(), size, empty_exif(), webp_name, webp)
}

#[test]
fn webp_plan() {
    assert_eq!(plan_webp("IMG_0001.jpg", false).as_deref(), Some("IMG_0001.webp"));
    assert_eq!(plan_webp("a.b.PNG", false).as_deref(), Some("a.b.webp"));
    assert_eq!(plan_webp(".hidden", false).as_deref(), Some(".hidden.webp"));
    assert_eq!(plan_webp("x.WEBP", false), None);
    assert_eq!(plan_webp("x.heic", false), None);
    assert_eq!(plan_webp("x.HEIF", false), None);
    assert_eq!(plan_webp("x.jpg", true), None);
}

#[test]
fn photo_record() {
    let p = assemble_photo("a.jpg".to_string(), 7425632, empty_exif(), Some("a.webp".to_string()), Some(716800));
    assert_eq!(p.original, "a.jpg");
    assert_eq!(p.webp.as_deref(), Some("a.webp"));
    assert_eq!(p.original_size, 7425632);
    assert_eq!(p.webp_size, Some(716800));
    let failed = assemble_photo("b.jpg".to_string(), 10, empty_exif(), Some("b.webp".to_string()), None);
    assert_eq!(failed.webp, None);
    assert_eq!(failed.webp_size, None);
    let skipped = assemble_photo("c.webp".to_string(), 10, empty_exif(), None, Some(5));
    assert_eq!(skipped.webp, None);
    assert_eq!(skipped.webp_size, None);
}

#[test]
fn cleanup_only_converted_originals() {
    let converted = photo("a.jpg", 1, Some(1));
    let unconverted = photo("a.jpg", 1, None);
    assert!(should_cleanup_original("a.jpg", &converted));
    assert!(should_cleanup_original("a.HEIF", &converted));
    assert!(!should_cleanup_original("a.jpg", &unconverted));
    assert!(!should_cleanup_original("a.webp", &converted));
    assert!(!should_cleanup_original("a.gif", &converted));
}

#[test]
fn resize_decision() {
    assert!(needs_resize(4096, 2048));
    assert!(!needs_resize(2048, 2048));
    assert!(!needs_resize(8000, 0));
}

fn comps(p: &str) -> Vec<Vec<u8>> {
    p.split('/').map(|s| s.as_bytes().to_vec()).collect()
}

#[test]
fn path_order_matches_std_paths() {
    let paths = ["b.jpg", "a.jpg", "sub/a.jpg", "a.b.jpg", "a/b.jpg", "sub.jpg", "Z.jpg", "é.jpg", "sub/0.png"];
    let keys: Vec<Vec<Vec<u8>>> = paths.iter().map(|p| comps(p)).collect();
    let order = path_order(&keys);
    let ours: Vec<&str> = order.iter().map(|&i| paths[i]).collect();
    let mut expected: Vec<std::path::PathBuf> = paths.iter().map(std::path::PathBuf::from).collect();
    expected.sort();
    let expected: Vec<&str> = expected.iter().map(|p| p.to_str().unwrap()).collect();
    assert_eq!(ours, expected);
    assert_eq!(order.len(), paths.len());
}

#[test]
fn path_order_is_stable() {
    let keys = vec![comps("b"), comps("a"), comps("b"), comps("a")];
    assert_eq!(path_order(&keys), vec![1, 3, 0, 2]);
    assert_eq!(path_order(&Vec::new()), Vec::<usize>::new());
}

#[test]
fn text_and_path_comparison() {
    assert!(component_lt(&b"a".to_vec(), &b"b".to_vec()));
    assert!(component_lt(&b"a".to_vec(), &b"ab".to_vec()));
    assert!(!component_lt(&b"ab".to_vec(), &b"ab".to_vec()));
    assert!(component_lt(&b"Z".to_vec(), &b"a".to_vec()));
    assert!(component_lt(&vec![0x61, 0xff], &vec![0x62]));
    assert!(path_less(&comps("a"), &comps("a.b")));
    assert!(path_less(&comps("a/b"), &comps("a.b")));
    assert!(!path_less(&comps("a/b"), &comps("a")));
}

#[test]
fn grouping_by_directory() {
    let dirs: Vec<String> = ["", "sub", "", "sub/deep", "sub"].iter().map(|s| s.to_string()).collect();
    let groups = group_by_dir(&dirs);
    assert_eq!(groups.len(), 3);
    assert_eq!(groups[0].rel_dir, "");
    assert_eq!(groups[0].members, vec![0, 2]);
    assert_eq!(groups[1].rel_dir, "sub");
    assert_eq!(groups[1].members, vec![1, 4]);
    assert_eq!(groups[2].rel_dir, "sub/deep");
    assert_eq!(groups[2].members, vec![3]);
    let total: usize = groups.iter().map(|g| g.members.len()).sum();
    assert_eq!(total, dirs.len());
    assert!(group_by_dir(&Vec::new()).is_empty());
}

#[test]
fn output_directories() {
    let p = output_dir_plan("Paris", "", false);
    assert_eq!(p.base, BaseDir::OutputRoot);
    assert_eq!(p.segments, vec!["Paris".to_string()]);
    let p = output_dir_plan("Paris", "day1", false);
    assert_eq!(p.segments, vec!["Paris".to_string(), "day1".to_string()]);
    let p = output_dir_plan("Paris", "", true);
    assert_eq!(p.base, BaseDir::Input);
    assert!(p.segments.is_empty());
    let p = output_dir_plan("Paris", "day1", true);
    assert_eq!(p.segments, vec!["day1".to_string()]);
    assert_eq!(image_dir_name(), "img");
    assert_eq!(metadata_file_name(), "exif.json");
}

#[test]
fn distinct_directories_distinct_outputs() {
    let rels = ["", "a", "b", "a/b"];
    for in_place in [false, true] {
        for (i, x) in rels.iter().enumerate() {
            for (j, y) in rels.iter().enumerate() {
                let px = output_dir_plan("F", x, in_place);
                let py = output_dir_plan("F", y, in_place);
                assert_eq!(i == j, px.segments == py.segments);
            }
        }
    }
}

#[test]
fn names_and_notices() {
    assert_eq!(album_display_name("Paris", ""), "Paris");
    assert_eq!(album_display_name("Paris", "day1"), "Paris/day1");
    assert_eq!(choose_folder_name(Some("Paris".into()), Some("x".into())), "Paris");
    assert_eq!(choose_folder_name(None, Some("photos".into())), "photos");
    assert_eq!(choose_folder_name(None, None), "album");
    assert_eq!(layout_notice(true, true, 2), LayoutNotice::InPlaceEachDir);
    assert_eq!(layout_notice(true, true, 1), LayoutNotice::InPlaceSingle);
    assert_eq!(layout_notice(true, false, 5), LayoutNotice::InPlaceSingle);
    assert_eq!(layout_notice(false, true, 3), LayoutNotice::NestedAlbums);
    assert_eq!(layout_notice(false, false, 3), LayoutNotice::SingleAlbum);
    assert_eq!(speed_hint(true, 2048), SpeedHint::Silent);
    assert_eq!(speed_hint(false, 2048), SpeedHint::Scaling);
    assert_eq!(speed_hint(false, 0), SpeedHint::SuggestWidthLimit);
    assert!(reports_compression(false, 1));
    assert!(!reports_compression(true, 1));
    assert!(!reports_compression(false, 0));
}

#[test]
fn collecting_an_album() {
    let members = vec![4, 7, 9, 12];
    let names: Vec<String> = ["a.jpg", "b.png", "c.webp", "d.jpg"].iter().map(|s| s.to_string()).collect();
    let outcomes = vec![Some(photo("a.jpg", 10, Some(2))), None, Some(photo("c.webp", 5, Some(1))), Some(photo("d.jpg", 3, None))];
    let out = collect_group(&members, &names, outcomes, true);
    let originals: Vec<&str> = out.photos.iter().map(|p| p.original.as_str()).collect();
    assert_eq!(originals, vec!["a.jpg", "c.webp", "d.jpg"]);
    assert_eq!(out.failed, vec![7]);
    assert_eq!(out.removable, vec![4]);
    let outcomes = vec![Some(photo("a.jpg", 10, Some(2))), None, None, None];
    let out = collect_group(&members, &names, outcomes, false);
    assert!(out.removable.is_empty());
    assert_eq!(out.failed, vec![7, 9, 12]);
}

#[test]
fn skip_webp_removes_nothing() {
    let members = vec![0, 1];
    let names: Vec<String> = ["a.jpg", "b.png"].iter().map(|s| s.to_string()).collect();
    let outcomes: Vec<Option<Photo>> = names
        .iter()
        .map(|n| Some(assemble_photo(n.clone(), 1, empty_exif(), plan_webp(n, true), Some(1))))
        .collect();
    let out = collect_group(&members, &names, outcomes, true);
    assert!(out.removable.is_empty());
    assert_eq!(out.photos.len(), 2);
}

#[test]
fn totals_over_albums() {
    let albums = vec![
        vec![photo("a", 7425632, Some(716800)), photo("b", 100, None)],
        vec![],
        vec![photo("c", 50, Some(20))],
    ];
    let t = album_totals(&albums);
    assert_eq!(t.photos, 3);
    assert_eq!(t.original_bytes, 7425632 + 100 + 50);
    assert_eq!(t.webp_bytes, 716800 + 20);
    let big = vec![vec![photo("a", u64::MAX, Some(u64::MAX)), photo("b", u64::MAX, None)]];
    let t = album_totals(&big);
    assert_eq!(t.original_bytes, 2 * (u64::MAX as u128));
    assert_eq!(t.webp_bytes, u64::MAX as u128);
}

#[test]
fn cleanup_candidates_sorted_and_unique() {
    assert_eq!(sorted_unique(&vec![5, 1, 5, 3, 1, 0]), vec![0, 1, 3, 5]);
    assert_eq!(sorted_unique(&vec![]), Vec::<usize>::new());
    assert_eq!(sorted_unique(&vec![2, 2, 2]), vec![2]);
}

#[test]
fn cleanup_error_preview() {
    assert_eq!(error_preview(0), (0, 0));
    assert_eq!(error_preview(2), (2, 0));
    assert_eq!(error_preview(3), (3, 0));
    assert_eq!(error_preview(7), (3, 4));
}

fn strings(v: &[&str]) -> Vec<String> {
    v.iter().map(|s| s.to_string()).collect()
}

#[test]
fn shared_webp_names_are_detected() {
    let names = strings(&["x.jpg", "x.png", "y.jpg", "Y.png", "z.jpg", "z.heic"]);
    let written = vec![true, true, true, true, true, false];
    assert!(webp_name_clash(&names, &written, 0));
    assert!(webp_name_clash(&names, &written, 1));
    // Names that differ in case are different files.
    assert!(!webp_name_clash(&names, &written, 2));
    assert!(!webp_name_clash(&names, &written, 3));
    // The other photo of the same stem wrote no copy.
    assert!(!webp_name_clash(&names, &written, 4));
    let only_one = vec![true, false, false, false, false, false];
    assert!(!webp_name_clash(&names, &only_one, 0));
    assert!(webp_name_clash(&names, &only_one, 1));
    assert_eq!(webp_file_name("x.jpg"), "x.webp");
    assert_eq!(webp_file_name(".hidden"), ".hidden.webp");
}

#[test]
fn same_stem_originals_are_kept() {
    let members = vec![0, 1, 2, 3];
    let names = strings(&["x.jpg", "x.png", "y.jpg", "z.jpg"]);
    let outcomes = vec![
        Some(photo("x", 10, Some(1))),
        Some(photo("x", 10, Some(1))),
        Some(photo("y", 10, Some(1))),
        None,
    ];
    let out = collect_group(&members, &names, outcomes, true);
    assert_eq!(out.removable, vec![2]);
    assert_eq!(out.photos.len(), 3);
    assert_eq!(out.failed, vec![3]);
    // The other photo of the same stem failed: its copy was never written,
    // so the converted original is removed.
    let names = strings(&["x.jpg", "x.png"]);
    let outcomes = vec![Some(photo("x", 10, Some(1))), None];
    let out = collect_group(&vec![0, 1], &names, outcomes, true);
    assert_eq!(out.removable, vec![0]);
    // Its conversion failed too: nothing to remove.
    let outcomes = vec![Some(photo("x", 10, None)), Some(photo("x", 10, Some(1)))];
    let out = collect_group(&vec![0, 1], &names, outcomes, true);
    assert_eq!(out.removable, vec![1]);
}

#[test]
fn metadata_and_removal_plan() {
    assert_eq!(albums_to_write(&vec![2, 0, 1], 3), vec![0, 2]);
    assert_eq!(albums_to_write(&vec![0, 0], 0), Vec::<usize>::new());
    assert_eq!(albums_to_write(&vec![], 0), Vec::<usize>::new());
    assert!(removes_originals(true, 1));
    assert!(!removes_originals(true, 0));
    assert!(!removes_originals(false, 5));
}

#[test]
fn folder_name_never_empty() {
    assert!(!choose_folder_name(None, None).is_empty());
    assert_eq!(choose_folder_name(None, Some("trip".into())), "trip");
    assert_eq!(choose_folder_name(Some("".into()), Some("trip".into())), "trip");
    assert_eq!(choose_folder_name(Some("".into()), Some("".into())), "album");
}
