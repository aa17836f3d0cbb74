use project_images::app_save::AppSaveService;
use project_images::paths::{
    evaluations_path, extension_of, extension_of_name, file_stem_of, folder_prefix, image_path,
    images_dir, project_dir, project_info_path, stem_of_name,
};
use project_images::text::{clone_names, concat2, concat3, contains_name, has_prefix, str_eq};

#[test]
fn full_path_appends_relative_path_after_a_slash() {
    let store = AppSaveService::new(String::from("/home/me/.local/share/reader"));
    assert_eq!(
        store.get_full_path("projects/holiday/images"),
        "/home/me/.local/share/reader/projects/holiday/images"
    );
}

#[test]
fn full_path_adds_no_second_slash() {
    let store = AppSaveService::new(String::from("/data/"));
    assert_eq!(store.get_full_path("projects"), "/data/projects");
}

#[test]
fn full_path_of_rooted_path_is_that_path() {
    let store = AppSaveService::new(String::from("/data"));
    assert_eq!(store.get_full_path("/etc/hosts"), "/etc/hosts");
}

#[test]
fn full_path_from_empty_base_is_the_relative_path() {
    let store = AppSaveService::new(String::new());
    assert_eq!(store.get_full_path("projects/a"), "projects/a");
}

#[test]
fn full_path_of_empty_relative_path_ends_in_slash() {
    let store = AppSaveService::new(String::from("/data"));
    assert_eq!(store.get_full_path(""), "/data/");
}

#[test]
fn full_path_keeps_the_store_field() {
    let store = AppSaveService::new(String::from("/data"));
    assert_eq!(store.save_dir, "/data");
}

#[test]
fn store_layout_of_a_project() {
    assert_eq!(project_dir("holiday"), "projects/holiday");
    assert_eq!(images_dir("holiday"), "projects/holiday/images");
    assert_eq!(image_path("holiday", "beach/a.jpg"), "projects/holiday/images/beach/a.jpg");
    assert_eq!(evaluations_path("holiday"), "projects/holiday/image_evals.json");
    assert_eq!(project_info_path("holiday"), "projects/holiday/info.imgreader");
}

#[test]
fn folder_prefix_of_named_folder_ends_in_slash() {
    assert_eq!(folder_prefix(&Some(String::from("beach"))), "beach/");
}

#[test]
fn folder_prefix_of_root_is_empty() {
    assert_eq!(folder_prefix(&None), "");
    assert_eq!(folder_prefix(&Some(String::new())), "");
}

#[test]
fn strings_compare_by_their_characters() {
    assert!(str_eq("photo.jpg", "photo.jpg"));
    assert!(!str_eq("photo.jpg", "Photo.jpg"));
    assert!(str_eq("", ""));
    assert!(!str_eq("a", ""));
}

#[test]
fn prefix_test_handles_short_and_unicode_strings() {
    assert!(has_prefix("holiday/a.jpg", "holiday/"));
    assert!(has_prefix("holiday/a.jpg", ""));
    assert!(!has_prefix("holiday", "holiday/"));
    assert!(!has_prefix("holidays/a.jpg", "holiday/"));
    assert!(has_prefix("été/plage.jpg", "été/"));
    assert!(!has_prefix("ete/plage.jpg", "été/"));
}

#[test]
fn concatenation_keeps_order() {
    assert_eq!(concat2("a", "b"), "ab");
    assert_eq!(concat3("a", "/", "b"), "a/b");
    assert_eq!(concat3("", "", ""), "");
}

#[test]
fn name_lists_are_searched_and_copied() {
    let names = vec![String::from("a.jpg"), String::from("f/b.jpg")];
    assert!(contains_name(&names, "f/b.jpg"));
    assert!(!contains_name(&names, "b.jpg"));
    assert!(!contains_name(&Vec::new(), "a.jpg"));
    assert_eq!(clone_names(&names), names);
}

#[test]
fn extension_and_stem_split_a_name_at_its_last_dot() {
    use_extension_cases(&[
        ("a.jpg", Some("jpg"), "a"),
        ("archive.tar.gz", Some("gz"), "archive.tar"),
        ("a.", Some(""), "a"),
        ("..a", Some("a"), "."),
        ("a.b.", Some(""), "a.b"),
        ("été.PNG", Some("PNG"), "été"),
    ]);
}

#[test]
fn names_without_extension_are_their_own_stem() {
    use_extension_cases(&[
        ("README", None, "README"),
        (".hidden", None, ".hidden"),
        ("", None, ""),
        ("no dot here", None, "no dot here"),
    ]);
}

fn use_extension_cases(cases: &[(&str, Option<&str>, &str)]) {
    for (name, extension, stem) in cases {
        assert_eq!(extension_of_name(name).as_deref(), *extension, "{name}");
        assert_eq!(stem_of_name(name), *stem, "{name}");
    }
}

#[test]
fn extension_and_stem_agree_with_the_standard_library() {
    let paths = [
        "a.jpg",
        "/x/y/archive.tar.gz",
        "/x/y/.hidden",
        "/x/y/.hidden.txt",
        "x/a.",
        "x/..a",
        "x/a..b",
        "x.y/plain",
        "x.y/",
        "/",
        "",
        "..",
        "x/..",
        "x/.",
        "trailing.dir/.",
        "dir/été.JPEG",
        "a b.c d",
    ];
    for path in paths {
        let expected_extension = std::path::Path::new(path)
            .extension()
            .map(|part| part.to_string_lossy().into_owned());
        let expected_stem = std::path::Path::new(path)
            .file_stem()
            .map(|part| part.to_string_lossy().into_owned());
        assert_eq!(extension_of(path), expected_extension, "{path}");
        assert_eq!(file_stem_of(path), expected_stem, "{path}");
    }
}

#[test]
fn new_project_was_never_opened() {
    let info = project_images::models::ProjectInfoModel::new("holiday");
    assert_eq!(info.project_name, "holiday");
    assert_eq!(info.last_opened_at, None);
    assert_eq!(info.clone(), info);
}
