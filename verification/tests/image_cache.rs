use std::io::Cursor;

use base64::Engine;
use project_images::image_loader::{
    is_plain_name, lists_name, FileCopy, ImageLoaderComponent, ImportPlan, MovePlan, PlannedMove,
    MAX_CONCURRENT_PREVIEWS,
};
use project_images::models::{FullImageModel, ImagePreviewModel};

fn preview(name: &str, data: &str) -> ImagePreviewModel {
    ImagePreviewModel {
        image_name: String::from(name),
        base64_preview: String::from(data),
        image_size_bytes: 10,
        width: 4,
        height: 3,
    }
}

fn entry(project: &str, name: &str, data: &str) -> Result<(ImagePreviewModel, String), String> {
    Ok((preview(name, data), ImageLoaderComponent::cache_key(project, name)))
}

fn file(name: &str) -> (String, String) {
    (format!("/store/projects/p/images/{name}"), String::from(name))
}

/// Stores ready-made previews of `project`, as the end of a listing that
/// found them pending does.
fn store(
    loader: &mut ImageLoaderComponent,
    project: &str,
    previews: &[(&str, &str)],
) -> Vec<ImagePreviewModel> {
    let files: Vec<(String, String)> = previews.iter().map(|(name, _)| file(name)).collect();
    let generated: Vec<_> =
        previews.iter().map(|(name, data)| entry(project, name, data)).collect();
    loader.get_image_previews_in_project(project, &files, &generated).unwrap()
}

fn load(
    loader: &mut ImageLoaderComponent,
    project: &str,
    name: &str,
    bytes: &Vec<u8>,
    size: u64,
) -> FullImageModel {
    loader.load_image_from_project(project, name, bytes, size).unwrap()
}

/// Ends a deletion in which every file was removed.
fn delete_all(loader: &mut ImageLoaderComponent, project: &str, names: &Vec<String>) {
    assert_eq!(loader.delete_images_from_project(project, names, names.len(), None), Ok(()));
}

fn names(list: &[&str]) -> Vec<String> {
    list.iter().map(|s| String::from(*s)).collect()
}

fn png(width: u32, height: u32) -> Vec<u8> {
    let picture = image::RgbaImage::from_pixel(width, height, image::Rgba([10, 200, 30, 255]));
    let mut bytes = Cursor::new(Vec::new());
    picture.write_to(&mut bytes, image::ImageFormat::Png).unwrap();
    bytes.into_inner()
}

/// Lists the previews of project `project` as a caller does: looks up, has
/// the pending previews generated from `content`, and stores them. Returns
/// the previews and how many had to be generated.
fn list_previews(
    loader: &mut ImageLoaderComponent,
    project: &str,
    files: &Vec<(String, String)>,
    content: &Vec<u8>,
) -> (Vec<ImagePreviewModel>, usize) {
    let lookup = loader.split_cached_previews(project, files);
    let generated: Vec<_> = lookup
        .uncached
        .iter()
        .map(|(path, name)| {
            ImageLoaderComponent::generate_preview_entry(
                project,
                name,
                path,
                content,
                content.len() as u64,
                None,
            )
        })
        .collect();
    let decoded = generated.len();
    (loader.get_image_previews_in_project(project, files, &generated).unwrap(), decoded)
}

#[test]
fn at_most_four_images_are_decoded_at_once() {
    assert_eq!(MAX_CONCURRENT_PREVIEWS, 4);
}

#[test]
fn cache_key_joins_project_and_image_with_a_slash() {
    assert_eq!(ImageLoaderComponent::cache_key("holiday", "a.jpg"), "holiday/a.jpg");
    assert_eq!(ImageLoaderComponent::cache_key("holiday", "beach/a.jpg"), "holiday/beach/a.jpg");
    assert_eq!(ImageLoaderComponent::cache_key("", ""), "/");
}

#[test]
fn new_loader_has_nothing_cached() {
    let loader = ImageLoaderComponent::new();
    let lookup = loader.split_cached_previews("p", &vec![file("a.jpg")]);
    assert!(lookup.cached.is_empty());
    assert_eq!(lookup.uncached, vec![file("a.jpg")]);
    assert_eq!(loader.cached_full_image("p", "a.jpg"), None);
}

#[test]
fn listing_returns_cached_previews_first_then_generated_ones() {
    let mut loader = ImageLoaderComponent::new();
    store(&mut loader, "p", &[("b.jpg", "B")]);
    let files = vec![file("a.jpg"), file("b.jpg"), file("c.jpg")];
    let lookup = loader.split_cached_previews("p", &files);
    assert_eq!(lookup.cached, vec![preview("b.jpg", "B")]);
    assert_eq!(lookup.uncached, vec![file("a.jpg"), file("c.jpg")]);
    let generated = vec![entry("p", "c.jpg", "C"), entry("p", "a.jpg", "A")];
    let all = loader.get_image_previews_in_project("p", &files, &generated).unwrap();
    assert_eq!(all, vec![preview("b.jpg", "B"), preview("c.jpg", "C"), preview("a.jpg", "A")]);
}

#[test]
fn failed_previews_are_left_out_and_tried_again() {
    let mut loader = ImageLoaderComponent::new();
    let files = vec![file("a.jpg"), file("broken.jpg")];
    let lookup = loader.split_cached_previews("p", &files);
    let generated = vec![entry("p", "a.jpg", "A"), Err(String::from("Failed to generate preview"))];
    let all = loader.get_image_previews_in_project("p", &files, &generated).unwrap();
    assert_eq!(all, vec![preview("a.jpg", "A")]);
    let second = loader.split_cached_previews("p", &files);
    assert_eq!(second.cached, vec![preview("a.jpg", "A")]);
    assert_eq!(second.uncached, vec![file("broken.jpg")]);
}

#[test]
fn second_listing_is_served_from_the_cache() {
    let mut loader = ImageLoaderComponent::new();
    let files = vec![file("a.png"), file("f/b.png"), file("c.png")];
    let content = png(300, 100);
    let (first, decoded_first) = list_previews(&mut loader, "p", &files, &content);
    assert_eq!(decoded_first, 3);
    let (second, decoded_second) = list_previews(&mut loader, "p", &files, &content);
    assert_eq!(decoded_second, 0);
    assert_eq!(second, first);
    assert_eq!(second.len(), 3);
    assert_eq!(second[1].image_name, "f/b.png");
    assert_eq!((second[1].width, second[1].height), (300, 100));
}

#[test]
fn clearing_a_project_changes_no_preview() {
    let mut loader = ImageLoaderComponent::new();
    let files = vec![file("kept.png")];
    let content = png(40, 30);
    let (before, _) = list_previews(&mut loader, "p", &files, &content);
    let plan = ImageLoaderComponent::plan_import("p", &names(&["/home/me/new.png"]), &None);
    assert_eq!(loader.import_images_to_project("p", &plan, None), Ok(()));
    let (after, decoded) = list_previews(&mut loader, "p", &files, &content);
    assert_eq!(decoded, 1);
    assert_eq!(after, before);
    assert_eq!(after[0].base64_preview, before[0].base64_preview);
}

#[test]
fn generated_entry_carries_name_size_and_key() {
    let content = png(400, 100);
    let (model, key) = ImageLoaderComponent::generate_preview_entry(
        "holiday",
        "beach/a.png",
        "/store/projects/holiday/images/beach/a.png",
        &content,
        123_456,
        None,
    )
    .unwrap();
    assert_eq!(key, "holiday/beach/a.png");
    assert_eq!(model.image_name, "beach/a.png");
    assert_eq!(model.image_size_bytes, 123_456);
    assert_eq!((model.width, model.height), (400, 100));
    assert!(!model.base64_preview.is_empty());
}

#[test]
fn entry_that_cannot_be_generated_names_the_image() {
    let failure = ImageLoaderComponent::generate_preview_entry(
        "p",
        "notes.txt",
        "/store/projects/p/images/notes.txt",
        &vec![1, 2, 3],
        3,
        None,
    )
    .unwrap_err();
    assert!(failure.starts_with("Failed to generate preview for notes.txt: "));
    assert!(failure.len() > "Failed to generate preview for notes.txt: ".len());
}

#[test]
fn full_image_is_made_once_and_then_served_from_the_cache() {
    let mut loader = ImageLoaderComponent::new();
    let content = png(64, 48);
    let first = load(&mut loader, "p", "f/a.png", &content, content.len() as u64);
    assert_eq!(first.image_name, "f/a.png");
    assert_eq!(first.image_size_bytes, content.len() as u64);
    assert_eq!((first.width, first.height), (64, 48));
    assert_eq!(
        base64::engine::general_purpose::STANDARD.decode(&first.base64_image).unwrap(),
        content
    );
    assert_eq!(loader.cached_full_image("p", "f/a.png"), Some(first.clone()));
    let second = load(&mut loader, "p", "f/a.png", &b"changed".to_vec(), 7);
    assert_eq!(second, first);
}

#[test]
fn full_image_holds_the_file_in_base64() {
    let mut loader = ImageLoaderComponent::new();
    let model = load(&mut loader, "p", "a.jpg", &b"hello".to_vec(), 5);
    assert_eq!(
        model,
        FullImageModel {
            image_name: String::from("a.jpg"),
            base64_image: String::from("aGVsbG8="),
            image_size_bytes: 5,
            width: 0,
            height: 0,
        }
    );
}

#[test]
fn full_image_without_readable_header_has_size_zero() {
    let mut loader = ImageLoaderComponent::new();
    let model = load(&mut loader, "p", "odd.bin", &vec![0, 255, 16], 3);
    assert_eq!((model.width, model.height), (0, 0));
    assert_eq!(model.base64_image, "AP8Q");
    assert_eq!(model.image_size_bytes, 3);
}

#[test]
fn full_image_size_is_read_in_the_format_of_the_extension() {
    let mut loader = ImageLoaderComponent::new();
    let content = png(30, 20);
    let named_right = load(&mut loader, "p", "a.PNG", &content, 1);
    assert_eq!((named_right.width, named_right.height), (30, 20));
    let named_wrong = load(&mut loader, "p", "really_png.jpg", &content, 1);
    assert_eq!((named_wrong.width, named_wrong.height), (0, 0));
    let unnamed = load(&mut loader, "p", "noext", &content, 1);
    assert_eq!((unnamed.width, unnamed.height), (0, 0));
}

#[test]
fn full_image_of_empty_file_is_empty_text() {
    let mut loader = ImageLoaderComponent::new();
    let model = load(&mut loader, "p", "empty", &Vec::new(), 0);
    assert_eq!(model.base64_image, "");
}

#[test]
fn full_images_and_previews_are_cached_apart() {
    let mut loader = ImageLoaderComponent::new();
    load(&mut loader, "p", "a.jpg", &vec![1], 1);
    let lookup = loader.split_cached_previews("p", &vec![file("a.jpg")]);
    assert!(lookup.cached.is_empty());
    store(&mut loader, "p", &[("b.jpg", "B")]);
    assert_eq!(loader.cached_full_image("p", "b.jpg"), None);
}

#[test]
fn deleting_an_image_evicts_both_of_its_entries_and_no_other() {
    let mut loader = ImageLoaderComponent::new();
    store(&mut loader, "p", &[("x.jpg", "X"), ("y.jpg", "Y")]);
    store(&mut loader, "q", &[("x.jpg", "QX")]);
    load(&mut loader, "p", "x.jpg", &vec![1], 1);
    load(&mut loader, "p", "y.jpg", &vec![2], 1);
    delete_all(&mut loader, "p", &names(&["x.jpg"]));
    assert_eq!(loader.cached_full_image("p", "x.jpg"), None);
    assert!(loader.cached_full_image("p", "y.jpg").is_some());
    let lookup = loader.split_cached_previews("p", &vec![file("x.jpg"), file("y.jpg")]);
    assert_eq!(lookup.cached, vec![preview("y.jpg", "Y")]);
    assert_eq!(lookup.uncached, vec![file("x.jpg")]);
    let other = loader.split_cached_previews("q", &vec![file("x.jpg")]);
    assert_eq!(other.cached, vec![preview("x.jpg", "QX")]);
}

#[test]
fn deleting_unknown_or_no_images_leaves_the_caches() {
    let mut loader = ImageLoaderComponent::new();
    store(&mut loader, "p", &[("a.jpg", "A")]);
    delete_all(&mut loader, "p", &names(&["nope.jpg"]));
    delete_all(&mut loader, "p", &Vec::new());
    let lookup = loader.split_cached_previews("p", &vec![file("a.jpg")]);
    assert_eq!(lookup.cached, vec![preview("a.jpg", "A")]);
}

#[test]
fn clearing_a_project_spares_other_projects() {
    let mut loader = ImageLoaderComponent::new();
    store(&mut loader, "p", &[("a.jpg", "A"), ("f/b.jpg", "B")]);
    store(&mut loader, "pq", &[("a.jpg", "PQ")]);
    load(&mut loader, "p", "a.jpg", &vec![1], 1);
    load(&mut loader, "pq", "a.jpg", &vec![2], 1);
    loader.clear_project_cache("p");
    let lookup = loader.split_cached_previews("p", &vec![file("a.jpg"), file("f/b.jpg")]);
    assert!(lookup.cached.is_empty());
    assert_eq!(loader.cached_full_image("p", "a.jpg"), None);
    let other = loader.split_cached_previews("pq", &vec![file("a.jpg")]);
    assert_eq!(other.cached, vec![preview("a.jpg", "PQ")]);
    assert!(loader.cached_full_image("pq", "a.jpg").is_some());
}

#[test]
fn import_plans_one_copy_per_source_under_its_file_name() {
    let plan = ImageLoaderComponent::plan_import(
        "holiday",
        &names(&["/home/me/Pictures/a.jpg", "relative/b.png"]),
        &None,
    );
    assert_eq!(
        plan,
        ImportPlan {
            copies: vec![
                FileCopy {
                    source: String::from("/home/me/Pictures/a.jpg"),
                    destination: String::from("projects/holiday/images/a.jpg"),
                },
                FileCopy {
                    source: String::from("relative/b.png"),
                    destination: String::from("projects/holiday/images/b.png"),
                },
            ],
            rejected: None,
        }
    );
}

#[test]
fn import_into_a_folder_puts_the_folder_before_the_file_name() {
    let plan = ImageLoaderComponent::plan_import(
        "holiday",
        &names(&["/home/me/a.jpg"]),
        &Some(String::from("beach")),
    );
    assert_eq!(plan.copies[0].destination, "projects/holiday/images/beach/a.jpg");
    let root = ImageLoaderComponent::plan_import(
        "holiday",
        &names(&["/home/me/a.jpg"]),
        &Some(String::new()),
    );
    assert_eq!(root.copies[0].destination, "projects/holiday/images/a.jpg");
}

#[test]
fn import_stops_planning_at_a_path_without_file_name() {
    let plan = ImageLoaderComponent::plan_import(
        "p",
        &names(&["/home/me/a.jpg", "/home/me/..", "/home/me/c.jpg"]),
        &None,
    );
    assert_eq!(plan.copies.len(), 1);
    assert_eq!(plan.copies[0].source, "/home/me/a.jpg");
    assert_eq!(plan.rejected, Some(String::from("Invalid file path: /home/me/..")));
}

#[test]
fn import_of_nothing_plans_nothing() {
    let plan = ImageLoaderComponent::plan_import("p", &Vec::new(), &None);
    assert_eq!(plan, ImportPlan { copies: Vec::new(), rejected: None });
}

#[test]
fn finished_import_forgets_the_whole_project() {
    let mut loader = ImageLoaderComponent::new();
    store(&mut loader, "p", &[("old.jpg", "O")]);
    store(&mut loader, "q", &[("old.jpg", "Q")]);
    load(&mut loader, "p", "old.jpg", &vec![1], 1);
    let plan = ImageLoaderComponent::plan_import("p", &names(&["/x/new.jpg"]), &None);
    assert_eq!(loader.import_images_to_project("p", &plan, None), Ok(()));
    assert!(loader.split_cached_previews("p", &vec![file("old.jpg")]).cached.is_empty());
    assert_eq!(loader.cached_full_image("p", "old.jpg"), None);
    assert_eq!(loader.split_cached_previews("q", &vec![file("old.jpg")]).cached.len(), 1);
}

#[test]
fn failed_copy_fails_the_import_and_forgets_the_project() {
    // An earlier copy may have replaced an image that has a cached entry.
    let mut loader = ImageLoaderComponent::new();
    store(&mut loader, "p", &[("old.jpg", "O")]);
    store(&mut loader, "q", &[("old.jpg", "Q")]);
    load(&mut loader, "p", "old.jpg", &vec![1], 1);
    let plan = ImageLoaderComponent::plan_import("p", &names(&["/x/old.jpg", "/x/new.jpg"]), &None);
    let done =
        loader.import_images_to_project("p", &plan, Some(String::from("No such file or directory")));
    assert_eq!(done, Err(String::from("No such file or directory")));
    assert!(loader.split_cached_previews("p", &vec![file("old.jpg")]).cached.is_empty());
    assert_eq!(loader.cached_full_image("p", "old.jpg"), None);
    assert_eq!(loader.split_cached_previews("q", &vec![file("old.jpg")]).cached.len(), 1);
}

#[test]
fn import_rejected_after_a_copy_forgets_the_project() {
    let mut loader = ImageLoaderComponent::new();
    store(&mut loader, "p", &[("old.jpg", "O")]);
    let plan = ImageLoaderComponent::plan_import("p", &names(&["/x/old.jpg", "/"]), &None);
    assert_eq!(plan.copies.len(), 1);
    let done = loader.import_images_to_project("p", &plan, None);
    assert_eq!(done, Err(String::from("Invalid file path: /")));
    assert!(loader.split_cached_previews("p", &vec![file("old.jpg")]).cached.is_empty());
}

#[test]
fn rejected_import_fails_with_the_complaint_and_keeps_the_caches() {
    let mut loader = ImageLoaderComponent::new();
    store(&mut loader, "p", &[("old.jpg", "O")]);
    let plan = ImageLoaderComponent::plan_import("p", &names(&[""]), &None);
    let done = loader.import_images_to_project("p", &plan, None);
    assert_eq!(done, Err(String::from("Invalid file path: ")));
    assert_eq!(loader.split_cached_previews("p", &vec![file("old.jpg")]).cached.len(), 1);
}

#[test]
fn move_plans_new_names_in_the_order_of_the_images() {
    let plan = ImageLoaderComponent::plan_move(
        "p",
        &names(&["a.jpg", "old/b.jpg", "beach/c.jpg"]),
        &Some(String::from("beach")),
    );
    assert_eq!(
        plan,
        MovePlan {
            moves: vec![
                PlannedMove {
                    image_name: String::from("a.jpg"),
                    new_name: String::from("beach/a.jpg"),
                    source: String::from("projects/p/images/a.jpg"),
                    destination: String::from("projects/p/images/beach/a.jpg"),
                    stays: false,
                },
                PlannedMove {
                    image_name: String::from("old/b.jpg"),
                    new_name: String::from("beach/b.jpg"),
                    source: String::from("projects/p/images/old/b.jpg"),
                    destination: String::from("projects/p/images/beach/b.jpg"),
                    stays: false,
                },
                PlannedMove {
                    image_name: String::from("beach/c.jpg"),
                    new_name: String::from("beach/c.jpg"),
                    source: String::from("projects/p/images/beach/c.jpg"),
                    destination: String::from("projects/p/images/beach/c.jpg"),
                    stays: true,
                },
            ],
            rejected: None,
        }
    );
}

#[test]
fn move_to_the_root_strips_the_folder() {
    let plan = ImageLoaderComponent::plan_move("p", &names(&["old/b.jpg", "a.jpg"]), &None);
    assert_eq!(plan.moves[0].new_name, "b.jpg");
    assert!(!plan.moves[0].stays);
    assert_eq!(plan.moves[1].new_name, "a.jpg");
    assert!(plan.moves[1].stays);
}

#[test]
fn move_stops_planning_at_a_name_without_file_name() {
    let plan = ImageLoaderComponent::plan_move("p", &names(&["a.jpg", "f/..", "c.jpg"]), &None);
    assert_eq!(plan.moves.len(), 1);
    assert_eq!(plan.rejected, Some(String::from("Invalid image name: f/..")));
}

#[test]
fn finished_move_returns_new_names_and_forgets_the_project() {
    let mut loader = ImageLoaderComponent::new();
    store(&mut loader, "p", &[("a.jpg", "A"), ("untouched.jpg", "U")]);
    let plan = ImageLoaderComponent::plan_move(
        "p",
        &names(&["a.jpg", "f/b.jpg"]),
        &Some(String::from("f")),
    );
    let moved = loader.move_images_in_project("p", &plan, None);
    assert_eq!(moved, Ok(names(&["f/a.jpg", "f/b.jpg"])));
    let lookup = loader.split_cached_previews("p", &vec![file("a.jpg"), file("untouched.jpg")]);
    assert!(lookup.cached.is_empty());
}

#[test]
fn failed_rename_fails_the_move_and_forgets_the_project() {
    // The first image was moved, the second could not be: no entry of the
    // first may survive under its old name.
    let mut loader = ImageLoaderComponent::new();
    store(&mut loader, "p", &[("a.jpg", "A"), ("b.jpg", "B")]);
    store(&mut loader, "q", &[("a.jpg", "QA")]);
    load(&mut loader, "p", "a.jpg", &vec![1], 1);
    let plan =
        ImageLoaderComponent::plan_move("p", &names(&["a.jpg", "b.jpg"]), &Some(String::from("f")));
    let failure = ImageLoaderComponent::move_failure_message(&plan.moves[1], "No such file");
    assert_eq!(failure, "Failed to move b.jpg to f/b.jpg: No such file");
    let moved = loader.move_images_in_project("p", &plan, Some(failure.clone()));
    assert_eq!(moved, Err(failure));
    let lookup = loader.split_cached_previews("p", &vec![file("a.jpg"), file("b.jpg")]);
    assert!(lookup.cached.is_empty());
    assert_eq!(loader.cached_full_image("p", "a.jpg"), None);
    assert_eq!(loader.split_cached_previews("q", &vec![file("a.jpg")]).cached.len(), 1);
}

#[test]
fn move_rejected_after_a_rename_forgets_the_project() {
    let mut loader = ImageLoaderComponent::new();
    store(&mut loader, "p", &[("a.jpg", "A")]);
    let plan =
        ImageLoaderComponent::plan_move("p", &names(&["a.jpg", "/"]), &Some(String::from("f")));
    let moved = loader.move_images_in_project("p", &plan, None);
    assert_eq!(moved, Err(String::from("Invalid image name: /")));
    assert!(loader.split_cached_previews("p", &vec![file("a.jpg")]).cached.is_empty());
}

#[test]
fn move_rejected_before_any_rename_keeps_the_caches() {
    let mut loader = ImageLoaderComponent::new();
    store(&mut loader, "p", &[("a.jpg", "A")]);
    let plan = ImageLoaderComponent::plan_move("p", &names(&["/", "a.jpg"]), &None);
    let moved = loader.move_images_in_project("p", &plan, None);
    assert_eq!(moved, Err(String::from("Invalid image name: /")));
    assert_eq!(loader.split_cached_previews("p", &vec![file("a.jpg")]).cached.len(), 1);
}

#[test]
fn rejected_move_fails_with_the_complaint() {
    let mut loader = ImageLoaderComponent::new();
    let plan = ImageLoaderComponent::plan_move("p", &names(&["/"]), &None);
    let moved = loader.move_images_in_project("p", &plan, None);
    assert_eq!(moved, Err(String::from("Invalid image name: /")));
}

#[test]
fn a_second_preview_for_one_image_is_not_taken() {
    let mut loader = ImageLoaderComponent::new();
    let all = store(&mut loader, "p", &[("a.jpg", "first"), ("a.jpg", "second")]);
    assert_eq!(all, vec![preview("a.jpg", "first")]);
    let lookup = loader.split_cached_previews("p", &vec![file("a.jpg")]);
    assert_eq!(lookup.cached, vec![preview("a.jpg", "first")]);
}

#[test]
fn a_preview_that_is_cached_already_is_not_replaced() {
    let mut loader = ImageLoaderComponent::new();
    store(&mut loader, "p", &[("a.jpg", "old")]);
    let files = vec![file("a.jpg"), file("b.jpg")];
    let generated = vec![entry("p", "a.jpg", "new"), entry("p", "b.jpg", "B")];
    let all = loader.get_image_previews_in_project("p", &files, &generated).unwrap();
    assert_eq!(all, vec![preview("a.jpg", "old"), preview("b.jpg", "B")]);
}

#[test]
fn a_preview_under_the_key_of_another_name_is_not_taken() {
    let mut loader = ImageLoaderComponent::new();
    let files = vec![file("x.jpg"), file("y.jpg")];
    let generated = vec![
        Ok((preview("x.jpg", "X"), ImageLoaderComponent::cache_key("p", "y.jpg"))),
        Ok((preview("y.jpg", "Y"), ImageLoaderComponent::cache_key("q", "y.jpg"))),
    ];
    let all = loader.get_image_previews_in_project("p", &files, &generated).unwrap();
    assert!(all.is_empty());
    assert_eq!(loader.split_cached_previews("p", &files).uncached, files);
    assert!(loader.split_cached_previews("q", &files).cached.is_empty());
}

#[test]
fn a_preview_of_a_file_that_is_not_listed_is_not_taken() {
    let mut loader = ImageLoaderComponent::new();
    let files = vec![file("a.jpg")];
    let generated = vec![entry("p", "deep/er/b.jpg", "B"), entry("p", "a.jpg", "A")];
    let all = loader.get_image_previews_in_project("p", &files, &generated).unwrap();
    assert_eq!(all, vec![preview("a.jpg", "A")]);
    assert!(loader.split_cached_previews("p", &vec![file("deep/er/b.jpg")]).cached.is_empty());
}

#[test]
fn every_listed_preview_is_cached_under_its_own_name() {
    let mut loader = ImageLoaderComponent::new();
    store(&mut loader, "p", &[("b.jpg", "B")]);
    let files = vec![file("a.jpg"), file("b.jpg"), file("f/c.jpg")];
    let generated =
        vec![entry("p", "f/c.jpg", "C"), Err(String::from("broken")), entry("p", "a.jpg", "A")];
    let all = loader.get_image_previews_in_project("p", &files, &generated).unwrap();
    assert_eq!(all.len(), 3);
    for listed in &all {
        let lookup = loader.split_cached_previews("p", &vec![file(&listed.image_name)]);
        assert_eq!(lookup.cached, vec![listed.clone()]);
        assert!(files.iter().any(|(_, name)| *name == listed.image_name));
    }
}

#[test]
fn preview_failure_names_the_image_and_the_cause() {
    assert_eq!(
        ImageLoaderComponent::preview_failure_message("f/a.jpg", "No such file or directory"),
        "Failed to generate preview for f/a.jpg: No such file or directory"
    );
}

#[test]
fn nothing_is_cached_for_a_project_name_with_a_slash() {
    // The key of image `c.jpg` of a project `a/b` would be the key of image
    // `b/c.jpg` of project `a`.
    assert_eq!(
        ImageLoaderComponent::cache_key("a/b", "c.jpg"),
        ImageLoaderComponent::cache_key("a", "b/c.jpg")
    );
    let mut loader = ImageLoaderComponent::new();
    store(&mut loader, "a", &[("b/c.jpg", "of a")]);
    let files = vec![file("c.jpg")];
    let listed =
        loader.get_image_previews_in_project("a/b", &files, &vec![entry("a/b", "c.jpg", "C")]);
    assert_eq!(listed, Err(String::from("Invalid project name: a/b")));
    assert_eq!(loader.split_cached_previews("a/b", &files).uncached, files);
    assert!(loader.split_cached_previews("a/b", &files).cached.is_empty());
    assert_eq!(
        loader.load_image_from_project("a/b", "c.jpg", &vec![1], 1),
        Err(String::from("Invalid project name: a/b"))
    );
    assert_eq!(loader.cached_full_image("a/b", "c.jpg"), None);
    assert_eq!(
        loader.split_cached_previews("a", &vec![file("b/c.jpg")]).cached,
        vec![preview("b/c.jpg", "of a")]
    );
}

#[test]
fn plain_names_hold_no_slash() {
    assert!(is_plain_name("holiday"));
    assert!(is_plain_name(""));
    assert!(!is_plain_name("a/b"));
    assert!(!is_plain_name("/"));
    assert!(is_plain_name("été 2024"));
}

#[test]
fn listed_names_are_found_by_their_relative_name() {
    let files = vec![file("a.jpg"), file("f/b.jpg")];
    assert!(lists_name(&files, "f/b.jpg"));
    assert!(!lists_name(&files, "b.jpg"));
    assert!(!lists_name(&Vec::new(), "a.jpg"));
}

#[test]
fn deletion_that_fails_evicts_only_the_images_removed_before() {
    let mut loader = ImageLoaderComponent::new();
    store(&mut loader, "p", &[("a.jpg", "A"), ("gone.jpg", "G"), ("c.jpg", "C")]);
    load(&mut loader, "p", "a.jpg", &vec![1], 1);
    load(&mut loader, "p", "gone.jpg", &vec![2], 1);
    load(&mut loader, "p", "c.jpg", &vec![3], 1);
    let done = loader.delete_images_from_project(
        "p",
        &names(&["a.jpg", "gone.jpg", "c.jpg"]),
        1,
        Some(String::from("No such file or directory (os error 2)")),
    );
    assert_eq!(done, Err(String::from("No such file or directory (os error 2)")));
    let lookup =
        loader.split_cached_previews("p", &vec![file("a.jpg"), file("gone.jpg"), file("c.jpg")]);
    assert_eq!(lookup.cached, vec![preview("gone.jpg", "G"), preview("c.jpg", "C")]);
    assert_eq!(loader.cached_full_image("p", "a.jpg"), None);
    assert!(loader.cached_full_image("p", "gone.jpg").is_some());
    assert!(loader.cached_full_image("p", "c.jpg").is_some());
}

#[test]
fn deletion_of_a_missing_first_image_fails_and_evicts_nothing() {
    let mut loader = ImageLoaderComponent::new();
    store(&mut loader, "p", &[("x.jpg", "X")]);
    let done = loader.delete_images_from_project(
        "p",
        &names(&["x.jpg"]),
        0,
        Some(String::from("No such file or directory (os error 2)")),
    );
    assert!(done.is_err());
    assert_eq!(loader.split_cached_previews("p", &vec![file("x.jpg")]).cached.len(), 1);
}

#[test]
fn deletion_counts_no_more_images_than_were_named() {
    let mut loader = ImageLoaderComponent::new();
    store(&mut loader, "p", &[("a.jpg", "A"), ("b.jpg", "B")]);
    assert_eq!(loader.delete_images_from_project("p", &names(&["a.jpg"]), 7, None), Ok(()));
    let lookup = loader.split_cached_previews("p", &vec![file("a.jpg"), file("b.jpg")]);
    assert_eq!(lookup.cached, vec![preview("b.jpg", "B")]);
}
