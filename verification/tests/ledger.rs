use project_images::image_evaluations::{EvaluationOutcome, ImageEvaluationsComponent};
use project_images::image_loader::ImageLoaderComponent;
use project_images::models::{
    ImageEvaluation, ImageEvaluationResult, ImagePreviewModel, RequestImageEvaluation,
};

fn judged(name: &str, suffix: &str) -> ImageEvaluation {
    ImageEvaluation {
        image_name: String::from(name),
        result: Some(ImageEvaluationResult {
            original_image_path: format!("/store/projects/p/images/{name}"),
            new_suggested_filepath_suffix: Some(String::from(suffix)),
            details: String::from("{}"),
        }),
        fail_reason: None,
    }
}

fn failed(name: &str, reason: &str) -> ImageEvaluation {
    ImageEvaluation {
        image_name: String::from(name),
        result: None,
        fail_reason: Some(String::from(reason)),
    }
}

fn outcome(path: &str, suffix: &str) -> EvaluationOutcome {
    EvaluationOutcome {
        full_image_path: String::from(path),
        success_result: Some(ImageEvaluationResult {
            original_image_path: String::from(path),
            new_suggested_filepath_suffix: Some(String::from(suffix)),
            details: String::from("{}"),
        }),
        failure_result: None,
    }
}

fn pair(a: &str, b: &str) -> (String, String) {
    (String::from(a), String::from(b))
}

fn names(list: &[&str]) -> Vec<String> {
    list.iter().map(|s| String::from(*s)).collect()
}

fn request(list: &[&str]) -> RequestImageEvaluation {
    RequestImageEvaluation { image_names: names(list), openai_api_key: String::from("key") }
}

#[test]
fn reevaluating_overlapping_sets_upserts_by_name() {
    let first = vec![judged("A.jpg", "_old"), judged("B.jpg", "_old")];
    let second = vec![judged("B.jpg", "_new"), judged("C.jpg", "_new")];
    let after_first = ImageEvaluationsComponent::merge_evaluations(&Vec::new(), &first);
    assert_eq!(after_first, first);
    let after_second = ImageEvaluationsComponent::merge_evaluations(&after_first, &second);
    assert_eq!(
        after_second,
        vec![judged("A.jpg", "_old"), judged("B.jpg", "_new"), judged("C.jpg", "_new")]
    );
}

#[test]
fn merge_replaces_whole_record_not_single_fields() {
    let current = vec![judged("a.jpg", "_cat")];
    let fresh = vec![failed("a.jpg", "timeout")];
    let merged = ImageEvaluationsComponent::merge_evaluations(&current, &fresh);
    assert_eq!(merged, vec![failed("a.jpg", "timeout")]);
}

#[test]
fn merge_keeps_one_record_per_name_of_a_ledger_with_duplicates() {
    let current = vec![judged("a.jpg", "_1"), judged("b.jpg", "_1"), judged("a.jpg", "_2")];
    let merged = ImageEvaluationsComponent::merge_evaluations(&current, &Vec::new());
    assert_eq!(merged, vec![judged("a.jpg", "_2"), judged("b.jpg", "_1")]);
}

#[test]
fn merge_of_nothing_into_nothing_is_empty() {
    let merged = ImageEvaluationsComponent::merge_evaluations(&Vec::new(), &Vec::new());
    assert!(merged.is_empty());
}

#[test]
fn select_images_keeps_requested_names_in_listing_order() {
    let all = vec![
        pair("/s/images/a.jpg", "a.jpg"),
        pair("/s/images/f/b.jpg", "f/b.jpg"),
        pair("/s/images/c.jpg", "c.jpg"),
    ];
    let selected =
        ImageEvaluationsComponent::select_images(&all, &request(&["c.jpg", "f/b.jpg", "zzz.jpg"]));
    assert_eq!(
        selected,
        Ok(vec![pair("/s/images/f/b.jpg", "f/b.jpg"), pair("/s/images/c.jpg", "c.jpg")])
    );
}

#[test]
fn select_images_matches_relative_names_not_file_names() {
    let all = vec![pair("/s/images/f/b.jpg", "f/b.jpg")];
    let selected = ImageEvaluationsComponent::select_images(&all, &request(&["b.jpg"]));
    assert_eq!(
        selected,
        Err(String::from("No matching images found in project. Requested: [\"b.jpg\"]"))
    );
}

#[test]
fn select_images_fails_naming_the_requested_set() {
    let all = vec![pair("/s/images/a.jpg", "a.jpg")];
    let selected =
        ImageEvaluationsComponent::select_images(&all, &request(&["x.jpg", "y \"z\".jpg"]));
    assert_eq!(
        selected,
        Err(String::from(
            "No matching images found in project. Requested: [\"x.jpg\", \"y \\\"z\\\".jpg\"]"
        ))
    );
}

#[test]
fn select_images_of_empty_request_fails() {
    let all = vec![pair("/s/images/a.jpg", "a.jpg")];
    let selected = ImageEvaluationsComponent::select_images(&all, &request(&[]));
    assert_eq!(
        selected,
        Err(String::from("No matching images found in project. Requested: []"))
    );
}

#[test]
fn evaluate_images_records_outcomes_under_relative_names() {
    let selected = vec![pair("/s/images/f/b.jpg", "f/b.jpg"), pair("/s/images/a.jpg", "a.jpg")];
    let current = vec![judged("a.jpg", "_old"), judged("k.jpg", "_kept")];
    let results = vec![outcome("/s/images/a.jpg", "_new"), outcome("/s/images/f/b.jpg", "_b")];
    let merged = ImageEvaluationsComponent::evaluate_images(&current, &selected, &results);
    let expected = vec![
        ImageEvaluation {
            image_name: String::from("a.jpg"),
            result: outcome("/s/images/a.jpg", "_new").success_result,
            fail_reason: None,
        },
        judged("k.jpg", "_kept"),
        ImageEvaluation {
            image_name: String::from("f/b.jpg"),
            result: outcome("/s/images/f/b.jpg", "_b").success_result,
            fail_reason: None,
        },
    ];
    assert_eq!(merged, Ok(expected));
}

#[test]
fn evaluate_images_records_failures_with_their_reason() {
    let selected = vec![pair("/s/images/a.jpg", "a.jpg")];
    let results = vec![EvaluationOutcome {
        full_image_path: String::from("/s/images/a.jpg"),
        success_result: None,
        failure_result: Some(String::from("rate limited")),
    }];
    let merged = ImageEvaluationsComponent::evaluate_images(&Vec::new(), &selected, &results);
    assert_eq!(merged, Ok(vec![failed("a.jpg", "rate limited")]));
}

#[test]
fn evaluate_images_falls_back_to_the_file_name_of_an_unselected_path() {
    let selected = vec![pair("/s/images/a.jpg", "a.jpg")];
    let results = vec![outcome("/elsewhere/deep/z.png", "_z")];
    let merged = ImageEvaluationsComponent::evaluate_images(&Vec::new(), &selected, &results);
    assert_eq!(
        merged,
        Ok(vec![ImageEvaluation {
            image_name: String::from("z.png"),
            result: outcome("/elsewhere/deep/z.png", "_z").success_result,
            fail_reason: None,
        }])
    );
}

#[test]
fn evaluate_images_takes_the_last_selected_pair_of_a_path() {
    let selected = vec![pair("/s/images/a.jpg", "first.jpg"), pair("/s/images/a.jpg", "last.jpg")];
    let results = vec![outcome("/s/images/a.jpg", "_x")];
    let merged = ImageEvaluationsComponent::evaluate_images(&Vec::new(), &selected, &results);
    assert_eq!(merged.unwrap()[0].image_name, "last.jpg");
}

#[test]
fn evaluate_images_rejects_an_outcome_without_any_name() {
    let selected = vec![pair("/s/images/a.jpg", "a.jpg")];
    let current = vec![judged("a.jpg", "_old")];
    let results = vec![outcome("/s/images/a.jpg", "_new"), outcome("/", "_root")];
    let merged = ImageEvaluationsComponent::evaluate_images(&current, &selected, &results);
    assert_eq!(merged, Err(String::from("Invalid file path: /")));
}

#[test]
fn evaluate_images_with_no_outcome_returns_the_ledger() {
    let current = vec![judged("a.jpg", "_old")];
    let merged = ImageEvaluationsComponent::evaluate_images(&current, &Vec::new(), &Vec::new());
    assert_eq!(merged, Ok(current));
}

#[test]
fn ledger_without_a_file_reads_as_empty() {
    assert!(ImageEvaluationsComponent::read_images_eval_json(None).is_empty());
}

#[test]
fn ledger_with_a_file_reads_as_stored() {
    let stored = vec![judged("a.jpg", "_x"), failed("b.jpg", "no")];
    assert_eq!(
        ImageEvaluationsComponent::read_images_eval_json(Some(stored)),
        vec![judged("a.jpg", "_x"), failed("b.jpg", "no")]
    );
}

#[test]
fn renaming_a_folder_rekeys_only_its_images() {
    let ledger = vec![judged("f1/photo.jpg", "_p"), judged("other.jpg", "_o"), failed("f3/x.jpg", "n")];
    let renames = vec![pair("f1/photo.jpg", "f2/photo.jpg")];
    let after = ImageEvaluationsComponent::rename_evaluations(&ledger, &renames);
    let mut moved = judged("f1/photo.jpg", "_p");
    moved.image_name = String::from("f2/photo.jpg");
    assert_eq!(after, vec![moved, judged("other.jpg", "_o"), failed("f3/x.jpg", "n")]);
}

#[test]
fn rename_applies_the_first_matching_pair_once() {
    let ledger = vec![failed("a.jpg", "r"), failed("b.jpg", "r")];
    let renames = vec![pair("a.jpg", "b.jpg"), pair("b.jpg", "c.jpg"), pair("a.jpg", "z.jpg")];
    let after = ImageEvaluationsComponent::rename_evaluations(&ledger, &renames);
    assert_eq!(after, vec![failed("b.jpg", "r"), failed("c.jpg", "r")]);
}

#[test]
fn rename_with_no_pairs_changes_nothing() {
    let ledger = vec![failed("a.jpg", "r")];
    let after = ImageEvaluationsComponent::rename_evaluations(&ledger, &Vec::new());
    assert_eq!(after, ledger);
}

#[test]
fn renames_for_move_pass_over_unchanged_names() {
    let old_names = names(&["a.jpg", "f/b.jpg", "c.jpg"]);
    let new_names = names(&["f/a.jpg", "f/b.jpg", "f/c.jpg"]);
    let renames = ImageEvaluationsComponent::renames_for_move(&old_names, &new_names);
    assert_eq!(renames, vec![pair("a.jpg", "f/a.jpg"), pair("c.jpg", "f/c.jpg")]);
}

#[test]
fn renames_for_move_stop_at_the_shorter_list() {
    let old_names = names(&["a.jpg", "b.jpg"]);
    let new_names = names(&["f/a.jpg"]);
    let renames = ImageEvaluationsComponent::renames_for_move(&old_names, &new_names);
    assert_eq!(renames, vec![pair("a.jpg", "f/a.jpg")]);
    assert!(ImageEvaluationsComponent::renames_for_move(&Vec::new(), &new_names).is_empty());
}

#[test]
fn removing_drops_the_named_records_and_keeps_order() {
    let ledger = vec![judged("a.jpg", "_a"), judged("x.jpg", "_x"), failed("b.jpg", "r")];
    let kept =
        ImageEvaluationsComponent::remove_evaluations_for_images(&ledger, &names(&["x.jpg"]));
    assert_eq!(kept, vec![judged("a.jpg", "_a"), failed("b.jpg", "r")]);
}

#[test]
fn removing_nothing_leaves_the_ledger() {
    let ledger = vec![judged("a.jpg", "_a"), failed("b.jpg", "r")];
    let kept = ImageEvaluationsComponent::remove_evaluations_for_images(&ledger, &Vec::new());
    assert_eq!(kept, ledger);
}

#[test]
fn removing_an_unknown_name_leaves_the_ledger() {
    let ledger = vec![judged("a.jpg", "_a")];
    let kept =
        ImageEvaluationsComponent::remove_evaluations_for_images(&ledger, &names(&["nope.jpg"]));
    assert_eq!(kept, ledger);
}

#[test]
fn records_are_copied_field_by_field() {
    let record = judged("a.jpg", "_a");
    assert_eq!(record.clone(), record);
    let record = failed("b.jpg", "why");
    assert_eq!(record.clone(), record);
}

#[test]
fn renaming_a_folder_moves_the_records_of_its_files() {
    let ledger = vec![
        judged("f1/photo.jpg", "_p"),
        judged("photo.jpg", "_root"),
        failed("f1x/photo.jpg", "n"),
        judged("f1/second.png", "_s"),
    ];
    let renames =
        ImageEvaluationsComponent::renames_for_folder("f1", "f2", &names(&["photo.jpg", "second.png"]));
    assert_eq!(
        renames,
        vec![pair("f1/photo.jpg", "f2/photo.jpg"), pair("f1/second.png", "f2/second.png")]
    );
    let after = ImageEvaluationsComponent::rename_evaluations(&ledger, &renames);
    let mut first = judged("f1/photo.jpg", "_p");
    first.image_name = String::from("f2/photo.jpg");
    let mut second = judged("f1/second.png", "_s");
    second.image_name = String::from("f2/second.png");
    assert_eq!(
        after,
        vec![first, judged("photo.jpg", "_root"), failed("f1x/photo.jpg", "n"), second]
    );
}

#[test]
fn renaming_an_empty_folder_needs_no_renames() {
    assert!(ImageEvaluationsComponent::renames_for_folder("f1", "f2", &Vec::new()).is_empty());
}

#[test]
fn deleting_an_image_removes_its_record_and_its_cache_entries() {
    let mut loader = ImageLoaderComponent::new();
    let cached = ImagePreviewModel {
        image_name: String::from("x.jpg"),
        base64_preview: String::from("X"),
        image_size_bytes: 1,
        width: 1,
        height: 1,
    };
    let file = (String::from("/s/projects/p/images/x.jpg"), String::from("x.jpg"));
    let stored = loader.get_image_previews_in_project(
        "p",
        &vec![file.clone()],
        &vec![Ok((cached.clone(), ImageLoaderComponent::cache_key("p", "x.jpg")))],
    );
    assert_eq!(stored, Ok(vec![cached]));
    assert!(loader.load_image_from_project("p", "x.jpg", &vec![1, 2, 3], 3).is_ok());
    let ledger = vec![judged("x.jpg", "_x"), judged("y.jpg", "_y")];

    let deleted = names(&["x.jpg"]);
    assert_eq!(loader.delete_images_from_project("p", &deleted, 1, None), Ok(()));
    let ledger = ImageEvaluationsComponent::remove_evaluations_for_images(&ledger, &deleted);

    assert!(loader.split_cached_previews("p", &vec![file]).cached.is_empty());
    assert_eq!(loader.cached_full_image("p", "x.jpg"), None);
    assert_eq!(ledger, vec![judged("y.jpg", "_y")]);
}
