//! What holds across the operations of the library, stated over the same
//! spec functions as their contracts and proved from them.

use vstd::prelude::*;
use crate::cache::prefixed_keys;
use crate::codec::{base64_text, jpeg_encoded, RawImage};
use crate::image_evaluations::{
    distinct_names, folder_renames, has_record, ledger_after, lemma_ledger_after,
    lemma_records_by_name_dom, records_by_name, renamed, renamed_record, without_names,
};
use crate::image_loader::{
    acceptable, accepted, cache_key_of, cached_previews, image_keys, keyed_by, lemma_key_decomposes,
    lemma_keyed_name, listed_name, plain_name, preview_entry_of, previews_keyed, previews_of,
    project_prefix_of, removed_names, served, stored, uncached_files,
};
use crate::models::{ImageEvaluationView, ImagePreviewModel};
use crate::preview::{
    generated_preview, lemma_thumbnail_size_bounded, preview_of, thumbnail_pixels, thumbnail_size,
};
use crate::text::lemma_same_prefix_same_rest;

verus! {

/// Two evaluations in a row: the ledger ends with one record per name, and
/// each name stands for its record from the second evaluation if it was
/// evaluated then, else for the one from the first if it was evaluated then,
/// else for the one it had before.
pub proof fn law_reevaluation_upserts(
    ledger: Seq<ImageEvaluationView>,
    first: Seq<ImageEvaluationView>,
    second: Seq<ImageEvaluationView>,
)
    ensures
        distinct_names(ledger_after(ledger_after(ledger, first), second)),
        records_by_name(ledger_after(ledger_after(ledger, first), second)) == records_by_name(
            ledger,
        ).union_prefer_right(records_by_name(first)).union_prefer_right(records_by_name(second)),
{
    lemma_ledger_after(ledger, first);
    lemma_ledger_after(ledger_after(ledger, first), second);
}

/// Evaluating the images A and B of an empty ledger and then B and C leaves
/// exactly three records: A as first evaluated, B and C as evaluated last.
pub proof fn law_reevaluation_of_overlapping_sets(
    a: ImageEvaluationView,
    b_old: ImageEvaluationView,
    b_new: ImageEvaluationView,
    c: ImageEvaluationView,
)
    requires
        b_old.image_name == b_new.image_name,
        a.image_name != b_old.image_name,
        a.image_name != c.image_name,
        b_old.image_name != c.image_name,
    ensures
        ledger_after(ledger_after(Seq::empty(), seq![a, b_old]), seq![b_new, c]) == seq![
            a,
            b_new,
            c,
        ],
{
    let empty = Seq::<ImageEvaluationView>::empty();
    reveal_with_fuel(crate::image_evaluations::merged, 3);
    assert(seq![a, b_old].drop_last() =~= seq![a]);
    assert(seq![a].drop_last() =~= empty);
    assert(seq![b_new, c].drop_last() =~= seq![b_new]);
    assert(seq![b_new].drop_last() =~= empty);
    // The first evaluation.
    assert(!has_record(empty, a.image_name));
    assert(empty.push(a) =~= seq![a]);
    let only_a = seq![a];
    assert(!has_record(only_a, b_old.image_name)) by {
        if has_record(only_a, b_old.image_name) {
            let i = choose|i: int|
                0 <= i < only_a.len() && #[trigger] only_a[i].image_name == b_old.image_name;
            assert(only_a[i] == a);
        }
    }
    assert(seq![a].push(b_old) =~= seq![a, b_old]);
    let after_first = seq![a, b_old];
    assert(ledger_after(empty, seq![a, b_old]) == after_first);
    // Loading the ledger again keeps it as it is.
    assert(crate::image_evaluations::merged(empty, after_first) == after_first);
    // The second evaluation.
    assert(after_first[1].image_name == b_new.image_name);
    assert(has_record(after_first, b_new.image_name));
    let at = crate::image_evaluations::record_index(after_first, b_new.image_name);
    assert(at == 1) by {
        if at == 0 {
            assert(after_first[0] == a);
        }
    }
    assert(after_first.update(1, b_new) =~= seq![a, b_new]);
    let renewed = seq![a, b_new];
    assert(!has_record(renewed, c.image_name)) by {
        if has_record(renewed, c.image_name) {
            let i = choose|i: int|
                0 <= i < renewed.len() && #[trigger] renewed[i].image_name == c.image_name;
            if i == 0 {
                assert(renewed[0] == a);
            } else {
                assert(renewed[1] == b_new);
            }
        }
    }
    assert(seq![a, b_new].push(c) =~= seq![a, b_new, c]);
}

/// A rename reaches a record only through its own name: a record whose name
/// is the old name of no pair is left as it is.
pub proof fn law_rename_leaves_other_names(
    renames: Seq<(Seq<char>, Seq<char>)>,
    eval: ImageEvaluationView,
)
    requires
        forall|i: int| 0 <= i < renames.len() ==> (#[trigger] renames[i]).0 != eval.image_name,
    ensures
        renamed_record(renames, eval) == eval,
    decreases renames.len(),
{
    lemma_renamed_untouched(renames, eval.image_name);
}

proof fn lemma_renamed_untouched(renames: Seq<(Seq<char>, Seq<char>)>, name: Seq<char>)
    requires
        forall|i: int| 0 <= i < renames.len() ==> (#[trigger] renames[i]).0 != name,
    ensures
        renamed(renames, name) == name,
    decreases renames.len(),
{
    if renames.len() > 0 {
        assert(renames.first() == renames[0]);
        assert forall|i: int| 0 <= i < renames.drop_first().len() implies (
        #[trigger] renames.drop_first()[i]).0 != name by {
            assert(renames.drop_first()[i] == renames[i + 1]);
        }
        lemma_renamed_untouched(renames.drop_first(), name);
    }
}

/// Renaming one image, or one file of a renamed folder, moves the record of
/// the old name to the new name and changes nothing else in it; a record of
/// any other name is left as it is.
pub proof fn law_rename_moves_one_name(
    old_name: Seq<char>,
    new_name: Seq<char>,
    eval: ImageEvaluationView,
)
    ensures
        renamed_record(seq![(old_name, new_name)], eval) == (if eval.image_name == old_name {
            ImageEvaluationView {
                image_name: new_name,
                result: eval.result,
                fail_reason: eval.fail_reason,
            }
        } else {
            eval
        }),
{
    let renames = seq![(old_name, new_name)];
    reveal_with_fuel(renamed, 2);
    assert(renames.first() == (old_name, new_name));
    assert(renames.drop_first().len() == 0);
}

/// After the images of `names` were deleted, none of them has a cached
/// entry or a record in the ledger; entries and records of other images are
/// as before.
pub proof fn law_deletion_cleans_up<V>(
    cache: Map<Seq<char>, V>,
    ledger: Seq<ImageEvaluationView>,
    project: Seq<char>,
    names: Seq<Seq<char>>,
    i: int,
)
    requires
        0 <= i < names.len(),
    ensures
        !cache.remove_keys(image_keys(project, names)).contains_key(
            cache_key_of(project, names[i]),
        ),
        !has_record(without_names(ledger, names), names[i]),
        !records_by_name(without_names(ledger, names)).contains_key(names[i]),
        forall|key: Seq<char>|
            cache.contains_key(key) && !image_keys(project, names).contains(key) ==> cache.remove_keys(
                image_keys(project, names),
            ).contains_key(key) && cache.remove_keys(image_keys(project, names))[key] == cache[key],
{
    assert(image_keys(project, names).contains(cache_key_of(project, names[i])));
    let kept = without_names(ledger, names);
    if has_record(kept, names[i]) {
        let j = choose|j: int| 0 <= j < kept.len() && #[trigger] kept[j].image_name == names[i];
        let keep = |eval: ImageEvaluationView| !names.contains(eval.image_name);
        ledger.lemma_filter_pred(keep, j);
        assert(names.contains(names[i]));
    }
    lemma_records_by_name_dom(kept, names[i]);
}

/// A record that is not deleted stays in the ledger.
pub proof fn law_deletion_keeps_other_records(
    ledger: Seq<ImageEvaluationView>,
    names: Seq<Seq<char>>,
    j: int,
)
    requires
        0 <= j < ledger.len(),
        !names.contains(ledger[j].image_name),
    ensures
        without_names(ledger, names).contains(ledger[j]),
{
    let keep = |eval: ImageEvaluationView| !names.contains(eval.image_name);
    ledger.lemma_filter_contains(keep, j);
}

/// The longer side of a preview is never over 200 pixels: a preview that was
/// generated is the JPEG of an image of `thumbnail_size`, and neither side of
/// that size is over 200. The preview of an image with no side over 200 is
/// that image itself, encoded once and not resampled.
pub proof fn law_thumbnail_bound(image: RawImage)
    ensures
        thumbnail_size(image.width, image.height).0 <= 200,
        thumbnail_size(image.width, image.height).1 <= 200,
        preview_of(image) is Ok ==> {
            &&& thumbnail_pixels(image) is Ok
            &&& jpeg_encoded(
                thumbnail_pixels(image)->Ok_0,
                thumbnail_size(image.width, image.height).0,
                thumbnail_size(image.width, image.height).1,
                70,
            ) is Ok
            &&& (preview_of(image)->Ok_0).0 == base64_text(
                jpeg_encoded(
                    thumbnail_pixels(image)->Ok_0,
                    thumbnail_size(image.width, image.height).0,
                    thumbnail_size(image.width, image.height).1,
                    70,
                )->Ok_0,
            )
        },
        image.width <= 200 && image.height <= 200 ==> {
            &&& thumbnail_size(image.width, image.height) == (image.width, image.height)
            &&& thumbnail_pixels(image) == Ok::<Seq<u8>, Seq<char>>(image.pixels)
            &&& preview_of(image) == (match jpeg_encoded(
                image.pixels,
                image.width,
                image.height,
                70,
            ) {
                Ok(jpeg) => Ok((base64_text(jpeg), image.width, image.height)),
                Err(message) => Err(message),
            })
        },
{
    lemma_thumbnail_size_bounded(image.width, image.height);
}

/// The key of an image starts with the prefix of its project.
pub proof fn lemma_key_has_project_prefix(project: Seq<char>, image: Seq<char>)
    ensures
        project_prefix_of(project).is_prefix_of(cache_key_of(project, image)),
        prefixed_keys(project_prefix_of(project)).contains(cache_key_of(project, image)),
{
    let prefix = project_prefix_of(project);
    let key = cache_key_of(project, image);
    assert(key.subrange(0, prefix.len() as int) =~= prefix);
}

/// Within one project, different images have different keys.
pub proof fn lemma_keys_differ(project: Seq<char>, a: Seq<char>, b: Seq<char>)
    requires
        a != b,
    ensures
        cache_key_of(project, a) != cache_key_of(project, b),
{
    if cache_key_of(project, a) == cache_key_of(project, b) {
        lemma_same_prefix_same_rest(project + "/"@, a, b);
    }
}

/// Forgetting what is cached for a project changes no preview, only the work
/// to get it: the preview of an unchanged file is gone from the cache after
/// the project was cleared, and the next listing, which generates it again
/// from the same file, gives back and caches an entry that stands for the
/// same value as the one that was cached.
pub proof fn law_invalidation_keeps_previews(
    previews: Map<Seq<char>, ImagePreviewModel>,
    project: Seq<char>,
    files: Seq<(Seq<char>, Seq<char>)>,
    image_name: Seq<char>,
    path: Seq<char>,
    bytes: Seq<u8>,
    size_bytes: u64,
    accelerated: Option<RawImage>,
    fresh: (ImagePreviewModel, String),
)
    requires
        listed_name(files, image_name),
        generated_preview(path, bytes, accelerated) is Ok,
        previews.contains_key(cache_key_of(project, image_name)),
        previews[cache_key_of(project, image_name)]@ == preview_entry_of(
            image_name,
            size_bytes,
            generated_preview(path, bytes, accelerated)->Ok_0,
        ),
        fresh.0@ == preview_entry_of(
            image_name,
            size_bytes,
            generated_preview(path, bytes, accelerated)->Ok_0,
        ),
        fresh.1@ == cache_key_of(project, image_name),
    ensures
        !previews.remove_keys(prefixed_keys(project_prefix_of(project))).contains_key(
            cache_key_of(project, image_name),
        ),
        listing_of(
            previews.remove_keys(prefixed_keys(project_prefix_of(project))),
            project,
            files,
            seq![Ok(fresh)],
        ).last() == fresh.0,
        cache_after_listing(
            previews.remove_keys(prefixed_keys(project_prefix_of(project))),
            project,
            files,
            seq![Ok(fresh)],
        )[cache_key_of(project, image_name)]@ == previews[cache_key_of(project, image_name)]@,
{
    lemma_key_has_project_prefix(project, image_name);
    let cleared = previews.remove_keys(prefixed_keys(project_prefix_of(project)));
    let one = seq![Ok::<(ImagePreviewModel, String), String>(fresh)];
    reveal_with_fuel(accepted, 2);
    reveal_with_fuel(stored, 2);
    assert(one.drop_last().len() == 0);
    assert(one.last() == Ok::<(ImagePreviewModel, String), String>(fresh));
    let none = Seq::<(ImagePreviewModel, String)>::empty();
    assert(accepted(cleared, project, files, one.drop_last()) == none);
    assert(stored(cleared, none) == cleared);
    assert(acceptable(cleared, project, files, fresh));
    let taken = accepted(cleared, project, files, one);
    assert(taken == none.push(fresh));
    assert(taken.drop_last() =~= none);
    assert(taken.last() == fresh);
    assert(previews_of(taken).last() == fresh.0);
}

/// Renaming the folder `old_folder` to `new_folder` moves the record of each
/// of its files from `<old_folder>/<file>` to `<new_folder>/<file>`.
pub proof fn law_folder_rename_moves_its_files(
    old_folder: Seq<char>,
    new_folder: Seq<char>,
    file_names: Seq<Seq<char>>,
    i: int,
)
    requires
        0 <= i < file_names.len(),
        forall|a: int, b: int| 0 <= a < b < file_names.len() ==> file_names[a] != file_names[b],
    ensures
        renamed(folder_renames(old_folder, new_folder, file_names), old_folder + "/"@ + file_names[i])
            == new_folder + "/"@ + file_names[i],
{
    let renames = folder_renames(old_folder, new_folder, file_names);
    assert forall|j: int| 0 <= j < i implies (#[trigger] renames[j]).0 != renames[i].0 by {
        if renames[j].0 == renames[i].0 {
            lemma_same_prefix_same_rest(old_folder + "/"@, file_names[j], file_names[i]);
        }
    }
    lemma_renamed_first_match(renames, renames[i].0, i);
}

/// Renaming a folder leaves the record of every image alone that does not
/// lie in the folder under its old name.
pub proof fn law_folder_rename_leaves_other_images(
    old_folder: Seq<char>,
    new_folder: Seq<char>,
    file_names: Seq<Seq<char>>,
    eval: ImageEvaluationView,
)
    requires
        forall|i: int|
            0 <= i < file_names.len() ==> eval.image_name != old_folder + "/"@
                + #[trigger] file_names[i],
    ensures
        renamed_record(folder_renames(old_folder, new_folder, file_names), eval) == eval,
{
    let renames = folder_renames(old_folder, new_folder, file_names);
    assert forall|i: int| 0 <= i < renames.len() implies (#[trigger] renames[i]).0
        != eval.image_name by {
        assert(renames[i].0 == old_folder + "/"@ + file_names[i]);
    }
    law_rename_leaves_other_names(renames, eval);
}

proof fn lemma_renamed_first_match(renames: Seq<(Seq<char>, Seq<char>)>, name: Seq<char>, i: int)
    requires
        0 <= i < renames.len(),
        renames[i].0 == name,
        forall|j: int| 0 <= j < i ==> (#[trigger] renames[j]).0 != name,
    ensures
        renamed(renames, name) == renames[i].1,
    decreases i,
{
    assert(renames.first() == renames[0]);
    if i > 0 {
        let rest = renames.drop_first();
        assert(rest[i - 1] == renames[i]);
        assert forall|j: int| 0 <= j < i - 1 implies (#[trigger] rest[j]).0 != name by {
            assert(rest[j] == renames[j + 1]);
        }
        lemma_renamed_first_match(rest, name, i - 1);
    }
}

/// Keys tell projects and images apart as long as no project name holds a
/// `/`: two keys are the same only for the same project and the same image.
pub proof fn law_keys_are_unique(
    project: Seq<char>,
    image: Seq<char>,
    other_project: Seq<char>,
    other_image: Seq<char>,
)
    requires
        plain_name(project),
        plain_name(other_project),
        cache_key_of(project, image) == cache_key_of(other_project, other_image),
    ensures
        project == other_project,
        image == other_image,
{
    lemma_key_decomposes(project, image, other_project, other_image);
}

/// Clearing one project never reaches another: where no project name holds a
/// `/`, no key of a different project starts with the cleared project's
/// prefix, so every entry of that other project stays as it is.
pub proof fn law_clearing_spares_other_projects<V>(
    cache: Map<Seq<char>, V>,
    cleared: Seq<char>,
    project: Seq<char>,
    image: Seq<char>,
)
    requires
        plain_name(cleared),
        plain_name(project),
        cleared != project,
        cache.contains_key(cache_key_of(project, image)),
    ensures
        !project_prefix_of(cleared).is_prefix_of(cache_key_of(project, image)),
        cache.remove_keys(prefixed_keys(project_prefix_of(cleared))).contains_key(
            cache_key_of(project, image),
        ),
        cache.remove_keys(prefixed_keys(project_prefix_of(cleared)))[cache_key_of(project, image)]
            == cache[cache_key_of(project, image)],
{
    reveal_strlit("/");
    let prefix = project_prefix_of(cleared);
    let key = cache_key_of(project, image);
    if prefix.is_prefix_of(key) {
        assert(prefix == key.subrange(0, prefix.len() as int));
        assert(key[project.len() as int] == '/');
        assert(prefix[cleared.len() as int] == '/');
        if cleared.len() < project.len() {
            assert(key[cleared.len() as int] == prefix[cleared.len() as int]);
            assert(key[cleared.len() as int] == project[cleared.len() as int]);
        } else if project.len() < cleared.len() {
            assert(key[project.len() as int] == prefix[project.len() as int]);
            assert(prefix[project.len() as int] == cleared[project.len() as int]);
        } else {
            assert forall|i: int| 0 <= i < cleared.len() implies cleared[i] == project[i] by {
                assert(prefix[i] == key[i]);
            }
            assert(cleared =~= project);
        }
    }
}

/// Clearing a project never leaves an entry of it behind: whatever the image,
/// its key is gone afterwards.
pub proof fn law_clearing_reaches_every_image<V>(
    cache: Map<Seq<char>, V>,
    project: Seq<char>,
    image: Seq<char>,
)
    ensures
        !cache.remove_keys(prefixed_keys(project_prefix_of(project))).contains_key(
            cache_key_of(project, image),
        ),
{
    lemma_key_has_project_prefix(project, image);
}

/// Removing records keeps the ledger at one record per name.
pub proof fn law_removal_keeps_names_apart(ledger: Seq<ImageEvaluationView>, names: Seq<Seq<char>>)
    requires
        distinct_names(ledger),
    ensures
        distinct_names(without_names(ledger, names)),
    decreases ledger.len(),
{
    reveal(Seq::filter);
    let keep = |eval: ImageEvaluationView| !names.contains(eval.image_name);
    if ledger.len() > 0 {
        let rest = ledger.drop_last();
        assert forall|i: int, j: int| 0 <= i < j < rest.len() implies rest[i].image_name
            != rest[j].image_name by {
            assert(rest[i] == ledger[i]);
            assert(rest[j] == ledger[j]);
        }
        law_removal_keeps_names_apart(rest, names);
        let kept = without_names(rest, names);
        if keep(ledger.last()) {
            assert forall|i: int| 0 <= i < kept.len() implies kept[i].image_name
                != ledger.last().image_name by {
                rest.lemma_filter_contains_rev(keep, kept[i]);
                let at = choose|at: int| 0 <= at < rest.len() && rest[at] == kept[i];
                assert(ledger[at] == rest[at]);
                assert(ledger[at].image_name != ledger[ledger.len() - 1].image_name);
            }
        }
    }
}

/// What a listing gives back: the cached previews of the listed files, then
/// the generated previews that are taken into the cache.
pub open spec fn listing_of(
    previews: Map<Seq<char>, ImagePreviewModel>,
    project: Seq<char>,
    files: Seq<(Seq<char>, Seq<char>)>,
    generated: Seq<Result<(ImagePreviewModel, String), String>>,
) -> Seq<ImagePreviewModel> {
    cached_previews(previews, project, files) + previews_of(
        accepted(previews, project, files, generated),
    )
}

/// What is cached after a listing.
pub open spec fn cache_after_listing(
    previews: Map<Seq<char>, ImagePreviewModel>,
    project: Seq<char>,
    files: Seq<(Seq<char>, Seq<char>)>,
    generated: Seq<Result<(ImagePreviewModel, String), String>>,
) -> Map<Seq<char>, ImagePreviewModel> {
    stored(previews, accepted(previews, project, files, generated))
}

/// Whether `preview` is what `previews` holds for the file at `j`.
pub open spec fn holds_for_file(
    previews: Map<Seq<char>, ImagePreviewModel>,
    project: Seq<char>,
    files: Seq<(Seq<char>, Seq<char>)>,
    j: int,
    preview: ImagePreviewModel,
) -> bool {
    &&& 0 <= j < files.len()
    &&& previews.contains_key(cache_key_of(project, files[j].1))
    &&& previews[cache_key_of(project, files[j].1)] == preview
}

/// Whether `preview` is what `previews` holds for one of the files.
pub open spec fn held_for_a_file(
    previews: Map<Seq<char>, ImagePreviewModel>,
    project: Seq<char>,
    files: Seq<(Seq<char>, Seq<char>)>,
    preview: ImagePreviewModel,
) -> bool {
    exists|j: int| #[trigger] holds_for_file(previews, project, files, j, preview)
}

/// The cached previews of a listing are the entries under the keys of the
/// listed files that have one.
proof fn lemma_cached_previews(
    previews: Map<Seq<char>, ImagePreviewModel>,
    project: Seq<char>,
    files: Seq<(Seq<char>, Seq<char>)>,
)
    requires
        plain_name(project),
    ensures
        forall|j: int|
            0 <= j < files.len() && previews.contains_key(
                cache_key_of(project, (#[trigger] files[j]).1),
            ) ==> cached_previews(previews, project, files).contains(
                previews[cache_key_of(project, files[j].1)],
            ),
        forall|m: int|
            0 <= m < cached_previews(previews, project, files).len() ==> held_for_a_file(
                previews,
                project,
                files,
                #[trigger] cached_previews(previews, project, files)[m],
            ),
{
    let hit = |file: (Seq<char>, Seq<char>)| previews.contains_key(cache_key_of(project, file.1));
    let hits = files.filter(hit);
    let served_now = cached_previews(previews, project, files);
    assert forall|j: int|
        0 <= j < files.len() && previews.contains_key(
            cache_key_of(project, (#[trigger] files[j]).1),
        ) implies served_now.contains(previews[cache_key_of(project, files[j].1)]) by {
        files.lemma_filter_contains(hit, j);
        let m = choose|m: int| 0 <= m < hits.len() && hits[m] == files[j];
        assert(served_now[m] == previews[cache_key_of(project, files[j].1)]);
    }
    assert forall|m: int| 0 <= m < served_now.len() implies held_for_a_file(
        previews,
        project,
        files,
        #[trigger] served_now[m],
    ) by {
        files.lemma_filter_pred(hit, m);
        assert(hits.contains(hits[m]));
        files.lemma_filter_contains_rev(hit, hits[m]);
        let j = choose|j: int| 0 <= j < files.len() && files[j] == hits[m];
        assert(previews[cache_key_of(project, files[j].1)] == served_now[m]);
        assert(holds_for_file(previews, project, files, j, served_now[m]));
    }
}

/// What holds of every listing: each preview that comes back belongs to a
/// listed file and is cached under the key of its own name afterwards;
/// nothing that was cached before is changed; nothing else is cached; and
/// every entry still lies under the key of its own name.
pub proof fn law_listing_caches_what_it_returns(
    previews: Map<Seq<char>, ImagePreviewModel>,
    project: Seq<char>,
    files: Seq<(Seq<char>, Seq<char>)>,
    generated: Seq<Result<(ImagePreviewModel, String), String>>,
)
    requires
        plain_name(project),
        previews_keyed(previews),
    ensures
        previews_keyed(cache_after_listing(previews, project, files, generated)),
        forall|i: int|
            0 <= i < listing_of(previews, project, files, generated).len() ==> served(
                cache_after_listing(previews, project, files, generated),
                project,
                files,
                #[trigger] listing_of(previews, project, files, generated)[i],
            ),
        forall|key: Seq<char>| #[trigger]
            previews.contains_key(key) ==> cache_after_listing(
                previews,
                project,
                files,
                generated,
            ).contains_key(key) && cache_after_listing(previews, project, files, generated)[key]
                == previews[key],
        forall|key: Seq<char>| #[trigger]
            cache_after_listing(previews, project, files, generated).contains_key(key)
                ==> previews.contains_key(key) || exists|i: int|
                0 <= i < listing_of(previews, project, files, generated).len() && key
                    == cache_key_of(
                    project,
                    (#[trigger] listing_of(previews, project, files, generated)[i]).image_name@,
                ),
    decreases generated.len(),
{
    let after = cache_after_listing(previews, project, files, generated);
    let all = listing_of(previews, project, files, generated);
    let from_cache = cached_previews(previews, project, files);
    if generated.len() == 0 {
        assert(all =~= from_cache);
        lemma_cached_previews(previews, project, files);
        assert forall|i: int| 0 <= i < all.len() implies served(
            after,
            project,
            files,
            #[trigger] all[i],
        ) by {
            assert(held_for_a_file(previews, project, files, from_cache[i]));
            let j = choose|j: int| #[trigger]
                holds_for_file(previews, project, files, j, from_cache[i]);
            assert(files[j].1 == files[j].1);
            lemma_keyed_name(project, files[j].1, all[i].image_name@);
        }
    } else {
        let earlier = generated.drop_last();
        let taken = accepted(previews, project, files, earlier);
        let held = cache_after_listing(previews, project, files, earlier);
        let listed = listing_of(previews, project, files, earlier);
        law_listing_caches_what_it_returns(previews, project, files, earlier);
        match generated.last() {
            Ok(entry) => {
                if acceptable(held, project, files, entry) {
                    assert(taken.push(entry).drop_last() =~= taken);
                    assert(previews_of(taken.push(entry)) =~= previews_of(taken).push(entry.0));
                    assert(all =~= listed.push(entry.0));
                    assert(after == held.insert(entry.1@, entry.0));
                    assert(keyed_by(entry.1@, entry.0.image_name@));
                    assert forall|i: int| 0 <= i < all.len() implies served(
                        after,
                        project,
                        files,
                        #[trigger] all[i],
                    ) by {
                        if i < listed.len() {
                            assert(all[i] == listed[i]);
                            assert(served(held, project, files, listed[i]));
                        }
                    }
                    assert forall|key: Seq<char>| #[trigger]
                        after.contains_key(key) implies previews.contains_key(key) || exists|
                        i: int,
                    |
                        0 <= i < all.len() && key == cache_key_of(
                            project,
                            (#[trigger] all[i]).image_name@,
                        ) by {
                        if key == entry.1@ {
                            assert(all[listed.len() as int] == entry.0);
                        } else if !previews.contains_key(key) {
                            assert(held.contains_key(key));
                            let i = choose|i: int|
                                0 <= i < listed.len() && key == cache_key_of(
                                    project,
                                    (#[trigger] listed[i]).image_name@,
                                );
                            assert(all[i] == listed[i]);
                        }
                    }
                } else {
                    assert(all =~= listed);
                }
            },
            Err(_) => {
                assert(all =~= listed);
            },
        }
    }
}

/// Listing the previews of a project a second time, with no change to its
/// files in between, gives the previews of the first listing again, out of
/// the cache: every preview that the first listing gave back is served from
/// the cache by the second, the second serves no other preview from the
/// cache, and no file whose preview the first listing gave back has to be
/// decoded again.
pub proof fn law_second_listing_repeats_the_first(
    previews: Map<Seq<char>, ImagePreviewModel>,
    project: Seq<char>,
    files: Seq<(Seq<char>, Seq<char>)>,
    generated: Seq<Result<(ImagePreviewModel, String), String>>,
)
    requires
        plain_name(project),
        previews_keyed(previews),
    ensures
        forall|preview: ImagePreviewModel|
            listing_of(previews, project, files, generated).contains(preview)
                <==> #[trigger] cached_previews(
                cache_after_listing(previews, project, files, generated),
                project,
                files,
            ).contains(preview),
        forall|i: int, j: int|
            #![trigger listing_of(previews, project, files, generated)[i], files[j]]
            0 <= i < listing_of(previews, project, files, generated).len() && 0 <= j < files.len()
                && listing_of(previews, project, files, generated)[i].image_name@ == files[j].1
                ==> !uncached_files(
                cache_after_listing(previews, project, files, generated),
                project,
                files,
            ).contains(files[j]),
        listing_of(
            cache_after_listing(previews, project, files, generated),
            project,
            files,
            Seq::empty(),
        ) == cached_previews(
            cache_after_listing(previews, project, files, generated),
            project,
            files,
        ),
        cache_after_listing(
            cache_after_listing(previews, project, files, generated),
            project,
            files,
            Seq::empty(),
        ) == cache_after_listing(previews, project, files, generated),
{
    let after = cache_after_listing(previews, project, files, generated);
    let first = listing_of(previews, project, files, generated);
    let second = cached_previews(after, project, files);
    law_listing_caches_what_it_returns(previews, project, files, generated);
    lemma_cached_previews(after, project, files);
    lemma_cached_previews(previews, project, files);
    assert forall|preview: ImagePreviewModel| first.contains(preview) implies second.contains(
        preview,
    ) by {
        let i = choose|i: int| 0 <= i < first.len() && first[i] == preview;
        assert(served(after, project, files, first[i]));
        let j = choose|j: int| 0 <= j < files.len() && (#[trigger] files[j]).1 == preview.image_name@;
        assert(after.contains_key(cache_key_of(project, files[j].1)));
    }
    assert forall|preview: ImagePreviewModel| second.contains(preview) implies first.contains(
        preview,
    ) by {
        let m = choose|m: int| 0 <= m < second.len() && second[m] == preview;
        assert(held_for_a_file(after, project, files, second[m]));
        let j = choose|j: int| #[trigger] holds_for_file(after, project, files, j, second[m]);
        let key = cache_key_of(project, files[j].1);
        if previews.contains_key(key) {
            assert(after[key] == previews[key]);
            assert(cached_previews(previews, project, files).contains(previews[key]));
            let at = choose|at: int|
                0 <= at < cached_previews(previews, project, files).len() && cached_previews(
                    previews,
                    project,
                    files,
                )[at] == previews[key];
            assert(first[at] == preview);
        } else {
            let i = choose|i: int|
                0 <= i < first.len() && key == cache_key_of(
                    project,
                    (#[trigger] first[i]).image_name@,
                );
            assert(served(after, project, files, first[i]));
        }
    }
    assert forall|i: int, j: int|
        #![trigger first[i], files[j]]
        0 <= i < first.len() && 0 <= j < files.len() && first[i].image_name@
            == files[j].1 implies !uncached_files(after, project, files).contains(files[j]) by {
        assert(served(after, project, files, first[i]));
        let pending = |file: (Seq<char>, Seq<char>)|
            !after.contains_key(cache_key_of(project, file.1));
        if files.filter(pending).contains(files[j]) {
            let m = choose|m: int|
                0 <= m < files.filter(pending).len() && files.filter(pending)[m] == files[j];
            files.lemma_filter_pred(pending, m);
        }
    }
    assert(previews_of(Seq::<(ImagePreviewModel, String)>::empty()) =~= Seq::<
        ImagePreviewModel,
    >::empty());
    assert(listing_of(after, project, files, Seq::empty()) =~= second);
}

/// A deletion reaches the cache entries of exactly the images whose files
/// were removed: the entry of each of them is gone, and every other entry,
/// that of the image that could not be removed and of the images after it
/// as well, stays as it is.
pub proof fn law_deletion_reaches_the_removed_images<V>(
    cache: Map<Seq<char>, V>,
    project: Seq<char>,
    names: Seq<Seq<char>>,
    removed: usize,
    i: int,
)
    requires
        0 <= i < names.len(),
    ensures
        i < removed ==> !cache.remove_keys(
            image_keys(project, removed_names(names, removed)),
        ).contains_key(cache_key_of(project, names[i])),
        i >= removed && cache.contains_key(cache_key_of(project, names[i])) && (forall|j: int|
            0 <= j < removed && j < names.len() ==> names[j] != names[i]) ==> cache.remove_keys(
            image_keys(project, removed_names(names, removed)),
        ).contains_key(cache_key_of(project, names[i])) && cache.remove_keys(
            image_keys(project, removed_names(names, removed)),
        )[cache_key_of(project, names[i])] == cache[cache_key_of(project, names[i])],
{
    let gone = removed_names(names, removed);
    if i < removed {
        assert(gone[i] == names[i]);
        assert(image_keys(project, gone).contains(cache_key_of(project, names[i])));
    } else {
        if image_keys(project, gone).contains(cache_key_of(project, names[i])) {
            let j = choose|j: int|
                0 <= j < gone.len() && cache_key_of(project, names[i]) == cache_key_of(
                    project,
                    #[trigger] gone[j],
                );
            assert(gone[j] == names[j]);
            lemma_same_prefix_same_rest(project + "/"@, names[i], names[j]);
        }
    }
}

/// No two files of a listing carry the same relative name.
pub open spec fn distinct_files(files: Seq<(Seq<char>, Seq<char>)>) -> bool {
    forall|a: int, b: int| 0 <= a < b < files.len() ==> files[a].1 != files[b].1
}

proof fn lemma_filter_keeps_files_apart(
    files: Seq<(Seq<char>, Seq<char>)>,
    pred: spec_fn((Seq<char>, Seq<char>)) -> bool,
)
    requires
        distinct_files(files),
    ensures
        distinct_files(files.filter(pred)),
    decreases files.len(),
{
    reveal(Seq::filter);
    if files.len() > 0 {
        let rest = files.drop_last();
        assert forall|a: int, b: int| 0 <= a < b < rest.len() implies rest[a].1 != rest[b].1 by {
            assert(rest[a] == files[a]);
            assert(rest[b] == files[b]);
        }
        lemma_filter_keeps_files_apart(rest, pred);
        let kept = rest.filter(pred);
        if pred(files.last()) {
            assert forall|a: int| 0 <= a < kept.len() implies kept[a].1 != files.last().1 by {
                rest.lemma_filter_contains_rev(pred, kept[a]);
                let at = choose|at: int| 0 <= at < rest.len() && rest[at] == kept[a];
                assert(files[at] == rest[at]);
                assert(files[at].1 != files[files.len() - 1].1);
            }
        }
    }
}

/// A listing of files with different names gives back previews with
/// different names. Together with `law_second_listing_repeats_the_first`:
/// the second listing gives the previews of the first, each once.
pub proof fn law_listing_names_are_distinct(
    previews: Map<Seq<char>, ImagePreviewModel>,
    project: Seq<char>,
    files: Seq<(Seq<char>, Seq<char>)>,
    generated: Seq<Result<(ImagePreviewModel, String), String>>,
)
    requires
        plain_name(project),
        previews_keyed(previews),
        distinct_files(files),
    ensures
        forall|a: int, b: int|
            0 <= a < b < listing_of(previews, project, files, generated).len() ==> listing_of(
                previews,
                project,
                files,
                generated,
            )[a].image_name@ != listing_of(previews, project, files, generated)[b].image_name@,
    decreases generated.len(),
{
    let all = listing_of(previews, project, files, generated);
    let from_cache = cached_previews(previews, project, files);
    if generated.len() == 0 {
        let hit = |file: (Seq<char>, Seq<char>)|
            previews.contains_key(cache_key_of(project, file.1));
        let hits = files.filter(hit);
        assert(all =~= from_cache);
        lemma_filter_keeps_files_apart(files, hit);
        assert forall|a: int, b: int| 0 <= a < b < all.len() implies all[a].image_name@
            != all[b].image_name@ by {
            files.lemma_filter_pred(hit, a);
            files.lemma_filter_pred(hit, b);
            lemma_keyed_name(project, hits[a].1, all[a].image_name@);
            lemma_keyed_name(project, hits[b].1, all[b].image_name@);
        }
    } else {
        let earlier = generated.drop_last();
        let taken = accepted(previews, project, files, earlier);
        let held = cache_after_listing(previews, project, files, earlier);
        let listed = listing_of(previews, project, files, earlier);
        law_listing_names_are_distinct(previews, project, files, earlier);
        law_listing_caches_what_it_returns(previews, project, files, earlier);
        match generated.last() {
            Ok(entry) => {
                if acceptable(held, project, files, entry) {
                    assert(previews_of(taken.push(entry)) =~= previews_of(taken).push(entry.0));
                    assert(all =~= listed.push(entry.0));
                    assert forall|a: int, b: int| 0 <= a < b < all.len() implies all[a].image_name@
                        != all[b].image_name@ by {
                        if b == listed.len() {
                            assert(all[a] == listed[a]);
                            assert(served(held, project, files, listed[a]));
                        } else {
                            assert(all[a] == listed[a]);
                            assert(all[b] == listed[b]);
                        }
                    }
                } else {
                    assert(all =~= listed);
                }
            },
            Err(_) => {
                assert(all =~= listed);
            },
        }
    }
}

} // verus!
