//! The evaluation ledger of a project: one record per image name, merged by
//! name when new evaluations arrive, and kept in step with renames and
//! deletions of the images.
//!
//! The ledger itself lies in a file of the project. Reading and writing that
//! file, listing the image folder and talking to the evaluation service are
//! the caller's part; what the ledger holds afterwards is decided here.

use vstd::prelude::*;
use crate::models::{
    ImageEvaluation, ImageEvaluationResult, ImageEvaluationResultView, ImageEvaluationView,
    RequestImageEvaluation,
};
use crate::paths::{file_name_of, path_file_name};
use crate::text::{concat2, concat3, contains_name, names_of, pairs_of, str_eq};

verus! {

/// What the evaluation service reports about one file.
#[derive(Debug, PartialEq, Eq)]
pub struct EvaluationOutcome {
    /// The path under which the file was handed to the service.
    pub full_image_path: String,
    pub success_result: Option<ImageEvaluationResult>,
    pub failure_result: Option<String>,
}

/// What an outcome stands for.
pub struct EvaluationOutcomeView {
    pub full_image_path: Seq<char>,
    pub success_result: Option<ImageEvaluationResultView>,
    pub failure_result: Option<Seq<char>>,
}

impl View for EvaluationOutcome {
    type V = EvaluationOutcomeView;

    open spec fn view(&self) -> EvaluationOutcomeView {
        EvaluationOutcomeView {
            full_image_path: self.full_image_path@,
            success_result: match self.success_result {
                Some(result) => Some(result@),
                None => None,
            },
            failure_result: match self.failure_result {
                Some(reason) => Some(reason@),
                None => None,
            },
        }
    }
}

/// The records that a list of records stands for.
pub open spec fn views_of(evals: Seq<ImageEvaluation>) -> Seq<ImageEvaluationView> {
    evals.map_values(|eval: ImageEvaluation| eval@)
}

/// What a list of outcomes stands for.
pub open spec fn outcomes_of(outcomes: Seq<EvaluationOutcome>) -> Seq<EvaluationOutcomeView> {
    outcomes.map_values(|outcome: EvaluationOutcome| outcome@)
}

/// The text that `{:?}` gives for a list of strings.
pub uninterp spec fn debug_text(names: Seq<Seq<char>>) -> Seq<char>;

/// Formats `names` with `{:?}` through `format!`. Trusted: the text is a
/// function of the strings alone, named `debug_text`.
#[verifier::external_body]
fn debug_names(names: &Vec<String>) -> (text: String)
    ensures
        text@ == debug_text(names_of(names@)),
{
    format!("{:?}", names)
}

/// Whether a record in `evals` carries `name`.
pub open spec fn has_record(evals: Seq<ImageEvaluationView>, name: Seq<char>) -> bool {
    exists|i: int| 0 <= i < evals.len() && #[trigger] evals[i].image_name == name
}

/// No name has two records.
pub open spec fn distinct_names(evals: Seq<ImageEvaluationView>) -> bool {
    forall|i: int, j: int|
        0 <= i < j < evals.len() ==> evals[i].image_name != evals[j].image_name
}

/// A place in `evals` where a record carries `name`.
pub open spec fn record_index(evals: Seq<ImageEvaluationView>, name: Seq<char>) -> int {
    choose|i: int| 0 <= i < evals.len() && #[trigger] evals[i].image_name == name
}

/// `evals` with `eval` in the place of the record of the same name, or at the
/// end where no record has that name.
pub open spec fn upserted(evals: Seq<ImageEvaluationView>, eval: ImageEvaluationView) -> Seq<
    ImageEvaluationView,
> {
    if has_record(evals, eval.image_name) {
        evals.update(record_index(evals, eval.image_name), eval)
    } else {
        evals.push(eval)
    }
}

/// `base` after each record of `fresh` was upserted, in order.
pub open spec fn merged(base: Seq<ImageEvaluationView>, fresh: Seq<ImageEvaluationView>) -> Seq<
    ImageEvaluationView,
>
    decreases fresh.len(),
{
    if fresh.len() == 0 {
        base
    } else {
        upserted(merged(base, fresh.drop_last()), fresh.last())
    }
}

/// The ledger that holds `current` and then takes in `fresh`: one record per
/// name, the later record of a name in place of the earlier one.
pub open spec fn ledger_after(
    current: Seq<ImageEvaluationView>,
    fresh: Seq<ImageEvaluationView>,
) -> Seq<ImageEvaluationView> {
    merged(merged(Seq::empty(), current), fresh)
}

/// The record that a list of records gives each name: the last one of that
/// name.
pub open spec fn records_by_name(evals: Seq<ImageEvaluationView>) -> Map<
    Seq<char>,
    ImageEvaluationView,
>
    decreases evals.len(),
{
    if evals.len() == 0 {
        Map::empty()
    } else {
        records_by_name(evals.drop_last()).insert(evals.last().image_name, evals.last())
    }
}

/// Upserting keeps names apart and, read by name, is an insertion.
pub proof fn lemma_upserted(evals: Seq<ImageEvaluationView>, eval: ImageEvaluationView)
    requires
        distinct_names(evals),
    ensures
        distinct_names(upserted(evals, eval)),
        records_by_name(upserted(evals, eval)) == records_by_name(evals).insert(
            eval.image_name,
            eval,
        ),
        upserted(evals, eval).len() == evals.len() + (if has_record(evals, eval.image_name) {
            0int
        } else {
            1int
        }),
{
    let name = eval.image_name;
    let after = upserted(evals, eval);
    if has_record(evals, name) {
        let at = record_index(evals, name);
        assert forall|i: int, j: int| 0 <= i < j < after.len() implies after[i].image_name
            != after[j].image_name by {
            assert(after[i].image_name == evals[i].image_name);
            assert(after[j].image_name == evals[j].image_name);
        }
        lemma_records_by_name_update(evals, at, eval);
    } else {
        assert forall|i: int, j: int| 0 <= i < j < after.len() implies after[i].image_name
            != after[j].image_name by {
            if j == evals.len() {
                assert(after[i] == evals[i]);
                if evals[i].image_name == name {
                    assert(has_record(evals, name));
                }
            } else {
                assert(after[i] == evals[i]);
                assert(after[j] == evals[j]);
            }
        }
        assert(after.drop_last() =~= evals);
    }
}

/// Replacing a record by one of the same name changes only what that name
/// stands for.
proof fn lemma_records_by_name_update(
    evals: Seq<ImageEvaluationView>,
    at: int,
    eval: ImageEvaluationView,
)
    requires
        distinct_names(evals),
        0 <= at < evals.len(),
        evals[at].image_name == eval.image_name,
    ensures
        records_by_name(evals.update(at, eval)) == records_by_name(evals).insert(
            eval.image_name,
            eval,
        ),
    decreases evals.len(),
{
    let after = evals.update(at, eval);
    let last = evals.len() - 1;
    if at == last {
        assert(after.drop_last() =~= evals.drop_last());
        assert(records_by_name(after) =~= records_by_name(evals).insert(eval.image_name, eval));
    } else {
        assert(after.drop_last() =~= evals.drop_last().update(at, eval));
        assert(after.last() == evals.last());
        assert(evals[at].image_name != evals[last].image_name);
        lemma_records_by_name_update(evals.drop_last(), at, eval);
        assert(records_by_name(after) =~= records_by_name(evals).insert(eval.image_name, eval));
    }
}

/// A name has a record in a list exactly if the list, read by name, knows the
/// name.
pub proof fn lemma_records_by_name_dom(evals: Seq<ImageEvaluationView>, name: Seq<char>)
    ensures
        records_by_name(evals).contains_key(name) <==> has_record(evals, name),
    decreases evals.len(),
{
    if evals.len() > 0 {
        let rest = evals.drop_last();
        lemma_records_by_name_dom(rest, name);
        if has_record(rest, name) {
            let i = choose|i: int| 0 <= i < rest.len() && #[trigger] rest[i].image_name == name;
            assert(evals[i].image_name == name);
        }
        if has_record(evals, name) {
            let i = choose|i: int| 0 <= i < evals.len() && #[trigger] evals[i].image_name == name;
            if i < rest.len() {
                assert(rest[i].image_name == name);
            }
        }
    }
}

/// Merging keeps names apart, and read by name the fresh records win.
pub proof fn lemma_merged(base: Seq<ImageEvaluationView>, fresh: Seq<ImageEvaluationView>)
    requires
        distinct_names(base),
    ensures
        distinct_names(merged(base, fresh)),
        records_by_name(merged(base, fresh)) == records_by_name(base).union_prefer_right(
            records_by_name(fresh),
        ),
    decreases fresh.len(),
{
    if fresh.len() == 0 {
        assert(records_by_name(base) =~= records_by_name(base).union_prefer_right(
            records_by_name(fresh),
        ));
    } else {
        lemma_merged(base, fresh.drop_last());
        lemma_upserted(merged(base, fresh.drop_last()), fresh.last());
        assert(records_by_name(merged(base, fresh)) =~= records_by_name(base).union_prefer_right(
            records_by_name(fresh),
        ));
    }
}

/// The ledger after an evaluation has one record per name; a name that was
/// evaluated stands for its last fresh record, every other name for the last
/// record it had before.
pub proof fn lemma_ledger_after(current: Seq<ImageEvaluationView>, fresh: Seq<ImageEvaluationView>)
    ensures
        distinct_names(ledger_after(current, fresh)),
        records_by_name(ledger_after(current, fresh)) == records_by_name(
            current,
        ).union_prefer_right(records_by_name(fresh)),
{
    let empty = Seq::<ImageEvaluationView>::empty();
    lemma_merged(empty, current);
    lemma_merged(merged(empty, current), fresh);
    assert(records_by_name(empty).union_prefer_right(records_by_name(current)) =~= records_by_name(
        current,
    ));
}

/// The files of `all_images`, each a pair of full path and relative name,
/// whose relative name is among `names`; in the order of `all_images`.
pub open spec fn requested_images(
    all_images: Seq<(Seq<char>, Seq<char>)>,
    names: Seq<Seq<char>>,
) -> Seq<(Seq<char>, Seq<char>)> {
    all_images.filter(|image: (Seq<char>, Seq<char>)| names.contains(image.1))
}

/// The relative name that `selected` gives a full path: that of the last pair
/// with this path.
pub open spec fn relative_name_for(
    selected: Seq<(Seq<char>, Seq<char>)>,
    path: Seq<char>,
) -> Option<Seq<char>>
    decreases selected.len(),
{
    if selected.len() == 0 {
        None
    } else if selected.last().0 == path {
        Some(selected.last().1)
    } else {
        relative_name_for(selected.drop_last(), path)
    }
}

/// The name under which an outcome for `path` is recorded: the relative name
/// of the selected file with this path, else the path's own file name.
pub open spec fn record_name(selected: Seq<(Seq<char>, Seq<char>)>, path: Seq<char>) -> Option<
    Seq<char>,
> {
    match relative_name_for(selected, path) {
        Some(name) => Some(name),
        None => path_file_name(path),
    }
}

/// The ledger record that an outcome becomes.
pub open spec fn fresh_record(
    selected: Seq<(Seq<char>, Seq<char>)>,
    outcome: EvaluationOutcomeView,
) -> ImageEvaluationView {
    ImageEvaluationView {
        image_name: record_name(selected, outcome.full_image_path).unwrap(),
        result: outcome.success_result,
        fail_reason: outcome.failure_result,
    }
}

/// The ledger records that a list of outcomes becomes, in order.
pub open spec fn fresh_records(
    selected: Seq<(Seq<char>, Seq<char>)>,
    outcomes: Seq<EvaluationOutcomeView>,
) -> Seq<ImageEvaluationView> {
    outcomes.map_values(|outcome: EvaluationOutcomeView| fresh_record(selected, outcome))
}

/// Whether the outcome at `i` is the first that has no name to be recorded
/// under.
pub open spec fn first_unnamed(
    selected: Seq<(Seq<char>, Seq<char>)>,
    outcomes: Seq<EvaluationOutcomeView>,
    i: int,
) -> bool {
    &&& 0 <= i < outcomes.len()
    &&& record_name(selected, outcomes[i].full_image_path) is None
    &&& forall|j: int|
        0 <= j < i ==> record_name(selected, #[trigger] outcomes[j].full_image_path) is Some
}

/// The name that `renames`, pairs of old and new name, gives `name`: the new
/// name of the first pair whose old name it is, else `name` itself.
pub open spec fn renamed(renames: Seq<(Seq<char>, Seq<char>)>, name: Seq<char>) -> Seq<char>
    decreases renames.len(),
{
    if renames.len() == 0 {
        name
    } else if renames.first().0 == name {
        renames.first().1
    } else {
        renamed(renames.drop_first(), name)
    }
}

/// `eval` under the name that `renames` gives its name.
pub open spec fn renamed_record(
    renames: Seq<(Seq<char>, Seq<char>)>,
    eval: ImageEvaluationView,
) -> ImageEvaluationView {
    ImageEvaluationView {
        image_name: renamed(renames, eval.image_name),
        result: eval.result,
        fail_reason: eval.fail_reason,
    }
}

/// The records of `evals` whose name is not among `names`, in order.
pub open spec fn without_names(evals: Seq<ImageEvaluationView>, names: Seq<Seq<char>>) -> Seq<
    ImageEvaluationView,
> {
    evals.filter(|eval: ImageEvaluationView| !names.contains(eval.image_name))
}

/// The pairs of old and new name among the first `n` images whose name
/// changed, in order.
pub open spec fn changed_among(
    old_names: Seq<Seq<char>>,
    new_names: Seq<Seq<char>>,
    n: int,
) -> Seq<(Seq<char>, Seq<char>)>
    decreases n,
{
    if n <= 0 {
        Seq::empty()
    } else {
        let before = changed_among(old_names, new_names, n - 1);
        if old_names[n - 1] != new_names[n - 1] {
            before.push((old_names[n - 1], new_names[n - 1]))
        } else {
            before
        }
    }
}

/// The renames that a move amounts to: each image's old and new name, for
/// the images whose name changed. Names without a partner are passed over.
pub open spec fn changed_names(old_names: Seq<Seq<char>>, new_names: Seq<Seq<char>>) -> Seq<
    (Seq<char>, Seq<char>),
> {
    changed_among(
        old_names,
        new_names,
        if old_names.len() <= new_names.len() {
            old_names.len() as int
        } else {
            new_names.len() as int
        },
    )
}

/// The renames that the renaming of a folder amounts to: for each of its
/// files the name under the old folder and the name under the new one.
pub open spec fn folder_renames(
    old_folder: Seq<char>,
    new_folder: Seq<char>,
    file_names: Seq<Seq<char>>,
) -> Seq<(Seq<char>, Seq<char>)> {
    file_names.map_values(
        |file: Seq<char>| (old_folder + "/"@ + file, new_folder + "/"@ + file),
    )
}

fn clone_pair(pair: &(String, String)) -> (copy: (String, String))
    ensures
        copy == *pair,
{
    (pair.0.clone(), pair.1.clone())
}

fn upsert(ledger: &mut Vec<ImageEvaluation>, eval: ImageEvaluation)
    requires
        distinct_names(views_of(old(ledger)@)),
    ensures
        views_of(final(ledger)@) == upserted(views_of(old(ledger)@), eval@),
        distinct_names(views_of(final(ledger)@)),
{
    let ghost before = views_of(ledger@);
    proof {
        lemma_upserted(before, eval@);
    }
    let mut i: usize = 0;
    while i < ledger.len()
        invariant
            i <= ledger.len(),
            views_of(ledger@) == before,
            before == views_of(old(ledger)@),
            distinct_names(before),
            distinct_names(upserted(before, eval@)),
            forall|j: int| 0 <= j < i ==> before[j].image_name != eval.image_name@,
        decreases ledger.len() - i,
    {
        if ledger[i].image_name == eval.image_name {
            assert(before[i as int].image_name == eval.image_name@);
            assert(has_record(before, eval.image_name@));
            let ghost at = record_index(before, eval.image_name@);
            assert(at == i) by {
                if at < i {
                    assert(before[at].image_name != before[i as int].image_name);
                } else if i < at {
                    assert(before[i as int].image_name != before[at].image_name);
                }
            }
            ledger.set(i, eval);
            assert(views_of(ledger@) =~= before.update(i as int, eval@));
            return ;
        }
        i += 1;
    }
    assert(!has_record(before, eval.image_name@));
    ledger.push(eval);
    assert(views_of(ledger@) =~= before.push(eval@));
}

fn merge_into(ledger: &mut Vec<ImageEvaluation>, fresh: &Vec<ImageEvaluation>)
    requires
        distinct_names(views_of(old(ledger)@)),
    ensures
        views_of(final(ledger)@) == merged(views_of(old(ledger)@), views_of(fresh@)),
        distinct_names(views_of(final(ledger)@)),
{
    let ghost base = views_of(ledger@);
    let ghost all = views_of(fresh@);
    let mut i: usize = 0;
    assert(all.take(0) =~= Seq::<ImageEvaluationView>::empty());
    while i < fresh.len()
        invariant
            i <= fresh.len(),
            all == views_of(fresh@),
            distinct_names(views_of(ledger@)),
            views_of(ledger@) == merged(base, all.take(i as int)),
        decreases fresh.len() - i,
    {
        let eval = fresh[i].clone();
        proof {
            assert(all.take(i as int + 1).drop_last() =~= all.take(i as int));
            assert(all.take(i as int + 1).last() == eval@);
        }
        upsert(ledger, eval);
        i += 1;
    }
    assert(all.take(fresh.len() as int) =~= all);
}

/// The evaluation ledger of a project.
pub struct ImageEvaluationsComponent {}

impl ImageEvaluationsComponent {
    /// The ledger's rules; they hold no state of their own.
    pub fn new() -> Self {
        ImageEvaluationsComponent {  }
    }

    /// The files to evaluate: those of `all_images`, pairs of full path and
    /// relative name, whose relative name the request asks for, in the order
    /// of `all_images`. Fails, naming what was asked for, when none is.
    pub fn select_images(
        all_images: &Vec<(String, String)>,
        request: &RequestImageEvaluation,
    ) -> (found: Result<Vec<(String, String)>, String>)
        ensures
            match found {
                Ok(selected) => {
                    &&& selected@.len() > 0
                    &&& pairs_of(selected@) == requested_images(
                        pairs_of(all_images@),
                        request@.image_names,
                    )
                },
                Err(message) => {
                    &&& requested_images(pairs_of(all_images@), request@.image_names).len() == 0
                    &&& message@ == "No matching images found in project. Requested: "@
                        + debug_text(request@.image_names)
                },
            },
    {
        let image_names = &request.image_names;
        let ghost all = pairs_of(all_images@);
        let ghost names = names_of(image_names@);
        let mut selected: Vec<(String, String)> = Vec::new();
        let mut i: usize = 0;
        proof {
            reveal(Seq::filter);
            assert(all.take(0) =~= Seq::<(Seq<char>, Seq<char>)>::empty());
            assert(pairs_of(selected@) =~= requested_images(all.take(0), names));
        }
        while i < all_images.len()
            invariant
                i <= all_images.len(),
                all == pairs_of(all_images@),
                names == names_of(image_names@),
                pairs_of(selected@) == requested_images(all.take(i as int), names),
            decreases all_images.len() - i,
        {
            proof {
                reveal(Seq::filter);
                assert(all.take(i as int + 1).drop_last() =~= all.take(i as int));
                assert(all.take(i as int + 1).last() == all[i as int]);
            }
            if contains_name(image_names, all_images[i].1.as_str()) {
                selected.push(clone_pair(&all_images[i]));
                assert(pairs_of(selected@) =~= requested_images(all.take(i as int), names).push(
                    all[i as int],
                ));
            }
            i += 1;
        }
        assert(all.take(all_images.len() as int) =~= all);
        if selected.len() == 0 {
            let listed = debug_names(image_names);
            Err(concat2("No matching images found in project. Requested: ", listed.as_str()))
        } else {
            Ok(selected)
        }
    }

    /// The ledger after it took in `fresh`: one record per name, a fresh
    /// record in place of an older one of the same name, every other record
    /// kept.
    pub fn merge_evaluations(
        current: &Vec<ImageEvaluation>,
        fresh: &Vec<ImageEvaluation>,
    ) -> (all: Vec<ImageEvaluation>)
        ensures
            views_of(all@) == ledger_after(views_of(current@), views_of(fresh@)),
            distinct_names(views_of(all@)),
            records_by_name(views_of(all@)) == records_by_name(
                views_of(current@),
            ).union_prefer_right(records_by_name(views_of(fresh@))),
    {
        let mut all: Vec<ImageEvaluation> = Vec::new();
        assert(views_of(all@) =~= Seq::<ImageEvaluationView>::empty());
        merge_into(&mut all, current);
        merge_into(&mut all, fresh);
        proof {
            lemma_ledger_after(views_of(current@), views_of(fresh@));
        }
        all
    }

    /// The name under which an outcome for `full_image_path` is recorded.
    fn resolve_name(
        selected_images: &Vec<(String, String)>,
        full_image_path: &str,
    ) -> (name: Option<String>)
        ensures
            name.deep_view() == record_name(pairs_of(selected_images@), full_image_path@),
    {
        let ghost selected = pairs_of(selected_images@);
        let mut i: usize = selected_images.len();
        assert(selected.take(i as int) =~= selected);
        while i > 0
            invariant
                i <= selected_images.len(),
                selected == pairs_of(selected_images@),
                relative_name_for(selected, full_image_path@) == relative_name_for(
                    selected.take(i as int),
                    full_image_path@,
                ),
            decreases i,
        {
            i -= 1;
            proof {
                assert(selected.take(i as int + 1).drop_last() =~= selected.take(i as int));
                assert(selected.take(i as int + 1).last() == selected[i as int]);
            }
            if str_eq(selected_images[i].0.as_str(), full_image_path) {
                return Some(selected_images[i].1.clone());
            }
        }
        file_name_of(full_image_path)
    }

    /// Takes the outcomes of an evaluation into the ledger and gives the
    /// whole ledger back, to be stored and shown.
    ///
    /// `selected_images` are the files that were handed to the service, as
    /// `select_images` chose them. An outcome is recorded under the relative
    /// name of the selected file with its path; one for a path that was not
    /// selected, under the path's file name. Fails, and leaves nothing to be
    /// stored, when such a path has no file name.
    pub fn evaluate_images(
        current_evals: &Vec<ImageEvaluation>,
        selected_images: &Vec<(String, String)>,
        eval_results: &Vec<EvaluationOutcome>,
    ) -> (merged: Result<Vec<ImageEvaluation>, String>)
        ensures
            match merged {
                Ok(all) => {
                    &&& forall|i: int|
                        0 <= i < eval_results@.len() ==> record_name(
                            pairs_of(selected_images@),
                            #[trigger] outcomes_of(eval_results@)[i].full_image_path,
                        ) is Some
                    &&& views_of(all@) == ledger_after(
                        views_of(current_evals@),
                        fresh_records(pairs_of(selected_images@), outcomes_of(eval_results@)),
                    )
                    &&& distinct_names(views_of(all@))
                },
                Err(message) => exists|i: int|
                    {
                        &&& #[trigger] first_unnamed(
                            pairs_of(selected_images@),
                            outcomes_of(eval_results@),
                            i,
                        )
                        &&& message@ == "Invalid file path: "@ + eval_results@[i].full_image_path@
                    },
            },
    {
        let ghost selected = pairs_of(selected_images@);
        let ghost outcomes = outcomes_of(eval_results@);
        let mut new_evals: Vec<ImageEvaluation> = Vec::new();
        let mut i: usize = 0;
        assert(views_of(new_evals@) =~= fresh_records(selected, outcomes.take(0)));
        while i < eval_results.len()
            invariant
                i <= eval_results.len(),
                selected == pairs_of(selected_images@),
                outcomes == outcomes_of(eval_results@),
                forall|j: int|
                    0 <= j < i ==> record_name(selected, #[trigger] outcomes[j].full_image_path)
                        is Some,
                views_of(new_evals@) == fresh_records(selected, outcomes.take(i as int)),
            decreases eval_results.len() - i,
        {
            let outcome = &eval_results[i];
            assert(outcomes[i as int] == outcome@);
            let image_name = match Self::resolve_name(
                selected_images,
                outcome.full_image_path.as_str(),
            ) {
                Some(name) => name,
                None => {
                    assert(first_unnamed(selected, outcomes, i as int));
                    return Err(
                        concat2("Invalid file path: ", outcome.full_image_path.as_str()),
                    );
                },
            };
            let new_eval = ImageEvaluation {
                image_name,
                result: match &outcome.success_result {
                    Some(result) => Some(result.clone()),
                    None => None,
                },
                fail_reason: match &outcome.failure_result {
                    Some(reason) => Some(reason.clone()),
                    None => None,
                },
            };
            assert(new_eval@ == fresh_record(selected, outcome@));
            let ghost recorded = views_of(new_evals@);
            new_evals.push(new_eval);
            assert(views_of(new_evals@) =~= recorded.push(new_eval@));
            assert(outcomes.take(i as int + 1) =~= outcomes.take(i as int).push(outcomes[i as int]));
            assert(fresh_records(selected, outcomes.take(i as int + 1)) =~= fresh_records(
                selected,
                outcomes.take(i as int),
            ).push(fresh_record(selected, outcomes[i as int])));
            i += 1;
        }
        assert(outcomes.take(eval_results.len() as int) =~= outcomes);
        Ok(Self::merge_evaluations(current_evals, &new_evals))
    }

    /// The ledger as it is read: what the ledger file held, and nothing where
    /// the project has no ledger file yet.
    pub fn read_images_eval_json(
        stored: Option<Vec<ImageEvaluation>>,
    ) -> (evals: Vec<ImageEvaluation>)
        ensures
            match stored {
                Some(records) => evals == records,
                None => evals@.len() == 0,
            },
    {
        match stored {
            Some(records) => records,
            None => Vec::new(),
        }
    }

    /// The name that `renames` gives `name`.
    fn rename_one(renames: &Vec<(String, String)>, name: &String) -> (new_name: String)
        ensures
            new_name@ == renamed(pairs_of(renames@), name@),
    {
        let ghost pairs = pairs_of(renames@);
        let mut i: usize = 0;
        assert(pairs.skip(0) =~= pairs);
        while i < renames.len()
            invariant
                i <= renames.len(),
                pairs == pairs_of(renames@),
                renamed(pairs, name@) == renamed(pairs.skip(i as int), name@),
            decreases renames.len() - i,
        {
            proof {
                assert(pairs.skip(i as int).drop_first() =~= pairs.skip(i as int + 1));
                assert(pairs.skip(i as int).first() == pairs[i as int]);
            }
            if renames[i].0 == *name {
                return renames[i].1.clone();
            }
            i += 1;
        }
        name.clone()
    }

    /// The ledger after images were renamed or moved: each record whose name
    /// is the old name of a pair in `renames` carries that pair's new name
    /// (the first such pair decides); every other record is as it was.
    pub fn rename_evaluations(
        evals: &Vec<ImageEvaluation>,
        renames: &Vec<(String, String)>,
    ) -> (after: Vec<ImageEvaluation>)
        ensures
            after@.len() == evals@.len(),
            forall|i: int|
                0 <= i < evals@.len() ==> (#[trigger] after@[i])@ == renamed_record(
                    pairs_of(renames@),
                    evals@[i]@,
                ),
    {
        let mut after: Vec<ImageEvaluation> = Vec::new();
        let mut i: usize = 0;
        while i < evals.len()
            invariant
                i <= evals.len(),
                after@.len() == i,
                forall|j: int|
                    0 <= j < i ==> (#[trigger] after@[j])@ == renamed_record(
                        pairs_of(renames@),
                        evals@[j]@,
                    ),
            decreases evals.len() - i,
        {
            let old_eval = evals[i].clone();
            let new_name = Self::rename_one(renames, &old_eval.image_name);
            after.push(
                ImageEvaluation {
                    image_name: new_name,
                    result: old_eval.result,
                    fail_reason: old_eval.fail_reason,
                },
            );
            i += 1;
        }
        after
    }

    /// The renames to apply to the ledger after images were moved:
    /// `image_names` are the names before the move, `new_names` the names
    /// after it, in the same order. An image that kept its name needs no
    /// rename.
    pub fn renames_for_move(
        image_names: &Vec<String>,
        new_names: &Vec<String>,
    ) -> (renames: Vec<(String, String)>)
        ensures
            pairs_of(renames@) == changed_names(names_of(image_names@), names_of(new_names@)),
    {
        let count = if image_names.len() <= new_names.len() {
            image_names.len()
        } else {
            new_names.len()
        };
        let mut renames: Vec<(String, String)> = Vec::new();
        let mut i: usize = 0;
        assert(pairs_of(renames@) =~= changed_among(
            names_of(image_names@),
            names_of(new_names@),
            0,
        ));
        while i < count
            invariant
                i <= count,
                count <= image_names.len(),
                count <= new_names.len(),
                pairs_of(renames@) == changed_among(
                    names_of(image_names@),
                    names_of(new_names@),
                    i as int,
                ),
            decreases count - i,
        {
            if !str_eq(image_names[i].as_str(), new_names[i].as_str()) {
                let ghost before = pairs_of(renames@);
                renames.push((image_names[i].clone(), new_names[i].clone()));
                assert(pairs_of(renames@) =~= before.push(
                    (names_of(image_names@)[i as int], names_of(new_names@)[i as int]),
                ));
            }
            i += 1;
        }
        renames
    }

    /// The renames to apply to the ledger after a folder of a project was
    /// renamed, given the names of the files in it.
    pub fn renames_for_folder(
        old_folder_name: &str,
        new_folder_name: &str,
        file_names: &Vec<String>,
    ) -> (renames: Vec<(String, String)>)
        ensures
            pairs_of(renames@) == folder_renames(
                old_folder_name@,
                new_folder_name@,
                names_of(file_names@),
            ),
    {
        let mut renames: Vec<(String, String)> = Vec::new();
        let mut i: usize = 0;
        while i < file_names.len()
            invariant
                i <= file_names.len(),
                renames@.len() == i,
                forall|j: int|
                    0 <= j < i ==> {
                        &&& (#[trigger] renames@[j]).0@ == old_folder_name@ + "/"@ + file_names@[j]@
                        &&& renames@[j].1@ == new_folder_name@ + "/"@ + file_names@[j]@
                    },
            decreases file_names.len() - i,
        {
            let file = file_names[i].as_str();
            renames.push((concat3(old_folder_name, "/", file), concat3(new_folder_name, "/", file)));
            i += 1;
        }
        assert(pairs_of(renames@) =~= folder_renames(
            old_folder_name@,
            new_folder_name@,
            names_of(file_names@),
        ));
        renames
    }

    /// The ledger without the records of the named images; every other
    /// record stays, in order. With no name given, nothing changes.
    pub fn remove_evaluations_for_images(
        current: &Vec<ImageEvaluation>,
        image_names: &Vec<String>,
    ) -> (kept: Vec<ImageEvaluation>)
        ensures
            views_of(kept@) == without_names(views_of(current@), names_of(image_names@)),
            image_names@.len() == 0 ==> views_of(kept@) == views_of(current@),
    {
        let ghost all = views_of(current@);
        let ghost names = names_of(image_names@);
        let mut kept: Vec<ImageEvaluation> = Vec::new();
        let mut i: usize = 0;
        proof {
            reveal(Seq::filter);
            assert(all.take(0) =~= Seq::<ImageEvaluationView>::empty());
            assert(views_of(kept@) =~= without_names(all.take(0), names));
        }
        while i < current.len()
            invariant
                i <= current.len(),
                all == views_of(current@),
                names == names_of(image_names@),
                views_of(kept@) == without_names(all.take(i as int), names),
                image_names@.len() == 0 ==> views_of(kept@) == all.take(i as int),
            decreases current.len() - i,
        {
            proof {
                reveal(Seq::filter);
                assert(all.take(i as int + 1).drop_last() =~= all.take(i as int));
                assert(all.take(i as int + 1).last() == all[i as int]);
            }
            if !contains_name(image_names, current[i].image_name.as_str()) {
                kept.push(current[i].clone());
                assert(views_of(kept@) =~= without_names(all.take(i as int), names).push(
                    all[i as int],
                ));
                assert(all.take(i as int + 1) =~= all.take(i as int).push(all[i as int]));
            } else {
                assert(names.len() > 0);
            }
            i += 1;
        }
        assert(all.take(current.len() as int) =~= all);
        kept
    }
}

} // verus!
