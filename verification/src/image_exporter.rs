//! Export of evaluated images: under which file name each image goes into
//! the output folder, so that no two exported images share a name and no file
//! that lies there already is overwritten.

use vstd::prelude::*;
use vstd::set_lib::{lemma_int_range, lemma_len_subset, set_int_range};
use crate::image_evaluations::views_of;
use crate::models::{ImageEvaluation, ImageEvaluationResultView, ImageEvaluationView};
use crate::paths::{extension_of, file_stem_of, path_extension, path_file_stem};
use crate::text::{concat2, concat3, names_of, str_eq};

verus! {

/// The character of a decimal digit.
pub open spec fn digit_char(digit: nat) -> char {
    if digit == 0 {
        '0'
    } else if digit == 1 {
        '1'
    } else if digit == 2 {
        '2'
    } else if digit == 3 {
        '3'
    } else if digit == 4 {
        '4'
    } else if digit == 5 {
        '5'
    } else if digit == 6 {
        '6'
    } else if digit == 7 {
        '7'
    } else if digit == 8 {
        '8'
    } else {
        '9'
    }
}

/// A number written in decimal, without leading zeros.
pub open spec fn decimal_text(n: nat) -> Seq<char>
    decreases n,
{
    if n < 10 {
        seq![digit_char(n)]
    } else {
        decimal_text(n / 10).push(digit_char(n % 10))
    }
}

/// Different numbers are written differently.
pub proof fn lemma_decimal_text_injective(a: nat, b: nat)
    requires
        decimal_text(a) == decimal_text(b),
    ensures
        a == b,
    decreases a,
{
    if a < 10 {
        if b >= 10 {
            assert(decimal_text(b).len() >= 2) by {
                assert(decimal_text(b / 10).len() >= 1) by {
                    lemma_decimal_text_nonempty(b / 10);
                }
            }
        } else {
            assert(decimal_text(a)[0] == digit_char(a));
            assert(decimal_text(b)[0] == digit_char(b));
        }
    } else {
        if b < 10 {
            assert(decimal_text(a).len() >= 2) by {
                lemma_decimal_text_nonempty(a / 10);
            }
        } else {
            let heads_a = decimal_text(a / 10);
            let heads_b = decimal_text(b / 10);
            assert(decimal_text(a).last() == digit_char(a % 10));
            assert(decimal_text(b).last() == digit_char(b % 10));
            assert(decimal_text(a).drop_last() =~= heads_a);
            assert(decimal_text(b).drop_last() =~= heads_b);
            lemma_decimal_text_injective(a / 10, b / 10);
            assert(a % 10 == b % 10);
        }
    }
}

proof fn lemma_decimal_text_nonempty(n: nat)
    ensures
        decimal_text(n).len() >= 1,
    decreases n,
{
    if n >= 10 {
        lemma_decimal_text_nonempty(n / 10);
    }
}

fn digit_text(digit: u128) -> (text: &'static str)
    requires
        digit < 10,
    ensures
        text@ == seq![digit_char(digit as nat)],
{
    proof {
        reveal_strlit("0");
        reveal_strlit("1");
        reveal_strlit("2");
        reveal_strlit("3");
        reveal_strlit("4");
        reveal_strlit("5");
        reveal_strlit("6");
        reveal_strlit("7");
        reveal_strlit("8");
        reveal_strlit("9");
    }
    let text = if digit == 0 {
        "0"
    } else if digit == 1 {
        "1"
    } else if digit == 2 {
        "2"
    } else if digit == 3 {
        "3"
    } else if digit == 4 {
        "4"
    } else if digit == 5 {
        "5"
    } else if digit == 6 {
        "6"
    } else if digit == 7 {
        "7"
    } else if digit == 8 {
        "8"
    } else {
        "9"
    };
    assert(text@ =~= seq![digit_char(digit as nat)]);
    text
}

/// `n` written in decimal.
pub fn decimal(n: u128) -> (text: String)
    ensures
        text@ == decimal_text(n as nat),
    decreases n,
{
    if n < 10 {
        String::from_str(digit_text(n))
    } else {
        let mut text = decimal(n / 10);
        text.append(digit_text(n % 10));
        assert(text@ =~= decimal_text((n / 10) as nat).push(digit_char((n % 10) as nat)));
        text
    }
}

/// `name` with `.` and the extension behind it, where there is one.
pub open spec fn with_extension(name: Seq<char>, extension: Option<Seq<char>>) -> Seq<char> {
    match extension {
        Some(extension) => name + "."@ + extension,
        None => name,
    }
}

/// The file name tried at `attempt`: first the base with its extension, from
/// the second attempt on the base, `_` and the number of the attempt, with
/// the extension.
pub open spec fn candidate(
    base: Seq<char>,
    extension: Option<Seq<char>>,
    attempt: nat,
) -> Seq<char> {
    if attempt <= 1 {
        with_extension(base, extension)
    } else {
        with_extension(base + "_"@ + decimal_text(attempt), extension)
    }
}

/// Whether `attempt` is the first whose file name is not among `blocked`.
pub open spec fn first_free(
    blocked: Seq<Seq<char>>,
    base: Seq<char>,
    extension: Option<Seq<char>>,
    attempt: nat,
) -> bool {
    &&& attempt >= 1
    &&& !blocked.contains(candidate(base, extension, attempt))
    &&& forall|earlier: nat|
        1 <= earlier < attempt ==> blocked.contains(#[trigger] candidate(base, extension, earlier))
}

/// The first file name of the attempts that is not among `blocked`.
pub open spec fn free_name(
    blocked: Seq<Seq<char>>,
    base: Seq<char>,
    extension: Option<Seq<char>>,
) -> Seq<char> {
    candidate(base, extension, choose|attempt: nat| first_free(blocked, base, extension, attempt))
}

/// Only one attempt is the first free one.
pub proof fn lemma_first_free_unique(
    blocked: Seq<Seq<char>>,
    base: Seq<char>,
    extension: Option<Seq<char>>,
    a: nat,
    b: nat,
)
    requires
        first_free(blocked, base, extension, a),
        first_free(blocked, base, extension, b),
    ensures
        a == b,
{
    if a < b {
        assert(blocked.contains(candidate(base, extension, a)));
    } else if b < a {
        assert(blocked.contains(candidate(base, extension, b)));
    }
}

/// Different attempts try different file names.
pub proof fn lemma_candidates_differ(
    base: Seq<char>,
    extension: Option<Seq<char>>,
    a: nat,
    b: nat,
)
    requires
        1 <= a < b,
    ensures
        candidate(base, extension, a) != candidate(base, extension, b),
{
    let tail = match extension {
        Some(extension) => "."@ + extension,
        None => Seq::<char>::empty(),
    };
    let numbered_b = base + "_"@ + decimal_text(b);
    assert(candidate(base, extension, b) =~= numbered_b + tail);
    lemma_decimal_text_nonempty(b);
    reveal_strlit("_");
    if a == 1 {
        assert(candidate(base, extension, a) =~= base + tail);
        assert((numbered_b + tail).len() > (base + tail).len());
    } else {
        let numbered_a = base + "_"@ + decimal_text(a);
        assert(candidate(base, extension, a) =~= numbered_a + tail);
        if numbered_a + tail == numbered_b + tail {
            assert(numbered_a.len() == numbered_b.len());
            assert(numbered_a =~= (numbered_a + tail).subrange(0, numbered_a.len() as int));
            assert(numbered_b =~= (numbered_b + tail).subrange(0, numbered_b.len() as int));
            crate::text::lemma_same_prefix_same_rest(
                base + "_"@,
                decimal_text(a),
                decimal_text(b),
            );
            lemma_decimal_text_injective(a, b);
        }
    }
}

/// The file name tried at `attempt`.
fn candidate_name(base: &str, extension: &Option<String>, attempt: u128) -> (name: String)
    ensures
        name@ == candidate(base@, extension.deep_view(), attempt as nat),
{
    let mut name = if attempt <= 1 {
        String::from_str(base)
    } else {
        concat3(base, "_", decimal(attempt).as_str())
    };
    match extension {
        Some(extension) => {
            name.append(".");
            name.append(extension.as_str());
        },
        None => {},
    }
    name
}

/// The first place of `name` in `names`.
fn position_in(names: &Vec<String>, name: &str) -> (at: Option<usize>)
    ensures
        match at {
            Some(i) => i < names@.len() && names@[i as int]@ == name@,
            None => !names_of(names@).contains(name@),
        },
{
    let mut i: usize = 0;
    while i < names.len()
        invariant
            i <= names.len(),
            forall|j: int| 0 <= j < i ==> names@[j]@ != name@,
        decreases names.len() - i,
    {
        if str_eq(names[i].as_str(), name) {
            return Some(i);
        }
        i += 1;
    }
    assert(!names_of(names@).contains(name@)) by {
        if names_of(names@).contains(name@) {
            let j = choose|j: int| 0 <= j < names_of(names@).len() && names_of(names@)[j] == name@;
            assert(names@[j]@ == name@);
        }
    }
    None
}

/// The first file name of the attempts that is not among `blocked`.
fn pick_free_name(blocked: &Vec<String>, base: &str, extension: &Option<String>) -> (name: String)
    ensures
        name@ == free_name(names_of(blocked@), base@, extension.deep_view()),
        !names_of(blocked@).contains(name@),
{
    let ghost names = names_of(blocked@);
    let ghost ext = extension.deep_view();
    let mut attempt: u128 = 1;
    let mut name = candidate_name(base, extension, attempt);
    let ghost mut hits: Set<int> = Set::empty();
    proof {
        lemma_int_range(0, blocked.len() as int);
    }
    loop
        invariant
            names == names_of(blocked@),
            ext == extension.deep_view(),
            1 <= attempt,
            hits.finite(),
            hits.len() == attempt - 1,
            hits.subset_of(set_int_range(0, blocked.len() as int)),
            set_int_range(0, blocked.len() as int).finite(),
            set_int_range(0, blocked.len() as int).len() == blocked.len(),
            forall|at: int|
                hits.contains(at) ==> exists|earlier: nat|
                    1 <= earlier < attempt && names[at] == #[trigger] candidate(
                        base@,
                        ext,
                        earlier,
                    ),
            forall|earlier: nat|
                1 <= earlier < attempt ==> names.contains(#[trigger] candidate(base@, ext, earlier)),
            name@ == candidate(base@, ext, attempt as nat),
        decreases blocked.len() - hits.len(),
    {
        proof {
            lemma_len_subset(hits, set_int_range(0, blocked.len() as int));
        }
        match position_in(blocked, name.as_str()) {
            None => {
                proof {
                    let found = attempt as nat;
                    assert(first_free(names, base@, ext, found));
                    let chosen = choose|k: nat| first_free(names, base@, ext, k);
                    lemma_first_free_unique(names, base@, ext, found, chosen);
                }
                return name;
            },
            Some(at) => {
                proof {
                    assert(names[at as int] == candidate(base@, ext, attempt as nat));
                    if hits.contains(at as int) {
                        let earlier = choose|earlier: nat|
                            1 <= earlier < attempt && names[at as int] == #[trigger] candidate(
                                base@,
                                ext,
                                earlier,
                            );
                        lemma_candidates_differ(base@, ext, earlier, attempt as nat);
                    }
                    hits = hits.insert(at as int);
                    lemma_len_subset(hits, set_int_range(0, blocked.len() as int));
                }
                attempt += 1;
                name = candidate_name(base, extension, attempt);
            },
        }
    }
}

/// One image to export: the file to copy and the name of the copy in the
/// output folder.
#[derive(Debug, PartialEq, Eq)]
pub struct ExportCopy {
    /// The evaluated file, by the path under which it was evaluated.
    pub source: String,
    /// The name of the copy.
    pub file_name: String,
}

/// What a copy stands for.
pub struct ExportCopyView {
    pub source: Seq<char>,
    pub file_name: Seq<char>,
}

impl View for ExportCopy {
    type V = ExportCopyView;

    open spec fn view(&self) -> ExportCopyView {
        ExportCopyView { source: self.source@, file_name: self.file_name@ }
    }
}

/// What a list of copies stands for.
pub open spec fn copies_of(copies: Seq<ExportCopy>) -> Seq<ExportCopyView> {
    copies.map_values(|copy: ExportCopy| copy@)
}

/// The file names of a list of copies.
pub open spec fn names_in(copies: Seq<ExportCopyView>) -> Seq<Seq<char>> {
    copies.map_values(|copy: ExportCopyView| copy.file_name)
}

/// The name of an exported image before its extension: the stem of the
/// evaluated file's name and the suffix that the evaluation suggests,
/// `_UNKNOWN` where it suggests none.
pub open spec fn export_base(result: ImageEvaluationResultView) -> Seq<char> {
    (match path_file_stem(result.original_image_path) {
        Some(stem) => stem,
        None => Seq::<char>::empty(),
    }) + (match result.new_suggested_filepath_suffix {
        Some(suffix) => suffix,
        None => "_UNKNOWN"@,
    })
}

/// The copies that export the evaluated images of `evaluations`, in order.
/// A record without a judgment is passed over. Each copy gets the first name
/// of its attempts that is neither among `taken` nor the name of a copy
/// planned before it.
pub open spec fn planned_export(
    evaluations: Seq<ImageEvaluationView>,
    taken: Seq<Seq<char>>,
) -> Seq<ExportCopyView>
    decreases evaluations.len(),
{
    if evaluations.len() == 0 {
        Seq::empty()
    } else {
        let before = planned_export(evaluations.drop_last(), taken);
        match evaluations.last().result {
            Some(result) => before.push(
                ExportCopyView {
                    source: result.original_image_path,
                    file_name: free_name(
                        taken + names_in(before),
                        export_base(result),
                        path_extension(result.original_image_path),
                    ),
                },
            ),
            None => before,
        }
    }
}

/// The names among the first `n` copies that were found in the output
/// folder, in order; `found` says of each copy whether its name was found.
pub open spec fn found_among(copies: Seq<ExportCopyView>, found: Seq<bool>, n: int) -> Seq<
    Seq<char>,
>
    decreases n,
{
    if n <= 0 {
        Seq::empty()
    } else if found[n - 1] {
        found_among(copies, found, n - 1).push(copies[n - 1].file_name)
    } else {
        found_among(copies, found, n - 1)
    }
}

/// The names of the copies that were found in the output folder. Copies
/// without an answer in `found` count as not found.
pub open spec fn found_names(copies: Seq<ExportCopyView>, found: Seq<bool>) -> Seq<Seq<char>> {
    found_among(
        copies,
        found,
        if copies.len() <= found.len() {
            copies.len() as int
        } else {
            found.len() as int
        },
    )
}

/// Plans the export of evaluated images.
#[derive(Default)]
pub struct ImageExporterComponent {}

impl ImageExporterComponent {
    /// Plans the export of the evaluated images of `evaluations` into a
    /// folder: for each record with a judgment, in order, the file to copy
    /// and the name of its copy. `taken_names` are names that must not be
    /// used, such as those of files that lie in the folder already.
    ///
    /// The name of a copy is the stem of the evaluated file's name, the
    /// suggested suffix (`_UNKNOWN` where there is none) and the file's
    /// extension. Where that name is taken, or planned for an earlier copy,
    /// `_2`, `_3` and so on stand before the extension, the first that is
    /// free. So no copy gets a taken name, and no two copies get the same
    /// name.
    pub fn export_evaluated_images(
        &self,
        evaluations: &Vec<ImageEvaluation>,
        taken_names: &Vec<String>,
    ) -> (copies: Vec<ExportCopy>)
        ensures
            copies_of(copies@) == planned_export(views_of(evaluations@), names_of(taken_names@)),
            forall|i: int|
                0 <= i < copies@.len() ==> !names_of(taken_names@).contains(
                    (#[trigger] copies@[i]).file_name@,
                ),
            forall|i: int, j: int|
                0 <= i < j < copies@.len() ==> copies@[i].file_name@ != copies@[j].file_name@,
    {
        let ghost evals = views_of(evaluations@);
        let ghost taken = names_of(taken_names@);
        let mut copies: Vec<ExportCopy> = Vec::new();
        let mut blocked: Vec<String> = crate::text::clone_names(taken_names);
        let mut i: usize = 0;
        assert(copies_of(copies@) =~= planned_export(evals.take(0), taken));
        assert(names_of(blocked@) =~= taken + names_in(copies_of(copies@)));
        while i < evaluations.len()
            invariant
                i <= evaluations.len(),
                evals == views_of(evaluations@),
                taken == names_of(taken_names@),
                copies_of(copies@) == planned_export(evals.take(i as int), taken),
                names_of(blocked@) == taken + names_in(copies_of(copies@)),
                forall|a: int|
                    0 <= a < copies@.len() ==> !taken.contains((#[trigger] copies@[a]).file_name@),
                forall|a: int, b: int|
                    0 <= a < b < copies@.len() ==> copies@[a].file_name@ != copies@[b].file_name@,
            decreases evaluations.len() - i,
        {
            proof {
                assert(evals.take(i as int + 1).drop_last() =~= evals.take(i as int));
                assert(evals.take(i as int + 1).last() == evaluations@[i as int]@);
            }
            if let Some(result) = &evaluations[i].result {
                let path = result.original_image_path.as_str();
                let stem = match file_stem_of(path) {
                    Some(stem) => stem,
                    None => String::new(),
                };
                let base = match &result.new_suggested_filepath_suffix {
                    Some(suffix) => concat2(stem.as_str(), suffix.as_str()),
                    None => concat2(stem.as_str(), "_UNKNOWN"),
                };
                let extension = extension_of(path);
                let file_name = pick_free_name(&blocked, base.as_str(), &extension);
                let ghost planned = copies_of(copies@);
                let ghost held = names_of(blocked@);
                let ghost earlier = copies@;
                proof {
                    assert forall|a: int| 0 <= a < earlier.len() implies (#[trigger] earlier[a]).file_name@
                        != file_name@ by {
                        assert(held[taken.len() + a] == names_in(planned)[a]);
                        assert(names_in(planned)[a] == earlier[a].file_name@);
                    }
                    assert(!taken.contains(file_name@)) by {
                        if taken.contains(file_name@) {
                            let at = choose|at: int| 0 <= at < taken.len() && taken[at] == file_name@;
                            assert(held[at] == taken[at]);
                        }
                    }
                }
                blocked.push(file_name.clone());
                let copy = ExportCopy { source: result.original_image_path.clone(), file_name };
                copies.push(copy);
                assert(copies_of(copies@) =~= planned.push(copy@));
                assert(names_of(blocked@) =~= held.push(copy@.file_name));
                assert(names_in(planned.push(copy@)) =~= names_in(planned).push(copy@.file_name));
                assert(names_of(blocked@) =~= taken + names_in(copies_of(copies@)));
            }
            i += 1;
        }
        assert(evals.take(evaluations.len() as int) =~= evals);
        copies
    }
    /// Decides whether a plan stands once it is known which of its names lie
    /// in the output folder already: `found` says so of each copy, in order.
    /// Where none was found the plan stands and `None` comes back; otherwise
    /// the names to avoid in the next plan come back, `taken_names` and after
    /// them the names that were found.
    pub fn names_to_avoid(
        &self,
        taken_names: &Vec<String>,
        copies: &Vec<ExportCopy>,
        found: &Vec<bool>,
    ) -> (avoid: Option<Vec<String>>)
        ensures
            match avoid {
                None => found_names(copies_of(copies@), found@).len() == 0,
                Some(names) => {
                    &&& found_names(copies_of(copies@), found@).len() > 0
                    &&& names_of(names@) == names_of(taken_names@) + found_names(
                        copies_of(copies@),
                        found@,
                    )
                },
            },
    {
        let count = if copies.len() <= found.len() {
            copies.len()
        } else {
            found.len()
        };
        let mut names = crate::text::clone_names(taken_names);
        let mut any = false;
        let mut i: usize = 0;
        assert(names_of(names@) =~= names_of(taken_names@) + found_among(
            copies_of(copies@),
            found@,
            0,
        ));
        while i < count
            invariant
                i <= count,
                count <= copies.len(),
                count <= found.len(),
                any == (found_among(copies_of(copies@), found@, i as int).len() > 0),
                names_of(names@) == names_of(taken_names@) + found_among(
                    copies_of(copies@),
                    found@,
                    i as int,
                ),
            decreases count - i,
        {
            if found[i] {
                let ghost before = names_of(names@);
                names.push(copies[i].file_name.clone());
                any = true;
                assert(names_of(names@) =~= before.push(copies_of(copies@)[i as int].file_name));
                assert(names_of(names@) =~= names_of(taken_names@) + found_among(
                    copies_of(copies@),
                    found@,
                    i as int + 1,
                ));
            }
            i += 1;
        }
        if any {
            Some(names)
        } else {
            None
        }
    }
}

} // verus!
