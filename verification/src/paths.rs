//! Where a project's files lie in the store, and how path strings are taken
//! apart.
//!
//! Store paths are relative to the application's folder and use `/` between
//! their parts: `projects/<name>/images/<image>`, with at most one folder
//! between `images` and the file.

use vstd::prelude::*;
use crate::text::{concat2, concat3};

verus! {

/// The last component of `path`, as `std::path::Path::file_name` gives it on
/// the platform that the library is built for; `None` where the path has none
/// (it is empty, is a root, or ends in `..`).
pub uninterp spec fn path_file_name(path: Seq<char>) -> Option<Seq<char>>;

/// `text` in lower case, as `str::to_lowercase` gives it.
pub uninterp spec fn lowercase(text: Seq<char>) -> Seq<char>;

/// Calls `std::path::Path::file_name` on `path`. Trusted: the result is a
/// function of the path's characters alone, named `path_file_name`. Nothing
/// else is claimed of it. A path given as a string is valid UTF-8, so turning
/// the component back into a string loses nothing.
#[verifier::external_body]
pub(crate) fn file_name_of(path: &str) -> (name: Option<String>)
    ensures
        name.deep_view() == path_file_name(path@),
{
    std::path::Path::new(path).file_name().map(|name| name.to_string_lossy().into_owned())
}

/// Calls `str::to_lowercase` on `text`. Trusted: the result is a function of
/// the characters alone, named `lowercase`.
#[verifier::external_body]
pub(crate) fn to_lowercase(text: &str) -> (lower: String)
    ensures
        lower@ == lowercase(text@),
{
    text.to_lowercase()
}

/// Where the last `.` of `name` stands, counted in characters; -1 where the
/// name holds none.
pub open spec fn last_dot_of(name: Seq<char>) -> int
    decreases name.len(),
{
    if name.len() == 0 {
        -1
    } else if name.last() == '.' {
        name.len() - 1
    } else {
        last_dot_of(name.drop_last())
    }
}

/// The extension of a file name: what follows its last `.`, which may be
/// nothing. A name without a `.`, and one whose only `.` is its first
/// character, has no extension.
pub open spec fn name_extension(name: Seq<char>) -> Option<Seq<char>> {
    if last_dot_of(name) <= 0 {
        None
    } else {
        Some(name.subrange(last_dot_of(name) + 1, name.len() as int))
    }
}

/// The stem of a file name: what stands before its last `.`; the whole name
/// where it has no extension.
pub open spec fn name_stem(name: Seq<char>) -> Seq<char> {
    if last_dot_of(name) <= 0 {
        name
    } else {
        name.subrange(0, last_dot_of(name))
    }
}

/// The extension of the file name of `path`.
pub open spec fn path_extension(path: Seq<char>) -> Option<Seq<char>> {
    match path_file_name(path) {
        Some(name) => name_extension(name),
        None => None,
    }
}

/// The stem of the file name of `path`.
pub open spec fn path_file_stem(path: Seq<char>) -> Option<Seq<char>> {
    match path_file_name(path) {
        Some(name) => Some(name_stem(name)),
        None => None,
    }
}

/// The last `.` of a name is a `.`, and none follows it.
pub proof fn lemma_last_dot_of(name: Seq<char>)
    ensures
        -1 <= last_dot_of(name) < name.len(),
        last_dot_of(name) >= 0 ==> name[last_dot_of(name)] == '.',
        forall|i: int| last_dot_of(name) < i < name.len() ==> name[i] != '.',
    decreases name.len(),
{
    if name.len() > 0 && name.last() != '.' {
        lemma_last_dot_of(name.drop_last());
        assert forall|i: int| last_dot_of(name) < i < name.len() implies name[i] != '.' by {
            if i < name.len() - 1 {
                assert(name.drop_last()[i] == name[i]);
            }
        }
    }
}

/// Where the last `.` of `name` stands, counted in characters.
fn last_dot(name: &str) -> (at: Option<usize>)
    ensures
        match at {
            Some(at) => at == last_dot_of(name@),
            None => last_dot_of(name@) == -1,
        },
        name@.len() <= usize::MAX,
{
    let total = name.unicode_len();
    let mut found: Option<usize> = None;
    let mut count: usize = 0;
    assert(name@.take(0) =~= Seq::<char>::empty());
    for c in it: name.chars()
        invariant
            count == it.index(),
            it.seq() == name@,
            total == name@.len(),
            match found {
                Some(at) => at == last_dot_of(name@.take(count as int)),
                None => last_dot_of(name@.take(count as int)) == -1,
            },
    {
        proof {
            assert(name@.take(count as int + 1).drop_last() =~= name@.take(count as int));
            assert(name@.take(count as int + 1).last() == c);
        }
        if c == '.' {
            found = Some(count);
        }
        count += 1;
    }
    assert(name@.take(count as int) =~= name@);
    found
}

/// The extension of a file name.
pub fn extension_of_name(name: &str) -> (extension: Option<String>)
    ensures
        extension.deep_view() == name_extension(name@),
{
    match last_dot(name) {
        Some(at) => {
            if at == 0 {
                None
            } else {
                proof {
                    lemma_last_dot_of(name@);
                }
                let total = name.unicode_len();
                Some(String::from_str(name.substring_char(at + 1, total)))
            }
        },
        None => None,
    }
}

/// The stem of a file name.
pub fn stem_of_name(name: &str) -> (stem: String)
    ensures
        stem@ == name_stem(name@),
{
    match last_dot(name) {
        Some(at) => {
            if at == 0 {
                String::from_str(name)
            } else {
                proof {
                    lemma_last_dot_of(name@);
                }
                String::from_str(name.substring_char(0, at))
            }
        },
        None => String::from_str(name),
    }
}

/// The extension of the file name of `path`, without its dot.
pub fn extension_of(path: &str) -> (extension: Option<String>)
    ensures
        extension.deep_view() == path_extension(path@),
{
    match file_name_of(path) {
        Some(name) => extension_of_name(name.as_str()),
        None => None,
    }
}

/// The file name of `path` without its extension.
pub fn file_stem_of(path: &str) -> (stem: Option<String>)
    ensures
        stem.deep_view() == path_file_stem(path@),
{
    match file_name_of(path) {
        Some(name) => Some(stem_of_name(name.as_str())),
        None => None,
    }
}

/// The folder of a project: `projects/<name>`.
pub open spec fn project_dir_of(project: Seq<char>) -> Seq<char> {
    "projects/"@ + project
}

/// The image folder of a project: `projects/<name>/images`.
pub open spec fn images_dir_of(project: Seq<char>) -> Seq<char> {
    "projects/"@ + project + "/images"@
}

/// Where an image of a project lies: `projects/<name>/images/<image>`.
pub open spec fn image_path_of(project: Seq<char>, image: Seq<char>) -> Seq<char> {
    "projects/"@ + project + "/images/"@ + image
}

/// Where the evaluation ledger of a project lies:
/// `projects/<name>/image_evals.json`.
pub open spec fn evaluations_path_of(project: Seq<char>) -> Seq<char> {
    "projects/"@ + project + "/image_evals.json"@
}

/// Where the description of a project lies:
/// `projects/<name>/info.imgreader`.
pub open spec fn project_info_path_of(project: Seq<char>) -> Seq<char> {
    "projects/"@ + project + "/info.imgreader"@
}

/// What stands before a file's name in its relative name: nothing at the
/// root, and for a folder its name and a `/`. An empty folder name means the
/// root.
pub open spec fn folder_prefix_of(folder: Option<Seq<char>>) -> Seq<char> {
    match folder {
        Some(name) => if name.len() > 0 {
            name + "/"@
        } else {
            Seq::<char>::empty()
        },
        None => Seq::<char>::empty(),
    }
}

/// The folder of a project, relative to the application's folder.
pub fn project_dir(project_name: &str) -> (dir: String)
    ensures
        dir@ == project_dir_of(project_name@),
{
    concat2("projects/", project_name)
}

/// The image folder of a project, relative to the application's folder.
pub fn images_dir(project_name: &str) -> (dir: String)
    ensures
        dir@ == images_dir_of(project_name@),
{
    concat3("projects/", project_name, "/images")
}

/// Where an image of a project lies, relative to the application's folder.
pub fn image_path(project_name: &str, image_name: &str) -> (path: String)
    ensures
        path@ == image_path_of(project_name@, image_name@),
{
    let mut path = concat3("projects/", project_name, "/images/");
    path.append(image_name);
    path
}

/// Where the evaluation ledger of a project lies, relative to the
/// application's folder.
pub fn evaluations_path(project_name: &str) -> (path: String)
    ensures
        path@ == evaluations_path_of(project_name@),
{
    concat3("projects/", project_name, "/image_evals.json")
}

/// Where the description of a project lies, relative to the application's
/// folder.
pub fn project_info_path(project_name: &str) -> (path: String)
    ensures
        path@ == project_info_path_of(project_name@),
{
    concat3("projects/", project_name, "/info.imgreader")
}

/// What stands before a file's name in its relative name when it lies in
/// `folder`.
pub fn folder_prefix(folder: &Option<String>) -> (prefix: String)
    ensures
        prefix@ == folder_prefix_of(folder.deep_view()),
{
    match folder {
        Some(name) => {
            if name.as_str().is_empty() {
                String::new()
            } else {
                concat2(name.as_str(), "/")
            }
        },
        None => String::new(),
    }
}

} // verus!
