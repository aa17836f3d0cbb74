//! From what a caller found in a project's image folder to the images of the
//! project: every file at the root and every file one folder down, each with
//! its relative name.

use vstd::prelude::*;
use crate::paths::{file_name_of, path_file_name};
use crate::text::{concat3, names_of, pairs_of};

verus! {

/// One entry of a project's image folder, as the caller found it. Entries
/// that are neither a file nor a folder are left out by the caller.
#[derive(Debug, PartialEq, Eq)]
pub enum ProjectItem {
    /// A regular file, by its full path.
    File { path: String },
    /// A folder, by its full path, with the full paths of the regular files
    /// that lie directly in it (none where the folder could not be read).
    Folder { path: String, files: Vec<String> },
}

/// What an entry stands for.
pub enum ProjectItemView {
    File { path: Seq<char> },
    Folder { path: Seq<char>, files: Seq<Seq<char>> },
}

impl View for ProjectItem {
    type V = ProjectItemView;

    open spec fn view(&self) -> ProjectItemView {
        match self {
            ProjectItem::File { path } => ProjectItemView::File { path: path@ },
            ProjectItem::Folder { path, files } => ProjectItemView::Folder {
                path: path@,
                files: files@.map_values(|file: String| file@),
            },
        }
    }
}

/// What a list of entries stands for.
pub open spec fn items_of(items: Seq<ProjectItem>) -> Seq<ProjectItemView> {
    items.map_values(|item: ProjectItem| item@)
}

/// The file name of `path`, or nothing where it has none.
pub open spec fn name_or_empty(path: Seq<char>) -> Seq<char> {
    match path_file_name(path) {
        Some(name) => name,
        None => Seq::<char>::empty(),
    }
}

/// A file of the folder named `folder`, with its relative name
/// `<folder>/<file>`.
pub open spec fn file_in_folder(folder: Seq<char>, path: Seq<char>) -> (Seq<char>, Seq<char>) {
    (path, folder + "/"@ + name_or_empty(path))
}

/// The images that one entry contributes, each as full path and relative
/// name: a file itself, under its own name; a folder its files. A folder
/// whose path has no file name contributes nothing.
pub open spec fn images_of_item(item: ProjectItemView) -> Seq<(Seq<char>, Seq<char>)> {
    match item {
        ProjectItemView::File { path } => seq![(path, name_or_empty(path))],
        ProjectItemView::Folder { path, files } => match path_file_name(path) {
            Some(folder) => files.map_values(|file: Seq<char>| file_in_folder(folder, file)),
            None => Seq::empty(),
        },
    }
}

/// The images of a project, in the order of its entries.
pub open spec fn collected_images(items: Seq<ProjectItemView>) -> Seq<(Seq<char>, Seq<char>)>
    decreases items.len(),
{
    if items.len() == 0 {
        Seq::empty()
    } else {
        collected_images(items.drop_last()) + images_of_item(items.last())
    }
}

/// The images of a project: the files at the root of its image folder and
/// those one folder down, each as a pair of full path and relative name
/// (`file.jpg`, `folder/file.jpg`).
pub fn collect_image_files(base_items: &Vec<ProjectItem>) -> (images: Vec<(String, String)>)
    ensures
        pairs_of(images@) == collected_images(items_of(base_items@)),
{
    let ghost items = items_of(base_items@);
    let mut result: Vec<(String, String)> = Vec::new();
    let mut i: usize = 0;
    assert(pairs_of(result@) =~= collected_images(items.take(0)));
    while i < base_items.len()
        invariant
            i <= base_items.len(),
            items == items_of(base_items@),
            pairs_of(result@) == collected_images(items.take(i as int)),
        decreases base_items.len() - i,
    {
        proof {
            assert(items.take(i as int + 1).drop_last() =~= items.take(i as int));
            assert(items.take(i as int + 1).last() == base_items@[i as int]@);
        }
        let ghost done = pairs_of(result@);
        match &base_items[i] {
            ProjectItem::File { path } => {
                let name = match file_name_of(path.as_str()) {
                    Some(name) => name,
                    None => String::new(),
                };
                result.push((path.clone(), name));
                assert(pairs_of(result@) =~= done + images_of_item(base_items@[i as int]@));
            },
            ProjectItem::Folder { path, files } => {
                match file_name_of(path.as_str()) {
                    Some(folder) => {
                        let ghost inside = files@.map_values(|file: String| file@);
                        let mut j: usize = 0;
                        while j < files.len()
                            invariant
                                j <= files.len(),
                                inside == files@.map_values(|file: String| file@),
                                pairs_of(result@) == done + inside.take(j as int).map_values(
                                    |file: Seq<char>| file_in_folder(folder@, file),
                                ),
                            decreases files.len() - j,
                        {
                            let name = match file_name_of(files[j].as_str()) {
                                Some(name) => name,
                                None => String::new(),
                            };
                            let relative = concat3(folder.as_str(), "/", name.as_str());
                            let ghost so_far = pairs_of(result@);
                            result.push((files[j].clone(), relative));
                            assert(pairs_of(result@) =~= so_far.push(
                                file_in_folder(folder@, inside[j as int]),
                            ));
                            assert(inside.take(j as int + 1) =~= inside.take(j as int).push(
                                inside[j as int],
                            ));
                            assert(pairs_of(result@) =~= done + inside.take(
                                j as int + 1,
                            ).map_values(|file: Seq<char>| file_in_folder(folder@, file)));
                            j += 1;
                        }
                        assert(inside.take(files.len() as int) =~= inside);
                    },
                    None => {
                        assert(pairs_of(result@) =~= done + images_of_item(
                            base_items@[i as int]@,
                        ));
                    },
                }
            },
        }
        i += 1;
    }
    assert(items.take(base_items.len() as int) =~= items);
    result
}

/// The relative names of the files of a folder: `<folder>/<file>` for each
/// file name, in order.
pub open spec fn names_in_folder_of(folder: Seq<char>, file_names: Seq<Seq<char>>) -> Seq<
    Seq<char>,
> {
    file_names.map_values(|file: Seq<char>| folder + "/"@ + file)
}

/// The relative names of the files of a folder of a project, given the
/// folder's name and the names of its files.
pub fn names_in_folder(folder_name: &str, file_names: &Vec<String>) -> (names: Vec<String>)
    ensures
        names_of(names@) == names_in_folder_of(folder_name@, names_of(file_names@)),
{
    let mut names: Vec<String> = Vec::new();
    let mut i: usize = 0;
    while i < file_names.len()
        invariant
            i <= file_names.len(),
            names@.len() == i,
            forall|j: int|
                0 <= j < i ==> (#[trigger] names@[j])@ == folder_name@ + "/"@ + file_names@[j]@,
        decreases file_names.len() - i,
    {
        names.push(concat3(folder_name, "/", file_names[i].as_str()));
        i += 1;
    }
    assert(names_of(names@) =~= names_in_folder_of(folder_name@, names_of(file_names@)));
    names
}

} // verus!
