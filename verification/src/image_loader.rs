//! The image cache of the application: previews and full images of every
//! project, looked up by project and image name, filled on first use and
//! emptied for a project whenever its files change.
//!
//! The loader holds the two caches and decides; the caller lists folders,
//! reads, copies, renames and removes files, and reports what happened.
//!
//! Two rules hold throughout. Every entry lies under the key of its own image
//! name, in a project whose name holds no `/`, so that a key stands for one
//! image only. And whenever files of a project may have changed, by an import
//! or a move that got as far as its first file, everything cached for the
//! project is forgotten, whether the operation succeeded or not: too much may
//! be forgotten, never too little.

use vstd::prelude::*;
use crate::cache::{prefixed_keys, CacheMap};
use crate::codec::{
    base64_encode, base64_text, probe_dimensions, probed_dimensions, RawImage,
};
use crate::models::{FullImageModel, FullImageView, ImagePreviewModel, ImagePreviewView};
use crate::paths::{file_name_of, folder_prefix, folder_prefix_of, images_dir_of, path_file_name};
use crate::preview::{generate_preview, generated_preview, DecodedImage};
use crate::text::{concat2, concat3, names_of, pairs_of, str_eq};

verus! {

/// How many images may be decoded at the same time, so that a large import
/// does not exhaust memory.
pub const MAX_CONCURRENT_PREVIEWS: usize = 4;

/// The key of an image in the caches: `<project>/<image>`.
pub open spec fn cache_key_of(project: Seq<char>, image: Seq<char>) -> Seq<char> {
    project + "/"@ + image
}

/// What every key of a project starts with: `<project>/`.
pub open spec fn project_prefix_of(project: Seq<char>) -> Seq<char> {
    project + "/"@
}

/// The keys of the named images of a project.
pub open spec fn image_keys(project: Seq<char>, names: Seq<Seq<char>>) -> Set<Seq<char>> {
    Set::new(
        |key: Seq<char>|
            exists|i: int| 0 <= i < names.len() && key == cache_key_of(project, #[trigger] names[i]),
    )
}

/// One file to copy: from a path outside the store to a path in it.
#[derive(Debug, PartialEq, Eq)]
pub struct FileCopy {
    /// The file to copy, as the caller named it.
    pub source: String,
    /// Where the copy goes, relative to the application's folder.
    pub destination: String,
}

/// What an import has to do: the copies to make, in order, and the complaint
/// about the first source path that has no file name. Nothing is planned past
/// such a path.
#[derive(Debug, PartialEq, Eq)]
pub struct ImportPlan {
    pub copies: Vec<FileCopy>,
    pub rejected: Option<String>,
}

/// Where the copy of `source` goes when it is imported into `folder` of
/// `project`, given the file name of `source`.
pub open spec fn import_destination(
    project: Seq<char>,
    folder: Option<Seq<char>>,
    file_name: Seq<char>,
) -> Seq<char> {
    images_dir_of(project) + "/"@ + folder_prefix_of(folder) + file_name
}

/// One image to move: what it is called, what it will be called, and the two
/// store paths between which the file is renamed.
#[derive(Debug, PartialEq, Eq)]
pub struct PlannedMove {
    /// The image's relative name before the move.
    pub image_name: String,
    /// The image's relative name after the move.
    pub new_name: String,
    /// Where the file lies, relative to the application's folder.
    pub source: String,
    /// Where the file will lie, relative to the application's folder.
    pub destination: String,
    /// Whether the image lies where it is meant to go already, so that no
    /// file is to be renamed.
    pub stays: bool,
}

/// What a planned move stands for.
pub struct PlannedMoveView {
    pub image_name: Seq<char>,
    pub new_name: Seq<char>,
    pub source: Seq<char>,
    pub destination: Seq<char>,
    pub stays: bool,
}

impl View for PlannedMove {
    type V = PlannedMoveView;

    open spec fn view(&self) -> PlannedMoveView {
        PlannedMoveView {
            image_name: self.image_name@,
            new_name: self.new_name@,
            source: self.source@,
            destination: self.destination@,
            stays: self.stays,
        }
    }
}

/// What a move has to do: the images to move, in order, and the complaint
/// about the first image name that has no file name. Nothing is planned past
/// such a name.
#[derive(Debug, PartialEq, Eq)]
pub struct MovePlan {
    pub moves: Vec<PlannedMove>,
    pub rejected: Option<String>,
}

/// The move of the image `image_name`, whose file name is `file_name`, into
/// `folder` of `project`.
pub open spec fn planned_move(
    project: Seq<char>,
    folder: Option<Seq<char>>,
    image_name: Seq<char>,
    file_name: Seq<char>,
) -> PlannedMoveView {
    let new_name = folder_prefix_of(folder) + file_name;
    PlannedMoveView {
        image_name,
        new_name,
        source: images_dir_of(project) + "/"@ + image_name,
        destination: images_dir_of(project) + "/"@ + new_name,
        stays: image_name == new_name,
    }
}

/// The images of a folder listing, split by whether their preview is cached.
#[derive(Debug, PartialEq, Eq)]
pub struct PreviewLookup {
    /// The cached previews, in the order of the listing.
    pub cached: Vec<ImagePreviewModel>,
    /// The files without a cached preview, each as full path and relative
    /// name, in the order of the listing.
    pub uncached: Vec<(String, String)>,
}

/// A name that can be told apart from what follows it in a key: it holds no
/// `/`. Only projects with such a name have anything cached.
pub open spec fn plain_name(name: Seq<char>) -> bool {
    forall|i: int| 0 <= i < name.len() ==> name[i] != '/'
}

/// Whether `key` is the key of an image called `image` in a project with a
/// plain name.
pub open spec fn keyed_by(key: Seq<char>, image: Seq<char>) -> bool {
    exists|project: Seq<char>| plain_name(project) && key == #[trigger] cache_key_of(project, image)
}

/// Every preview lies under the key of its own image name.
pub open spec fn previews_keyed(previews: Map<Seq<char>, ImagePreviewModel>) -> bool {
    forall|key: Seq<char>| #[trigger]
        previews.contains_key(key) ==> keyed_by(key, previews[key].image_name@)
}

/// Every full image lies under the key of its own image name.
pub open spec fn full_images_keyed(images: Map<Seq<char>, FullImageModel>) -> bool {
    forall|key: Seq<char>| #[trigger]
        images.contains_key(key) ==> keyed_by(key, images[key].image_name@)
}

/// Whether a file of `files`, pairs of full path and relative name, carries
/// the relative name `name`.
pub open spec fn listed_name(files: Seq<(Seq<char>, Seq<char>)>, name: Seq<char>) -> bool {
    exists|i: int| 0 <= i < files.len() && (#[trigger] files[i]).1 == name
}

/// Whether `preview` belongs to a listed file of `project` and is what
/// `previews` holds under the key of its own name.
pub open spec fn served(
    previews: Map<Seq<char>, ImagePreviewModel>,
    project: Seq<char>,
    files: Seq<(Seq<char>, Seq<char>)>,
    preview: ImagePreviewModel,
) -> bool {
    &&& listed_name(files, preview.image_name@)
    &&& previews.contains_key(cache_key_of(project, preview.image_name@))
    &&& previews[cache_key_of(project, preview.image_name@)] == preview
}

/// The files of `files`, pairs of full path and relative name, that have no
/// preview in `previews`. For a project whose name is not plain nothing is
/// cached, so every file is among them.
pub open spec fn uncached_files(
    previews: Map<Seq<char>, ImagePreviewModel>,
    project: Seq<char>,
    files: Seq<(Seq<char>, Seq<char>)>,
) -> Seq<(Seq<char>, Seq<char>)> {
    if plain_name(project) {
        files.filter(
            |file: (Seq<char>, Seq<char>)| !previews.contains_key(cache_key_of(project, file.1)),
        )
    } else {
        files
    }
}

/// The previews in `previews` of the files of `files`, in order.
pub open spec fn cached_previews(
    previews: Map<Seq<char>, ImagePreviewModel>,
    project: Seq<char>,
    files: Seq<(Seq<char>, Seq<char>)>,
) -> Seq<ImagePreviewModel> {
    if plain_name(project) {
        files.filter(
            |file: (Seq<char>, Seq<char>)| previews.contains_key(cache_key_of(project, file.1)),
        ).map_values(|file: (Seq<char>, Seq<char>)| previews[cache_key_of(project, file.1)])
    } else {
        Seq::empty()
    }
}

/// `previews` after each entry of `fresh` was stored under its key, in order.
pub open spec fn stored(
    previews: Map<Seq<char>, ImagePreviewModel>,
    fresh: Seq<(ImagePreviewModel, String)>,
) -> Map<Seq<char>, ImagePreviewModel>
    decreases fresh.len(),
{
    if fresh.len() == 0 {
        previews
    } else {
        stored(previews, fresh.drop_last()).insert(fresh.last().1@, fresh.last().0)
    }
}

/// Whether a generated preview is taken into `previews`: it comes under the
/// key of its own name, that name is the name of a listed file, and nothing
/// is cached under the key yet.
pub open spec fn acceptable(
    previews: Map<Seq<char>, ImagePreviewModel>,
    project: Seq<char>,
    files: Seq<(Seq<char>, Seq<char>)>,
    entry: (ImagePreviewModel, String),
) -> bool {
    &&& entry.1@ == cache_key_of(project, entry.0.image_name@)
    &&& listed_name(files, entry.0.image_name@)
    &&& !previews.contains_key(entry.1@)
}

/// The generated previews that are taken into `previews`, each with its key,
/// in order: failures are left out, and so is every preview that is not
/// acceptable when its turn comes.
pub open spec fn accepted(
    previews: Map<Seq<char>, ImagePreviewModel>,
    project: Seq<char>,
    files: Seq<(Seq<char>, Seq<char>)>,
    generated: Seq<Result<(ImagePreviewModel, String), String>>,
) -> Seq<(ImagePreviewModel, String)>
    decreases generated.len(),
{
    if generated.len() == 0 {
        Seq::empty()
    } else {
        let before = accepted(previews, project, files, generated.drop_last());
        match generated.last() {
            Ok(entry) => if acceptable(stored(previews, before), project, files, entry) {
                before.push(entry)
            } else {
                before
            },
            Err(_) => before,
        }
    }
}

/// The previews of a list of entries, in order.
pub open spec fn previews_of(fresh: Seq<(ImagePreviewModel, String)>) -> Seq<ImagePreviewModel> {
    fresh.map_values(|entry: (ImagePreviewModel, String)| entry.0)
}

/// The images whose files were removed: the first `removed` of `names`, all
/// of them where `removed` is larger than their number.
pub open spec fn removed_names(names: Seq<Seq<char>>, removed: usize) -> Seq<Seq<char>> {
    if removed <= names.len() {
        names.take(removed as int)
    } else {
        names
    }
}

/// Within the projects with a plain name, a key stands for one project and
/// one image only.
pub proof fn lemma_key_decomposes(
    project: Seq<char>,
    image: Seq<char>,
    other_project: Seq<char>,
    other_image: Seq<char>,
)
    requires
        plain_name(project),
        plain_name(other_project),
        cache_key_of(project, image) == cache_key_of(other_project, other_image),
    ensures
        project == other_project,
        image == other_image,
{
    reveal_strlit("/");
    let key = cache_key_of(project, image);
    let other_key = cache_key_of(other_project, other_image);
    assert(key[project.len() as int] == '/');
    assert(other_key[other_project.len() as int] == '/');
    if project.len() < other_project.len() {
        assert(other_key[project.len() as int] == other_project[project.len() as int]);
    } else if other_project.len() < project.len() {
        assert(key[other_project.len() as int] == project[other_project.len() as int]);
    } else {
        assert(project =~= key.subrange(0, project.len() as int));
        assert(other_project =~= other_key.subrange(0, project.len() as int));
        crate::text::lemma_same_prefix_same_rest(project + "/"@, image, other_image);
    }
}

/// An entry that lies under the key of `image` in a project with a plain name
/// is called `image`.
pub proof fn lemma_keyed_name(project: Seq<char>, image: Seq<char>, name: Seq<char>)
    requires
        plain_name(project),
        keyed_by(cache_key_of(project, image), name),
    ensures
        name == image,
{
    let other = choose|other: Seq<char>|
        plain_name(other) && cache_key_of(project, image) == #[trigger] cache_key_of(other, name);
    lemma_key_decomposes(project, image, other, name);
}

/// Whether `name` holds no `/`.
pub fn is_plain_name(name: &str) -> (plain: bool)
    ensures
        plain == plain_name(name@),
{
    let mut plain = true;
    for c in it: name.chars()
        invariant
            it.seq() == name@,
            plain == (forall|i: int| 0 <= i < it.index() ==> name@[i] != '/'),
    {
        if c == '/' {
            plain = false;
        }
    }
    plain
}

/// Whether a file of `files` carries the relative name `name`.
pub fn lists_name(files: &Vec<(String, String)>, name: &str) -> (listed: bool)
    ensures
        listed == listed_name(pairs_of(files@), name@),
{
    let mut i: usize = 0;
    while i < files.len()
        invariant
            i <= files.len(),
            forall|j: int| 0 <= j < i ==> (#[trigger] pairs_of(files@)[j]).1 != name@,
        decreases files.len() - i,
    {
        if str_eq(files[i].1.as_str(), name) {
            assert(pairs_of(files@)[i as int].1 == name@);
            return true;
        }
        i += 1;
    }
    false
}

/// The complaint about a project name that holds a `/`.
pub fn invalid_project_message(project_name: &str) -> (message: String)
    ensures
        message@ == "Invalid project name: "@ + project_name@,
{
    concat2("Invalid project name: ", project_name)
}

/// The full image that the file `image_name` with content `bytes` stands
/// for: the content in base64, and the width and height that the file's
/// header shows, both 0 where it shows none.
pub open spec fn full_image_of(image_name: Seq<char>, bytes: Seq<u8>, size_bytes: u64) -> FullImageView {
    FullImageView {
        image_name,
        base64_image: base64_text(bytes),
        image_size_bytes: size_bytes,
        width: match probed_dimensions(image_name, bytes) {
            Some(size) => size.0,
            None => 0,
        },
        height: match probed_dimensions(image_name, bytes) {
            Some(size) => size.1,
            None => 0,
        },
    }
}

/// The preview entry of an image, given the preview that was generated for
/// it.
pub open spec fn preview_entry_of(
    image_name: Seq<char>,
    size_bytes: u64,
    preview: (Seq<char>, u32, u32),
) -> ImagePreviewView {
    ImagePreviewView {
        image_name,
        base64_preview: preview.0,
        image_size_bytes: size_bytes,
        width: preview.1,
        height: preview.2,
    }
}

/// The two caches of the application. Each entry lies under the key of its
/// own image name, in a project whose name holds no `/`.
pub struct ImageLoaderComponent {
    /// Full images by key.
    full_image_cache: CacheMap<FullImageModel>,
    /// Previews by key.
    preview_cache: CacheMap<ImagePreviewModel>,
}

impl ImageLoaderComponent {
    #[verifier::type_invariant]
    spec fn well_keyed(self) -> bool {
        previews_keyed(self.preview_cache@) && full_images_keyed(self.full_image_cache@)
    }

    /// The cached previews, by key.
    pub closed spec fn previews(&self) -> Map<Seq<char>, ImagePreviewModel> {
        self.preview_cache@
    }

    /// The cached full images, by key.
    pub closed spec fn full_images(&self) -> Map<Seq<char>, FullImageModel> {
        self.full_image_cache@
    }

    /// A loader with both caches empty.
    pub fn new() -> (loader: Self)
        ensures
            loader.previews() == Map::<Seq<char>, ImagePreviewModel>::empty(),
            loader.full_images() == Map::<Seq<char>, FullImageModel>::empty(),
    {
        ImageLoaderComponent { full_image_cache: CacheMap::new(), preview_cache: CacheMap::new() }
    }

    /// The key of an image in the caches.
    pub fn cache_key(project_name: &str, image_name: &str) -> (key: String)
        ensures
            key@ == cache_key_of(project_name@, image_name@),
    {
        concat3(project_name, "/", image_name)
    }

    /// Ends a deletion of images of a project. The files of the images are
    /// removed one by one, in the order of `image_names`, until one cannot be
    /// removed. `removed` says how many were removed, `failure` is the
    /// message of the removal that failed, or `None` where none did.
    ///
    /// What is cached for the images whose files were removed is forgotten,
    /// previews and full images alike. Entries of every other image stay,
    /// those of the image that could not be removed and of the images after
    /// it as well. The deletion fails with the message of the failure, if
    /// there was one.
    pub fn delete_images_from_project(
        &mut self,
        project_name: &str,
        image_names: &Vec<String>,
        removed: usize,
        failure: Option<String>,
    ) -> (done: Result<(), String>)
        ensures
            done == (match failure {
                Some(message) => Err::<(), String>(message),
                None => Ok(()),
            }),
            final(self).previews() == old(self).previews().remove_keys(
                image_keys(project_name@, removed_names(names_of(image_names@), removed)),
            ),
            final(self).full_images() == old(self).full_images().remove_keys(
                image_keys(project_name@, removed_names(names_of(image_names@), removed)),
            ),
    {
        proof {
            use_type_invariant(&*self);
        }
        let ghost names = names_of(image_names@);
        let ghost project = project_name@;
        let ghost previews_before = self.preview_cache@;
        let ghost images_before = self.full_image_cache@;
        let count = if removed <= image_names.len() {
            removed
        } else {
            image_names.len()
        };
        let mut previews: CacheMap<ImagePreviewModel> = CacheMap::new();
        let mut images: CacheMap<FullImageModel> = CacheMap::new();
        std::mem::swap(&mut self.preview_cache, &mut previews);
        std::mem::swap(&mut self.full_image_cache, &mut images);
        let mut i: usize = 0;
        assert(previews@ =~= previews_before.remove_keys(image_keys(project, names.take(0))));
        assert(images@ =~= images_before.remove_keys(image_keys(project, names.take(0))));
        while i < count
            invariant
                i <= count <= image_names.len(),
                names == names_of(image_names@),
                project == project_name@,
                previews@ == previews_before.remove_keys(image_keys(project, names.take(i as int))),
                images@ == images_before.remove_keys(image_keys(project, names.take(i as int))),
            decreases count - i,
        {
            let key = Self::cache_key(project_name, image_names[i].as_str());
            previews.remove(key.as_str());
            images.remove(key.as_str());
            proof {
                let before = image_keys(project, names.take(i as int));
                let after = image_keys(project, names.take(i as int + 1));
                assert(names.take(i as int + 1)[i as int] == names[i as int]);
                assert forall|k: Seq<char>| after.contains(k) <==> before.insert(key@).contains(
                    k,
                ) by {
                    if before.contains(k) {
                        let j = choose|j: int|
                            0 <= j < names.take(i as int).len() && k == cache_key_of(
                                project,
                                #[trigger] names.take(i as int)[j],
                            );
                        assert(names.take(i as int + 1)[j] == names.take(i as int)[j]);
                    }
                    if after.contains(k) {
                        let j = choose|j: int|
                            0 <= j < names.take(i as int + 1).len() && k == cache_key_of(
                                project,
                                #[trigger] names.take(i as int + 1)[j],
                            );
                        if j < i {
                            assert(names.take(i as int)[j] == names.take(i as int + 1)[j]);
                        }
                    }
                }
                assert(after =~= before.insert(key@));
                assert(previews@ =~= previews_before.remove_keys(after));
                assert(images@ =~= images_before.remove_keys(after));
            }
            i += 1;
        }
        assert(names.take(count as int) =~= removed_names(names, removed));
        self.preview_cache = previews;
        self.full_image_cache = images;
        match failure {
            Some(message) => Err(message),
            None => Ok(()),
        }
    }

    /// Forgets everything that is cached for a project: every entry whose key
    /// starts with `<project>/`. Entries of other projects stay.
    pub fn clear_project_cache(&mut self, project_name: &str)
        ensures
            final(self).previews() == old(self).previews().remove_keys(
                prefixed_keys(project_prefix_of(project_name@)),
            ),
            final(self).full_images() == old(self).full_images().remove_keys(
                prefixed_keys(project_prefix_of(project_name@)),
            ),
    {
        proof {
            use_type_invariant(&*self);
        }
        let prefix = concat2(project_name, "/");
        let mut previews: CacheMap<ImagePreviewModel> = CacheMap::new();
        let mut images: CacheMap<FullImageModel> = CacheMap::new();
        std::mem::swap(&mut self.preview_cache, &mut previews);
        std::mem::swap(&mut self.full_image_cache, &mut images);
        previews.remove_prefixed(prefix.as_str());
        images.remove_prefixed(prefix.as_str());
        self.preview_cache = previews;
        self.full_image_cache = images;
    }

    /// Plans the import of files into a project, under `folder` or, where
    /// none is named, at the root of the image folder: for each source path
    /// in turn the copy to make, under the file name of the source. Planning
    /// stops at the first source path that has no file name, with a complaint
    /// about it; the copies planned before it are still to be made.
    pub fn plan_import(
        project_name: &str,
        image_paths: &Vec<String>,
        folder: &Option<String>,
    ) -> (plan: ImportPlan)
        ensures
            plan.copies@.len() <= image_paths@.len(),
            forall|i: int|
                #![trigger image_paths@[i]]
                0 <= i < plan.copies@.len() ==> {
                    &&& path_file_name(image_paths@[i]@) is Some
                    &&& plan.copies@[i].source@ == image_paths@[i]@
                    &&& plan.copies@[i].destination@ == import_destination(
                        project_name@,
                        folder.deep_view(),
                        path_file_name(image_paths@[i]@)->0,
                    )
                },
            match plan.rejected {
                None => plan.copies@.len() == image_paths@.len(),
                Some(message) => {
                    &&& plan.copies@.len() < image_paths@.len()
                    &&& path_file_name(image_paths@[plan.copies@.len() as int]@) is None
                    &&& message@ == "Invalid file path: "@ + image_paths@[plan.copies@.len() as int]@
                },
            },
    {
        let prefix = folder_prefix(folder);
        let target = concat3(crate::paths::images_dir(project_name).as_str(), "/", prefix.as_str());
        let mut copies: Vec<FileCopy> = Vec::new();
        let mut i: usize = 0;
        while i < image_paths.len()
            invariant
                i <= image_paths.len(),
                copies@.len() == i,
                target@ == images_dir_of(project_name@) + "/"@ + folder_prefix_of(
                    folder.deep_view(),
                ),
                forall|j: int|
                    #![trigger image_paths@[j]]
                    0 <= j < i ==> {
                        &&& path_file_name(image_paths@[j]@) is Some
                        &&& copies@[j].source@ == image_paths@[j]@
                        &&& copies@[j].destination@ == import_destination(
                            project_name@,
                            folder.deep_view(),
                            path_file_name(image_paths@[j]@)->0,
                        )
                    },
            decreases image_paths.len() - i,
        {
            let source = &image_paths[i];
            match file_name_of(source.as_str()) {
                Some(file_name) => {
                    let destination = concat2(target.as_str(), file_name.as_str());
                    copies.push(FileCopy { source: source.clone(), destination });
                },
                None => {
                    let message = concat2("Invalid file path: ", source.as_str());
                    return ImportPlan { copies, rejected: Some(message) };
                },
            }
            i += 1;
        }
        ImportPlan { copies, rejected: None }
    }

    /// Ends an import. `copy_failure` is the message of the first copy of the
    /// plan that failed, after which no further copy was tried, or `None`
    /// where every copy was made.
    ///
    /// Where a copy failed, the import fails with that message; where the
    /// plan holds a complaint, with that complaint; otherwise it succeeds.
    /// Whenever a copy was made or tried, whatever the end, everything cached
    /// for the project is forgotten, whichever images were imported: a copy
    /// may have replaced an image that has a cached entry. The caches stay as
    /// they are only where the import fails before any copy was planned.
    pub fn import_images_to_project(
        &mut self,
        project_name: &str,
        plan: &ImportPlan,
        copy_failure: Option<String>,
    ) -> (done: Result<(), String>)
        ensures
            done == (match copy_failure {
                Some(message) => Err::<(), String>(message),
                None => match plan.rejected {
                    Some(message) => Err(message),
                    None => Ok(()),
                },
            }),
            final(self).previews() == (if done is Ok || copy_failure is Some || plan.copies@.len()
                > 0 {
                old(self).previews().remove_keys(prefixed_keys(project_prefix_of(project_name@)))
            } else {
                old(self).previews()
            }),
            final(self).full_images() == (if done is Ok || copy_failure is Some
                || plan.copies@.len() > 0 {
                old(self).full_images().remove_keys(
                    prefixed_keys(project_prefix_of(project_name@)),
                )
            } else {
                old(self).full_images()
            }),
    {
        if let Some(message) = copy_failure {
            self.clear_project_cache(project_name);
            return Err(message);
        }
        if let Some(message) = &plan.rejected {
            if plan.copies.len() > 0 {
                self.clear_project_cache(project_name);
            }
            return Err(message.clone());
        }
        self.clear_project_cache(project_name);
        Ok(())
    }

    /// Plans the move of images of a project into `target_folder` or, where
    /// none is named, to the root of the image folder: for each image in turn
    /// its new name, the folder's name before its file name, and the rename
    /// to make. An image that lies there already stays. Planning stops at the
    /// first image name that has no file name, with a complaint about it; the
    /// renames planned before it are still to be made.
    pub fn plan_move(
        project_name: &str,
        image_names: &Vec<String>,
        target_folder: &Option<String>,
    ) -> (plan: MovePlan)
        ensures
            plan.moves@.len() <= image_names@.len(),
            forall|i: int|
                #![trigger image_names@[i]]
                0 <= i < plan.moves@.len() ==> {
                    &&& path_file_name(image_names@[i]@) is Some
                    &&& plan.moves@[i]@ == planned_move(
                        project_name@,
                        target_folder.deep_view(),
                        image_names@[i]@,
                        path_file_name(image_names@[i]@)->0,
                    )
                },
            match plan.rejected {
                None => plan.moves@.len() == image_names@.len(),
                Some(message) => {
                    &&& plan.moves@.len() < image_names@.len()
                    &&& path_file_name(image_names@[plan.moves@.len() as int]@) is None
                    &&& message@ == "Invalid image name: "@ + image_names@[plan.moves@.len() as int]@
                },
            },
    {
        let prefix = folder_prefix(target_folder);
        let base = concat2(crate::paths::images_dir(project_name).as_str(), "/");
        let mut moves: Vec<PlannedMove> = Vec::new();
        let mut i: usize = 0;
        while i < image_names.len()
            invariant
                i <= image_names.len(),
                moves@.len() == i,
                prefix@ == folder_prefix_of(target_folder.deep_view()),
                base@ == images_dir_of(project_name@) + "/"@,
                forall|j: int|
                    #![trigger image_names@[j]]
                    0 <= j < i ==> {
                        &&& path_file_name(image_names@[j]@) is Some
                        &&& moves@[j]@ == planned_move(
                            project_name@,
                            target_folder.deep_view(),
                            image_names@[j]@,
                            path_file_name(image_names@[j]@)->0,
                        )
                    },
            decreases image_names.len() - i,
        {
            let image_name = &image_names[i];
            match file_name_of(image_name.as_str()) {
                Some(file_name) => {
                    let new_name = concat2(prefix.as_str(), file_name.as_str());
                    let source = concat2(base.as_str(), image_name.as_str());
                    let destination = concat2(base.as_str(), new_name.as_str());
                    let stays = str_eq(image_name.as_str(), new_name.as_str());
                    moves.push(
                        PlannedMove {
                            image_name: image_name.clone(),
                            new_name,
                            source,
                            destination,
                            stays,
                        },
                    );
                },
                None => {
                    let message = concat2("Invalid image name: ", image_name.as_str());
                    return MovePlan { moves, rejected: Some(message) };
                },
            }
            i += 1;
        }
        MovePlan { moves, rejected: None }
    }

    /// The complaint about a rename that failed with `error`.
    pub fn move_failure_message(planned: &PlannedMove, error: &str) -> (message: String)
        ensures
            message@ == "Failed to move "@ + planned.image_name@ + " to "@ + planned.new_name@
                + ": "@ + error@,
    {
        let mut message = concat3("Failed to move ", planned.image_name.as_str(), " to ");
        message.append(planned.new_name.as_str());
        message.append(": ");
        message.append(error);
        message
    }

    /// Ends a move. `rename_failure` is the complaint about the first rename
    /// of the plan that failed, after which no further rename was tried, or
    /// `None` where every rename was made.
    ///
    /// Where a rename failed, the move fails with that complaint; where the
    /// plan holds a complaint, with that one; otherwise the new names of the
    /// images come back, in the order in which the images were named.
    /// Whenever a rename was made or tried, whatever the end, everything
    /// cached for the project is forgotten, so that no entry outlives the
    /// move of its file. The caches stay as they are only where the move
    /// fails before any image was planned to move.
    pub fn move_images_in_project(
        &mut self,
        project_name: &str,
        plan: &MovePlan,
        rename_failure: Option<String>,
    ) -> (moved: Result<Vec<String>, String>)
        ensures
            match moved {
                Ok(new_names) => {
                    &&& rename_failure is None
                    &&& plan.rejected is None
                    &&& new_names@.len() == plan.moves@.len()
                    &&& forall|i: int|
                        0 <= i < new_names@.len() ==> #[trigger] new_names@[i]
                            == plan.moves@[i].new_name
                },
                Err(message) => match rename_failure {
                    Some(failure) => message == failure,
                    None => plan.rejected == Some(message),
                },
            },
            final(self).previews() == (if moved is Ok || rename_failure is Some
                || plan.moves@.len() > 0 {
                old(self).previews().remove_keys(prefixed_keys(project_prefix_of(project_name@)))
            } else {
                old(self).previews()
            }),
            final(self).full_images() == (if moved is Ok || rename_failure is Some
                || plan.moves@.len() > 0 {
                old(self).full_images().remove_keys(
                    prefixed_keys(project_prefix_of(project_name@)),
                )
            } else {
                old(self).full_images()
            }),
    {
        if let Some(message) = rename_failure {
            self.clear_project_cache(project_name);
            return Err(message);
        }
        if let Some(message) = &plan.rejected {
            if plan.moves.len() > 0 {
                self.clear_project_cache(project_name);
            }
            return Err(message.clone());
        }
        let mut new_names: Vec<String> = Vec::new();
        let mut i: usize = 0;
        while i < plan.moves.len()
            invariant
                i <= plan.moves.len(),
                new_names@.len() == i,
                forall|j: int| 0 <= j < i ==> #[trigger] new_names@[j] == plan.moves@[j].new_name,
            decreases plan.moves.len() - i,
        {
            new_names.push(plan.moves[i].new_name.clone());
            i += 1;
        }
        self.clear_project_cache(project_name);
        Ok(new_names)
    }

    /// Splits the images of a folder listing, pairs of full path and relative
    /// name, into those whose preview is cached and those for which one has
    /// to be generated. Each cached preview carries the name of its file. For
    /// a project whose name holds a `/` nothing is cached.
    pub fn split_cached_previews(
        &self,
        project_name: &str,
        file_entries: &Vec<(String, String)>,
    ) -> (lookup: PreviewLookup)
        ensures
            lookup.cached@ == cached_previews(
                self.previews(),
                project_name@,
                pairs_of(file_entries@),
            ),
            pairs_of(lookup.uncached@) == uncached_files(
                self.previews(),
                project_name@,
                pairs_of(file_entries@),
            ),
            forall|i: int|
                0 <= i < lookup.cached@.len() ==> served(
                    self.previews(),
                    project_name@,
                    pairs_of(file_entries@),
                    #[trigger] lookup.cached@[i],
                ),
            previews_keyed(self.previews()),
    {
        proof {
            use_type_invariant(self);
        }
        let ghost files = pairs_of(file_entries@);
        let ghost previews = self.previews();
        let ghost project = project_name@;
        let plain = is_plain_name(project_name);
        let mut cached: Vec<ImagePreviewModel> = Vec::new();
        let mut uncached: Vec<(String, String)> = Vec::new();
        let mut i: usize = 0;
        proof {
            reveal(Seq::filter);
            assert(files.take(0) =~= Seq::<(Seq<char>, Seq<char>)>::empty());
            assert(cached@ =~= cached_previews(previews, project, files.take(0)));
            assert(pairs_of(uncached@) =~= uncached_files(previews, project, files.take(0)));
        }
        while i < file_entries.len()
            invariant
                i <= file_entries.len(),
                files == pairs_of(file_entries@),
                previews == self.previews(),
                previews_keyed(previews),
                project == project_name@,
                plain == plain_name(project),
                cached@ == cached_previews(previews, project, files.take(i as int)),
                pairs_of(uncached@) == uncached_files(previews, project, files.take(i as int)),
                forall|j: int|
                    0 <= j < cached@.len() ==> served(previews, project, files, #[trigger] cached@[j]),
            decreases file_entries.len() - i,
        {
            proof {
                reveal(Seq::filter);
                assert(files.take(i as int + 1).drop_last() =~= files.take(i as int));
                assert(files.take(i as int + 1).last() == files[i as int]);
                assert(files.take(i as int + 1) =~= files.take(i as int).push(files[i as int]));
            }
            let key = Self::cache_key(project_name, file_entries[i].1.as_str());
            let found = if plain {
                self.preview_cache.get(key.as_str())
            } else {
                None
            };
            match found {
                Some(preview) => {
                    proof {
                        lemma_keyed_name(project, files[i as int].1, preview.image_name@);
                    }
                    cached.push(preview.clone());
                    assert(cached@ =~= cached_previews(previews, project, files.take(i as int)).push(
                        previews[cache_key_of(project, files[i as int].1)],
                    ));
                },
                None => {
                    uncached.push((file_entries[i].0.clone(), file_entries[i].1.clone()));
                    assert(pairs_of(uncached@) =~= uncached_files(
                        previews,
                        project,
                        files.take(i as int),
                    ).push(files[i as int]));
                },
            }
            i += 1;
        }
        assert(files.take(file_entries.len() as int) =~= files);
        PreviewLookup { cached, uncached }
    }

    /// The complaint about an image whose preview could not be generated,
    /// because of `error`.
    pub fn preview_failure_message(image_name: &str, error: &str) -> (message: String)
        ensures
            message@ == "Failed to generate preview for "@ + image_name@ + ": "@ + error@,
    {
        let mut message = concat3("Failed to generate preview for ", image_name, ": ");
        message.append(error);
        message
    }

    /// Generates the preview entry of one image of a project, with the key
    /// under which it is cached.
    ///
    /// `path` and `bytes` are the image file and its content, `size_bytes`
    /// the size of the file, `accelerated` what a faster JPEG decoder made of
    /// the bytes, if it was tried and succeeded. The entry holds the width
    /// and height of the image itself. Fails, naming the image, when the
    /// preview cannot be generated.
    pub fn generate_preview_entry(
        project_name: &str,
        image_name: &str,
        path: &str,
        bytes: &Vec<u8>,
        size_bytes: u64,
        accelerated: Option<DecodedImage>,
    ) -> (entry: Result<(ImagePreviewModel, String), String>)
        ensures
            match entry {
                Ok(entry) => {
                    &&& generated_preview(path@, bytes@, accelerated_view(accelerated)) is Ok
                    &&& entry.0@ == preview_entry_of(
                        image_name@,
                        size_bytes,
                        generated_preview(path@, bytes@, accelerated_view(accelerated))->Ok_0,
                    )
                    &&& entry.1@ == cache_key_of(project_name@, image_name@)
                },
                Err(message) => {
                    &&& generated_preview(path@, bytes@, accelerated_view(accelerated)) is Err
                    &&& message@ == "Failed to generate preview for "@ + image_name@ + ": "@
                        + generated_preview(path@, bytes@, accelerated_view(accelerated))->Err_0
                },
            },
    {
        match generate_preview(path, bytes, accelerated) {
            Ok((base64_preview, width, height)) => {
                let key = Self::cache_key(project_name, image_name);
                let model = ImagePreviewModel {
                    image_name: String::from_str(image_name),
                    base64_preview,
                    image_size_bytes: size_bytes,
                    width,
                    height,
                };
                Ok((model, key))
            },
            Err(error) => Err(Self::preview_failure_message(image_name, error.as_str())),
        }
    }

    /// Ends a listing of the previews of a project. `file_entries` are the
    /// images of the listing, pairs of full path and relative name;
    /// `generated` is what became of the previews that had to be generated.
    ///
    /// Gives back the previews of the listing: first those that are cached,
    /// in the order of the listing, then those generated ones that are taken
    /// into the cache, in the order of `generated`. A generated preview is
    /// taken where it comes under the key of its own name, that name is the
    /// name of a listed file, and nothing is cached under the key yet;
    /// previews that could not be generated are left out. So every preview
    /// that comes back belongs to a listed file and is cached under the key
    /// of its name afterwards, nothing that was cached before changes, and
    /// nothing else is cached. Full images are not touched. Fails, and
    /// changes nothing, for a project whose name holds a `/`.
    pub fn get_image_previews_in_project(
        &mut self,
        project_name: &str,
        file_entries: &Vec<(String, String)>,
        generated: &Vec<Result<(ImagePreviewModel, String), String>>,
    ) -> (listed: Result<Vec<ImagePreviewModel>, String>)
        ensures
            match listed {
                Ok(all) => {
                    &&& plain_name(project_name@)
                    &&& all@ == cached_previews(
                        old(self).previews(),
                        project_name@,
                        pairs_of(file_entries@),
                    ) + previews_of(
                        accepted(
                            old(self).previews(),
                            project_name@,
                            pairs_of(file_entries@),
                            generated@,
                        ),
                    )
                    &&& final(self).previews() == stored(
                        old(self).previews(),
                        accepted(
                            old(self).previews(),
                            project_name@,
                            pairs_of(file_entries@),
                            generated@,
                        ),
                    )
                    &&& forall|i: int|
                        0 <= i < all@.len() ==> served(
                            final(self).previews(),
                            project_name@,
                            pairs_of(file_entries@),
                            #[trigger] all@[i],
                        )
                    &&& forall|key: Seq<char>| #[trigger]
                        old(self).previews().contains_key(key) ==> {
                            &&& final(self).previews().contains_key(key)
                            &&& final(self).previews()[key] == old(self).previews()[key]
                        }
                    &&& forall|key: Seq<char>| #[trigger]
                        final(self).previews().contains_key(key) ==> {
                            ||| old(self).previews().contains_key(key)
                            ||| exists|i: int|
                                0 <= i < all@.len() && key == cache_key_of(
                                    project_name@,
                                    (#[trigger] all@[i]).image_name@,
                                )
                        }
                },
                Err(message) => {
                    &&& !plain_name(project_name@)
                    &&& message@ == "Invalid project name: "@ + project_name@
                    &&& final(self).previews() == old(self).previews()
                },
            },
            final(self).full_images() == old(self).full_images(),
    {
        proof {
            use_type_invariant(&*self);
        }
        if !is_plain_name(project_name) {
            return Err(invalid_project_message(project_name));
        }
        let ghost project = project_name@;
        let ghost files = pairs_of(file_entries@);
        let ghost before = self.preview_cache@;
        let lookup = self.split_cached_previews(project_name, file_entries);
        let PreviewLookup { cached, uncached: _ } = lookup;
        let ghost served_from_cache = cached@;
        let mut all_previews = cached;
        let mut previews: CacheMap<ImagePreviewModel> = CacheMap::new();
        std::mem::swap(&mut self.preview_cache, &mut previews);
        let mut i: usize = 0;
        proof {
            assert(generated@.take(0) =~= Seq::<Result<(ImagePreviewModel, String), String>>::empty());
            assert(all_previews@ =~= served_from_cache + previews_of(
                accepted(before, project, files, generated@.take(0)),
            ));
        }
        while i < generated.len()
            invariant
                i <= generated.len(),
                project == project_name@,
                plain_name(project),
                files == pairs_of(file_entries@),
                previews_keyed(previews@),
                served_from_cache == cached_previews(before, project, files),
                all_previews@ == served_from_cache + previews_of(
                    accepted(before, project, files, generated@.take(i as int)),
                ),
                previews@ == stored(
                    before,
                    accepted(before, project, files, generated@.take(i as int)),
                ),
                forall|j: int|
                    0 <= j < all_previews@.len() ==> served(
                        previews@,
                        project,
                        files,
                        #[trigger] all_previews@[j],
                    ),
                forall|key: Seq<char>| #[trigger]
                    before.contains_key(key) ==> previews@.contains_key(key) && previews@[key]
                        == before[key],
                forall|key: Seq<char>| #[trigger]
                    previews@.contains_key(key) ==> before.contains_key(key) || exists|j: int|
                        0 <= j < all_previews@.len() && key == cache_key_of(
                            project,
                            (#[trigger] all_previews@[j]).image_name@,
                        ),
            decreases generated.len() - i,
        {
            let ghost taken = accepted(before, project, files, generated@.take(i as int));
            let ghost held = previews@;
            let ghost listed_so_far = all_previews@;
            proof {
                assert(generated@.take(i as int + 1).drop_last() =~= generated@.take(i as int));
                assert(generated@.take(i as int + 1).last() == generated@[i as int]);
            }
            match &generated[i] {
                Ok((preview, key)) => {
                    let own_key = Self::cache_key(project_name, preview.image_name.as_str());
                    if str_eq(key.as_str(), own_key.as_str()) && lists_name(
                        file_entries,
                        preview.image_name.as_str(),
                    ) && !previews.contains_key(key.as_str()) {
                        let ghost entry = (*preview, *key);
                        assert(acceptable(held, project, files, entry));
                        previews.insert(key.clone(), preview.clone());
                        all_previews.push(preview.clone());
                        proof {
                            assert(taken.push(entry).drop_last() =~= taken);
                            assert(previews_of(taken.push(entry)) =~= previews_of(taken).push(
                                *preview,
                            ));
                            assert(all_previews@ =~= served_from_cache + previews_of(
                                taken.push(entry),
                            ));
                            assert(previews@ == held.insert(key@, *preview));
                            assert(keyed_by(key@, preview.image_name@)) by {
                                assert(key@ == cache_key_of(project, preview.image_name@));
                            }
                            assert forall|j: int| 0 <= j < all_previews@.len() implies served(
                                previews@,
                                project,
                                files,
                                #[trigger] all_previews@[j],
                            ) by {
                                if j < listed_so_far.len() {
                                    assert(all_previews@[j] == listed_so_far[j]);
                                    assert(served(held, project, files, listed_so_far[j]));
                                }
                            }
                            assert forall|k: Seq<char>| #[trigger]
                                previews@.contains_key(k) implies before.contains_key(k)
                                || exists|j: int|
                                    0 <= j < all_previews@.len() && k == cache_key_of(
                                        project,
                                        (#[trigger] all_previews@[j]).image_name@,
                                    ) by {
                                if k == key@ {
                                    assert(all_previews@[listed_so_far.len() as int] == *preview);
                                } else if !before.contains_key(k) {
                                    assert(held.contains_key(k));
                                    let j = choose|j: int|
                                        0 <= j < listed_so_far.len() && k == cache_key_of(
                                            project,
                                            (#[trigger] listed_so_far[j]).image_name@,
                                        );
                                    assert(all_previews@[j] == listed_so_far[j]);
                                }
                            }
                        }
                    } else {
                        assert(!acceptable(held, project, files, (*preview, *key)));
                    }
                },
                Err(_) => {},
            }
            i += 1;
        }
        assert(generated@.take(generated.len() as int) =~= generated@);
        self.preview_cache = previews;
        Ok(all_previews)
    }

    /// The cached full image of an image of a project, if there is one. It
    /// carries the name of the image. For a project whose name holds a `/`
    /// nothing is cached.
    pub fn cached_full_image(
        &self,
        project_name: &str,
        image_name: &str,
    ) -> (cached: Option<FullImageModel>)
        ensures
            cached == (if plain_name(project_name@) && self.full_images().contains_key(
                cache_key_of(project_name@, image_name@),
            ) {
                Some(self.full_images()[cache_key_of(project_name@, image_name@)])
            } else {
                None
            }),
            cached matches Some(model) ==> model.image_name@ == image_name@,
            full_images_keyed(self.full_images()),
    {
        proof {
            use_type_invariant(self);
        }
        if !is_plain_name(project_name) {
            return None;
        }
        let key = Self::cache_key(project_name, image_name);
        match self.full_image_cache.get(key.as_str()) {
            Some(model) => {
                proof {
                    lemma_keyed_name(project_name@, image_name@, model.image_name@);
                }
                Some(model.clone())
            },
            None => None,
        }
    }

    /// The full image of an image of a project: the cached one where there is
    /// one, else one made of the file's content, which is then cached.
    ///
    /// `image_bytes` is the content of the image file and `size_bytes` the
    /// size of the file. Width and height are read from the file's header, in
    /// the format that the image's extension stands for, without decoding the
    /// image; they are 0 where that fails. Previews are not touched. Fails,
    /// and changes nothing, for a project whose name holds a `/`.
    pub fn load_image_from_project(
        &mut self,
        project_name: &str,
        image_name: &str,
        image_bytes: &Vec<u8>,
        size_bytes: u64,
    ) -> (loaded: Result<FullImageModel, String>)
        ensures
            match loaded {
                Ok(model) => {
                    &&& plain_name(project_name@)
                    &&& model.image_name@ == image_name@
                    &&& old(self).full_images().contains_key(
                        cache_key_of(project_name@, image_name@),
                    ) ==> {
                        &&& model == old(self).full_images()[cache_key_of(
                            project_name@,
                            image_name@,
                        )]
                        &&& final(self).full_images() == old(self).full_images()
                    }
                    &&& !old(self).full_images().contains_key(
                        cache_key_of(project_name@, image_name@),
                    ) ==> {
                        &&& model@ == full_image_of(image_name@, image_bytes@, size_bytes)
                        &&& final(self).full_images() == old(self).full_images().insert(
                            cache_key_of(project_name@, image_name@),
                            model,
                        )
                    }
                },
                Err(message) => {
                    &&& !plain_name(project_name@)
                    &&& message@ == "Invalid project name: "@ + project_name@
                    &&& final(self).full_images() == old(self).full_images()
                },
            },
            final(self).previews() == old(self).previews(),
    {
        proof {
            use_type_invariant(&*self);
        }
        if !is_plain_name(project_name) {
            return Err(invalid_project_message(project_name));
        }
        let key = Self::cache_key(project_name, image_name);
        if let Some(cached) = self.full_image_cache.get(key.as_str()) {
            proof {
                lemma_keyed_name(project_name@, image_name@, cached.image_name@);
            }
            return Ok(cached.clone());
        }
        let (width, height) = match probe_dimensions(image_name, image_bytes) {
            Some(size) => size,
            None => (0, 0),
        };
        let model = FullImageModel {
            image_name: String::from_str(image_name),
            base64_image: base64_encode(image_bytes),
            image_size_bytes: size_bytes,
            width,
            height,
        };
        let mut images: CacheMap<FullImageModel> = CacheMap::new();
        std::mem::swap(&mut self.full_image_cache, &mut images);
        images.insert(key, model.clone());
        assert(keyed_by(cache_key_of(project_name@, image_name@), model.image_name@));
        self.full_image_cache = images;
        Ok(model)
    }
}

/// What an image that a faster decoder made stands for.
pub open spec fn accelerated_view(accelerated: Option<DecodedImage>) -> Option<RawImage> {
    match accelerated {
        Some(image) => Some(image@),
        None => None,
    }
}

} // verus!
