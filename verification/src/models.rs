//! The records that the library hands out and takes in, each with the
//! mathematical value it stands for.

use vstd::prelude::*;

verus! {

/// What is known of a project itself.
#[derive(Debug, PartialEq, Eq)]
pub struct ProjectInfoModel {
    pub project_name: String,
    /// Unix time, in seconds, at which the project was last opened; `None`
    /// for a project that was never opened since the field exists.
    pub last_opened_at: Option<u64>,
}

/// What a `ProjectInfoModel` stands for.
pub struct ProjectInfoView {
    pub project_name: Seq<char>,
    pub last_opened_at: Option<u64>,
}

impl View for ProjectInfoModel {
    type V = ProjectInfoView;

    open spec fn view(&self) -> ProjectInfoView {
        ProjectInfoView { project_name: self.project_name@, last_opened_at: self.last_opened_at }
    }
}

impl ProjectInfoModel {
    /// What is known of a project that was just made: its name, and that it
    /// was never opened.
    pub fn new(project_name: &str) -> (info: Self)
        ensures
            info@ == (ProjectInfoView { project_name: project_name@, last_opened_at: None }),
    {
        ProjectInfoModel { project_name: String::from_str(project_name), last_opened_at: None }
    }
}

impl Clone for ProjectInfoModel {
    fn clone(&self) -> (copy: Self)
        ensures
            copy == *self,
    {
        ProjectInfoModel {
            project_name: self.project_name.clone(),
            last_opened_at: self.last_opened_at,
        }
    }
}

/// A thumbnail of one image, ready to be shown in a list or a grid.
#[derive(Debug, PartialEq, Eq)]
pub struct ImagePreviewModel {
    /// The image's name relative to the project's image folder.
    pub image_name: String,
    /// The thumbnail, a JPEG in base64.
    pub base64_preview: String,
    /// Size of the image file, in bytes.
    pub image_size_bytes: u64,
    /// Width of the image itself, not of the thumbnail.
    pub width: u32,
    /// Height of the image itself, not of the thumbnail.
    pub height: u32,
}

/// What an `ImagePreviewModel` stands for.
pub struct ImagePreviewView {
    pub image_name: Seq<char>,
    pub base64_preview: Seq<char>,
    pub image_size_bytes: u64,
    pub width: u32,
    pub height: u32,
}

impl View for ImagePreviewModel {
    type V = ImagePreviewView;

    open spec fn view(&self) -> ImagePreviewView {
        ImagePreviewView {
            image_name: self.image_name@,
            base64_preview: self.base64_preview@,
            image_size_bytes: self.image_size_bytes,
            width: self.width,
            height: self.height,
        }
    }
}

impl Clone for ImagePreviewModel {
    fn clone(&self) -> (copy: Self)
        ensures
            copy == *self,
    {
        ImagePreviewModel {
            image_name: self.image_name.clone(),
            base64_preview: self.base64_preview.clone(),
            image_size_bytes: self.image_size_bytes,
            width: self.width,
            height: self.height,
        }
    }
}

/// An image at full resolution.
#[derive(Debug, PartialEq, Eq)]
pub struct FullImageModel {
    /// The image's name relative to the project's image folder.
    pub image_name: String,
    /// The bytes of the image file, in base64.
    pub base64_image: String,
    /// Size of the image file, in bytes.
    pub image_size_bytes: u64,
    pub width: u32,
    pub height: u32,
}

/// What a `FullImageModel` stands for.
pub struct FullImageView {
    pub image_name: Seq<char>,
    pub base64_image: Seq<char>,
    pub image_size_bytes: u64,
    pub width: u32,
    pub height: u32,
}

impl View for FullImageModel {
    type V = FullImageView;

    open spec fn view(&self) -> FullImageView {
        FullImageView {
            image_name: self.image_name@,
            base64_image: self.base64_image@,
            image_size_bytes: self.image_size_bytes,
            width: self.width,
            height: self.height,
        }
    }
}

impl Clone for FullImageModel {
    fn clone(&self) -> (copy: Self)
        ensures
            copy == *self,
    {
        FullImageModel {
            image_name: self.image_name.clone(),
            base64_image: self.base64_image.clone(),
            image_size_bytes: self.image_size_bytes,
            width: self.width,
            height: self.height,
        }
    }
}

/// What an evaluation found out about one image, as far as the library
/// reads it.
#[derive(Debug, PartialEq, Eq)]
pub struct ImageEvaluationResult {
    /// Where the evaluated file lay when it was evaluated.
    pub original_image_path: String,
    /// What to add to the file's stem when the image is exported.
    pub new_suggested_filepath_suffix: Option<String>,
    /// The rest of the judgment, as text. The library carries it along and
    /// never looks inside.
    pub details: String,
}

/// What an `ImageEvaluationResult` stands for.
pub struct ImageEvaluationResultView {
    pub original_image_path: Seq<char>,
    pub new_suggested_filepath_suffix: Option<Seq<char>>,
    pub details: Seq<char>,
}

impl View for ImageEvaluationResult {
    type V = ImageEvaluationResultView;

    open spec fn view(&self) -> ImageEvaluationResultView {
        ImageEvaluationResultView {
            original_image_path: self.original_image_path@,
            new_suggested_filepath_suffix: match self.new_suggested_filepath_suffix {
                Some(suffix) => Some(suffix@),
                None => None,
            },
            details: self.details@,
        }
    }
}

impl Clone for ImageEvaluationResult {
    fn clone(&self) -> (copy: Self)
        ensures
            copy == *self,
    {
        ImageEvaluationResult {
            original_image_path: self.original_image_path.clone(),
            new_suggested_filepath_suffix: match &self.new_suggested_filepath_suffix {
                Some(suffix) => Some(suffix.clone()),
                None => None,
            },
            details: self.details.clone(),
        }
    }
}

/// The ledger's record of one image: the judgment, or why there is none.
#[derive(Debug, PartialEq, Eq)]
pub struct ImageEvaluation {
    /// The image's name relative to the project's image folder, never a full
    /// path.
    pub image_name: String,
    pub result: Option<ImageEvaluationResult>,
    /// Why the evaluation failed, if it did.
    pub fail_reason: Option<String>,
}

/// What an `ImageEvaluation` stands for.
pub struct ImageEvaluationView {
    pub image_name: Seq<char>,
    pub result: Option<ImageEvaluationResultView>,
    pub fail_reason: Option<Seq<char>>,
}

impl View for ImageEvaluation {
    type V = ImageEvaluationView;

    open spec fn view(&self) -> ImageEvaluationView {
        ImageEvaluationView {
            image_name: self.image_name@,
            result: match self.result {
                Some(result) => Some(result@),
                None => None,
            },
            fail_reason: match self.fail_reason {
                Some(reason) => Some(reason@),
                None => None,
            },
        }
    }
}

impl Clone for ImageEvaluation {
    fn clone(&self) -> (copy: Self)
        ensures
            copy == *self,
    {
        ImageEvaluation {
            image_name: self.image_name.clone(),
            result: match &self.result {
                Some(result) => Some(result.clone()),
                None => None,
            },
            fail_reason: match &self.fail_reason {
                Some(reason) => Some(reason.clone()),
                None => None,
            },
        }
    }
}

/// A request to evaluate images that already lie in a project.
#[derive(Debug, PartialEq, Eq)]
pub struct RequestImageEvaluation {
    /// Names of the images, relative to the project's image folder.
    pub image_names: Vec<String>,
    /// The key that the evaluation service asks for.
    pub openai_api_key: String,
}

/// What a `RequestImageEvaluation` stands for.
pub struct RequestImageEvaluationView {
    pub image_names: Seq<Seq<char>>,
    pub openai_api_key: Seq<char>,
}

impl View for RequestImageEvaluation {
    type V = RequestImageEvaluationView;

    open spec fn view(&self) -> RequestImageEvaluationView {
        RequestImageEvaluationView {
            image_names: crate::text::names_of(self.image_names@),
            openai_api_key: self.openai_api_key@,
        }
    }
}

} // verus!
