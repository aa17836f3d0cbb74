//! The application's own folder, under which every project is stored.

use vstd::prelude::*;
use crate::text::{concat2, concat3};

verus! {

/// `relative` seen from `base`, with `/` between the parts of a path: a path
/// that starts at the root stands for itself; any other is appended to
/// `base`, after a `/` where `base` does not end in one already.
pub open spec fn joined_path(base: Seq<char>, relative: Seq<char>) -> Seq<char> {
    if relative.len() > 0 && relative.first() == '/' {
        relative
    } else if base.len() == 0 || base.last() == '/' {
        base + relative
    } else {
        base + seq!['/'] + relative
    }
}

/// The store of the application: a folder, and the paths below it.
pub struct AppSaveService {
    /// The application's folder.
    pub save_dir: String,
}

impl AppSaveService {
    /// The store rooted at `save_dir`.
    pub fn new(save_dir: String) -> (service: Self)
        ensures
            service.save_dir == save_dir,
    {
        AppSaveService { save_dir }
    }

    /// The full path of a path given relative to the application's folder,
    /// such as `projects/holiday/images`.
    pub fn get_full_path(&self, relative_path: &str) -> (full: String)
        ensures
            full@ == joined_path(self.save_dir@, relative_path@),
    {
        let relative_len = relative_path.unicode_len();
        if relative_len > 0 && relative_path.get_char(0) == '/' {
            return String::from_str(relative_path);
        }
        let base_len = self.save_dir.as_str().unicode_len();
        if base_len == 0 || self.save_dir.as_str().get_char(base_len - 1) == '/' {
            concat2(self.save_dir.as_str(), relative_path)
        } else {
            proof {
                reveal_strlit("/");
                assert("/"@ =~= seq!['/']);
            }
            concat3(self.save_dir.as_str(), "/", relative_path)
        }
    }
}

} // verus!
