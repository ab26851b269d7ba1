//! Where the application keeps its files: the working directory and the
//! day folders and videos under it, and how paths are shown to the user.

use vstd::prelude::*;
use crate::pathutil::{join_chars, join_path};
use crate::textutil::{chars_of, push_all, push_str, slice_chars, string_of};
use crate::config::{has_prefix, starts_with_str};

verus! {

/// The directories and files of one working directory, and the control
/// directory that holds the application's own state.
#[derive(Debug)]
pub struct AppPaths {
    pub control: String,
    pub root: String,
    pub config: String,
    pub screenshots: String,
    pub videos: String,
}

/// `name` joined onto `base`, as a `String`.
fn joined(base: &str, name: &str) -> (r: String)
    ensures
        r@ == join_path(base@, name@),
{
    let b = chars_of(base);
    let n = chars_of(name);
    let j = join_chars(&b, &n);
    string_of(&j)
}

impl AppPaths {
    /// The paths of the working directory `root` (canonical), with the
    /// control directory `control` (canonical): `screenshots`, `videos` and
    /// `config.json` under the root.
    pub fn from_control_and_root(control: String, root: String) -> (r: Self)
        ensures
            r.control@ == control@,
            r.root@ == root@,
            r.screenshots@ == join_path(root@, "screenshots"@),
            r.videos@ == join_path(root@, "videos"@),
            r.config@ == join_path(root@, "config.json"@),
    {
        let screenshots = joined(root.as_str(), "screenshots");
        let videos = joined(root.as_str(), "videos");
        let config = joined(root.as_str(), "config.json");
        AppPaths { control, root, config, screenshots, videos }
    }

    /// The folder of one day's screenshots.
    pub fn screenshots_dir_for_date(&self, date: &str) -> (r: String)
        ensures
            r@ == join_path(self.screenshots@, date@),
    {
        joined(self.screenshots.as_str(), date)
    }

    /// The video of one day: the date with `.mp4`, under the videos folder.
    pub fn video_path_for_date(&self, date: &str) -> (r: String)
        ensures
            r@ == join_path(self.videos@, date@ + ".mp4"@),
    {
        let mut name: Vec<char> = Vec::new();
        push_str(&mut name, date);
        push_str(&mut name, ".mp4");
        let v = chars_of(self.videos.as_str());
        let j = join_chars(&v, &name);
        string_of(&j)
    }
}

/// A path as the user should read it: Windows' verbatim prefixes dropped
/// (`\\?\UNC\` becomes `\\`, and `\\?\` goes).
pub open spec fn display_text(value: Seq<char>) -> Seq<char> {
    let unc = "\\\\?\\UNC\\"@;
    let verbatim = "\\\\?\\"@;
    if has_prefix(value, unc) {
        "\\\\"@ + value.subrange(unc.len() as int, value.len() as int)
    } else if has_prefix(value, verbatim) {
        value.subrange(verbatim.len() as int, value.len() as int)
    } else {
        value
    }
}

/// Drops Windows' verbatim prefixes from a path's text (see
/// `display_text`).
pub fn format_path_for_display(value: &str) -> (r: String)
    ensures
        r@ == display_text(value@),
{
    let v = chars_of(value);
    proof {
        reveal_strlit("\\\\?\\UNC\\");
        reveal_strlit("\\\\?\\");
    }
    if starts_with_str(&v, "\\\\?\\UNC\\") {
        let rest = slice_chars(&v, 8, v.len());
        let mut out: Vec<char> = Vec::new();
        push_str(&mut out, "\\\\");
        push_all(&mut out, &rest);
        return string_of(&out);
    }
    if starts_with_str(&v, "\\\\?\\") {
        let rest = slice_chars(&v, 4, v.len());
        return string_of(&rest);
    }
    string_of(&v)
}

/// A path as the user should read it (see `display_text`).
pub fn display_path(path: &str) -> (r: String)
    ensures
        r@ == display_text(path@),
{
    format_path_for_display(path)
}

/// The name of the application's folder inside each candidate base
/// directory.
pub const APP_FOLDER: &'static str = "ScreenRecorder";

/// The application's folder in each candidate base directory, in the order
/// they are tried (a missing base gives none).
pub open spec fn folder_candidates(bases: Seq<Option<String>>) -> Seq<Seq<char>>
    decreases bases.len(),
{
    if bases.len() == 0 {
        Seq::empty()
    } else {
        let rest = folder_candidates(bases.drop_last());
        match bases.last() {
            Some(b) => rest.push(join_path(b@, APP_FOLDER@)),
            None => rest,
        }
    }
}

/// The application's folder in each candidate base directory (the
/// system's video, documents and home directories for the data; its
/// configuration and local data directories for the control directory),
/// in order (see `folder_candidates`).
pub fn app_folder_candidates(bases: &Vec<Option<String>>) -> (r: Vec<String>)
    ensures
        r@.len() == folder_candidates(bases@).len(),
        forall|k: int| 0 <= k < r@.len() ==> #[trigger] r@[k]@ == folder_candidates(bases@)[k],
{
    let mut r: Vec<String> = Vec::new();
    let mut i: usize = 0;
    while i < bases.len()
        invariant
            i <= bases@.len(),
            r@.len() == folder_candidates(bases@.subrange(0, i as int)).len(),
            forall|k: int|
                0 <= k < r@.len() ==> #[trigger] r@[k]@ == folder_candidates(
                    bases@.subrange(0, i as int),
                )[k],
        decreases bases@.len() - i,
    {
        let ghost next = bases@.subrange(0, i + 1);
        assert(next.drop_last() =~= bases@.subrange(0, i as int));
        match &bases[i] {
            Some(b) => {
                r.push(joined(b.as_str(), APP_FOLDER));
            },
            None => {},
        }
        i = i + 1;
    }
    assert(bases@.subrange(0, bases@.len() as int) =~= bases@);
    r
}

} // verus!
