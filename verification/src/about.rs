//! The about window's facts: who made the application and where it keeps
//! its files.

use vstd::prelude::*;
use crate::config::Language;
use crate::i18n::Text;
use crate::paths::{AppPaths, display_text, display_path};

verus! {

/// The project's home page.
pub const APP_HOMEPAGE: &'static str = "https://github.com/Lahahaha/screen-recorder";

/// The project's author.
pub const APP_AUTHOR: &'static str = "Lahahaha";

/// The project's license.
pub const APP_LICENSE: &'static str = "MIT License";

/// The project's copyright line.
pub const APP_COPYRIGHT: &'static str = "Copyright (c) 2026 Lahahaha";

/// The state of the about window apart from its widgets.
#[derive(Debug)]
pub struct AboutApp {
    pub paths: AppPaths,
    pub language: Language,
    pub status_message: String,
}

impl AboutApp {
    /// The window for `paths`, in `language`, with nothing to report.
    pub fn new(paths: AppPaths, language: Language) -> (r: Self)
        ensures
            r.paths == paths,
            r.language == language,
            r.status_message@.len() == 0,
    {
        AboutApp { paths, language, status_message: String::new() }
    }

    /// The texts of the window's language.
    pub fn text(&self) -> (r: Text)
        ensures
            r.language == self.language,
    {
        Text::new(self.language)
    }

    /// The working directory and the configuration file, as shown.
    pub fn shown_locations(&self) -> (r: (String, String))
        ensures
            r.0@ == display_text(self.paths.root@),
            r.1@ == display_text(self.paths.config@),
    {
        (display_path(self.paths.root.as_str()), display_path(self.paths.config.as_str()))
    }
}

} // verus!
