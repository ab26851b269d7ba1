//! The history window's rules: which screenshot folders can become a video
//! in the chosen generation mode, what each folder shows, where each video
//! goes, and how the list follows the progress of a generation run.

use vstd::prelude::*;
use crate::config::Language;
use crate::i18n::{
    Text, cancelling_text, current_mode_unavailable_text, done_text, no_selection_text, failed_text, generating_text,
    generation_done_text, multi_screen_generation_mode_text, no_available_images_text,
    preparing_frames_text, ready_text, scanning_text, encoding_text, finishing_text,
    screen_word_text, unavailable_text,
};
use crate::naming::{
    ScreenshotName, fits_name_fields, is_name_timestamp, lemma_screenshot_name_round_trip,
    parse_screenshot_file_name, parsed_name, path_format, screenshot_format_for_path,
};
use crate::capture::batch_name;
use crate::config::ScreenshotFormat;
use crate::pathutil::{
    extension_chars, extension_of, join_chars, join_path, parent_chars, parent_of, stem_chars,
    stem_of,
};
use crate::textutil::{chars_of, decimal, push_all, push_decimal, push_str, string_of, zero_pad};
use crate::video::{VideoGenerationMode, VideoGenerationProgress};
use crate::indexset::{add_index, empty_indices, has_index, increasing_u32, merge_indices, sorted_indices};
use std::collections::BTreeSet;

verus! {

/// Where the video of an imported folder labelled `label` goes in
/// `videos_dir`: `<stem>.mp4`, or `<stem>-<timestamp>.mp4` when that file
/// already exists, the stem being `sanitized_stem(label)`.
pub open spec fn external_video_path_text(
    videos_dir: Seq<char>,
    label: Seq<char>,
    timestamp: Seq<char>,
    plain_exists: bool,
) -> Seq<char> {
    if plain_exists {
        join_path(videos_dir, sanitized_stem(label) + "-"@ + timestamp + ".mp4"@)
    } else {
        join_path(videos_dir, sanitized_stem(label) + ".mp4"@)
    }
}

/// The two places that `external_video_path_text` chooses between, the
/// plain one first.
fn external_video_candidates(videos_dir: &str, label: &str, timestamp: &str) -> (r: (
    String,
    String,
))
    ensures
        r.0@ == external_video_path_text(videos_dir@, label@, timestamp@, false),
        r.1@ == external_video_path_text(videos_dir@, label@, timestamp@, true),
{
    let dir = chars_of(videos_dir);
    let stem = sanitize_file_stem(label);
    let mut plain: Vec<char> = chars_of(stem.as_str());
    let mut stamped: Vec<char> = chars_of(stem.as_str());
    push_str(&mut plain, ".mp4");
    push_str(&mut stamped, "-");
    push_str(&mut stamped, timestamp);
    push_str(&mut stamped, ".mp4");
    assert(stamped@ == sanitized_stem(label@) + "-"@ + timestamp@ + ".mp4"@);
    let a = join_chars(&dir, &plain);
    let b = join_chars(&dir, &stamped);
    (string_of(&a), string_of(&b))
}

/// The place for the video of an imported folder, given whether its plain
/// candidate already exists: see `external_video_path_text`.
pub fn external_video_path(
    videos_dir: &str,
    label: &str,
    timestamp: &str,
    plain_exists: bool,
) -> (r: String)
    ensures
        r@ == external_video_path_text(videos_dir@, label@, timestamp@, plain_exists),
{
    let (plain, stamped) = external_video_candidates(videos_dir, label, timestamp);
    if plain_exists {
        stamped
    } else {
        plain
    }
}

/// What a folder of the history list shows about itself.
#[derive(Clone, Debug)]
pub enum SourceStatus {
    Ready,
    Unavailable,
    ModeUnavailable,
    Generating { progress: Option<VideoGenerationProgress> },
    Done { frame_count: usize, skipped: usize },
    Failed(String),
}

/// A folder of screenshots that can become a video.
#[derive(Debug)]
pub struct VideoSource {
    pub id: u64,
    pub label: String,
    pub input_dir: String,
    pub output_path: String,
    /// How many screenshot images the folder holds.
    pub image_count: usize,
    /// How many of them belong to no particular screen.
    pub single_compatible_count: usize,
    /// The screen numbers found in multi-screen names.
    pub screen_indices: BTreeSet<u32>,
    pub selected: bool,
    /// Whether the folder was added by hand rather than found among the
    /// day folders.
    pub external: bool,
    pub status: SourceStatus,
}


/// Whether the folder has images for `mode`: any image for the composed
/// video; for one screen's video, an image of no particular screen or one
/// of that screen.
pub open spec fn has_images_for(source: VideoSource, mode: VideoGenerationMode) -> bool {
    source.image_count > 0 && match mode {
        VideoGenerationMode::MultiScreen => true,
        VideoGenerationMode::SingleScreen(index) => source.single_compatible_count > 0
            || source.screen_indices@.contains(index),
    }
}

/// Whether the folder can be generated in `mode`: it has images for it and
/// is not marked unavailable.
pub open spec fn can_generate_in(source: VideoSource, mode: VideoGenerationMode) -> bool {
    has_images_for(source, mode) && !(source.status is Unavailable
        || source.status is ModeUnavailable)
}

/// The status a folder gets in `mode`: unavailable without images, ready
/// with images for the mode, otherwise unavailable in this mode.
pub open spec fn status_in(source: VideoSource, mode: VideoGenerationMode) -> SourceStatus {
    if source.image_count == 0 {
        SourceStatus::Unavailable
    } else if has_images_for(source, mode) {
        SourceStatus::Ready
    } else {
        SourceStatus::ModeUnavailable
    }
}


/// The video file of a folder for `mode`: the folder's own for the
/// composed video; for one screen's, the same name with `-screen-` and the
/// screen number (two digits at least) before the extension, in the same
/// directory (`video` and `mp4` standing in for a missing stem or
/// extension).
pub open spec fn mode_output_path(path: Seq<char>, mode: VideoGenerationMode) -> Seq<char> {
    match mode {
        VideoGenerationMode::MultiScreen => path,
        VideoGenerationMode::SingleScreen(index) => {
            let stem = match stem_of(path) {
                Some(s) => s,
                None => "video"@,
            };
            let extension = match extension_of(path) {
                Some(e) => e,
                None => "mp4"@,
            };
            let name = stem + "-screen-"@ + zero_pad(decimal(index as nat), 2) + "."@ + extension;
            match parent_of(path) {
                Some(p) => join_path(p, name),
                None => name,
            }
        },
    }
}

/// The video file for `mode` of a folder whose video is `output_path`
/// (see `mode_output_path`).
pub fn output_path_for_mode(output_path: &str, mode: VideoGenerationMode) -> (r: String)
    ensures
        r@ == mode_output_path(output_path@, mode),
{
    let path = chars_of(output_path);
    match mode {
        VideoGenerationMode::MultiScreen => string_of(&path),
        VideoGenerationMode::SingleScreen(index) => {
            let mut name: Vec<char> = Vec::new();
            match stem_chars(&path) {
                Some(s) => push_all(&mut name, &s),
                None => push_str(&mut name, "video"),
            }
            push_str(&mut name, "-screen-");
            push_decimal(&mut name, index as u64, 2);
            push_str(&mut name, ".");
            match extension_chars(&path) {
                Some(e) => push_all(&mut name, &e),
                None => push_str(&mut name, "mp4"),
            }
            match parent_chars(&path) {
                Some(p) => {
                    let joined = join_chars(&p, &name);
                    string_of(&joined)
                },
                None => string_of(&name),
            }
        },
    }
}

/// Whether `c` is an ASCII letter or digit.
pub open spec fn is_ascii_alnum(c: char) -> bool {
    ('0' <= c && c <= '9') || ('a' <= c && c <= 'z') || ('A' <= c && c <= 'Z')
}

/// A character of a file stem: letters, digits, `-` and `_` stay, anything
/// else becomes `_`.
pub open spec fn stem_char(c: char) -> char {
    if is_ascii_alnum(c) || c == '-' || c == '_' {
        c
    } else {
        '_'
    }
}

/// `s` without its leading underscores.
pub open spec fn strip_leading_underscores(s: Seq<char>) -> Seq<char>
    decreases s.len(),
{
    if s.len() > 0 && s[0] == '_' {
        strip_leading_underscores(s.drop_first())
    } else {
        s
    }
}

/// `s` without its trailing underscores.
pub open spec fn strip_trailing_underscores(s: Seq<char>) -> Seq<char>
    decreases s.len(),
{
    if s.len() > 0 && s.last() == '_' {
        strip_trailing_underscores(s.drop_last())
    } else {
        s
    }
}

/// A file stem made from `value`: each character through `stem_char`,
/// underscores trimmed from both ends, `imported-folder` when nothing is
/// left.
pub open spec fn sanitized_stem(value: Seq<char>) -> Seq<char> {
    let trimmed = strip_trailing_underscores(
        strip_leading_underscores(value.map_values(|c: char| stem_char(c))),
    );
    if trimmed.len() == 0 {
        "imported-folder"@
    } else {
        trimmed
    }
}

/// Makes a file stem from a folder name (see `sanitized_stem`).
pub fn sanitize_file_stem(value: &str) -> (r: String)
    ensures
        r@ == sanitized_stem(value@),
{
    let chars = chars_of(value);
    let ghost mapped = value@.map_values(|c: char| stem_char(c));
    let mut m: Vec<char> = Vec::new();
    let mut i: usize = 0;
    while i < chars.len()
        invariant
            i <= chars@.len(),
            chars@ == value@,
            mapped == value@.map_values(|c: char| stem_char(c)),
            m@ == mapped.subrange(0, i as int),
        decreases chars@.len() - i,
    {
        let c = chars[i];
        let keep = ('0' <= c && c <= '9') || ('a' <= c && c <= 'z') || ('A' <= c && c <= 'Z') || c
            == '-' || c == '_';
        m.push(
            if keep {
                c
            } else {
                '_'
            },
        );
        i = i + 1;
        assert(m@ =~= mapped.subrange(0, i as int));
    }
    assert(mapped.subrange(0, mapped.len() as int) =~= mapped);
    let mut lo: usize = 0;
    assert(m@.subrange(0, m@.len() as int) =~= m@);
    while lo < m.len() && m[lo] == '_'
        invariant
            lo <= m@.len(),
            strip_leading_underscores(m@) == strip_leading_underscores(
                m@.subrange(lo as int, m@.len() as int),
            ),
        decreases m@.len() - lo,
    {
        let ghost rest = m@.subrange(lo as int, m@.len() as int);
        assert(rest[0] == m@[lo as int]);
        assert(rest.drop_first() =~= m@.subrange(lo + 1, m@.len() as int));
        lo = lo + 1;
    }
    let ghost front = m@.subrange(lo as int, m@.len() as int);
    assert(strip_leading_underscores(front) == front) by {
        if front.len() > 0 {
            assert(front[0] == m@[lo as int]);
        }
    }
    let mut hi: usize = m.len();
    assert(front.subrange(0, front.len() as int) =~= front);
    while hi > lo && m[hi - 1] == '_'
        invariant
            lo <= hi <= m@.len(),
            front == m@.subrange(lo as int, m@.len() as int),
            strip_trailing_underscores(front) == strip_trailing_underscores(
                m@.subrange(lo as int, hi as int),
            ),
        decreases hi,
    {
        let ghost part = m@.subrange(lo as int, hi as int);
        assert(part.last() == m@[hi - 1]);
        assert(part.drop_last() =~= m@.subrange(lo as int, hi - 1));
        hi = hi - 1;
    }
    let ghost trimmed = m@.subrange(lo as int, hi as int);
    assert(strip_trailing_underscores(trimmed) == trimmed) by {
        if trimmed.len() > 0 {
            assert(trimmed.last() == m@[hi - 1]);
        }
    }
    if hi == lo {
        let mut out: Vec<char> = Vec::new();
        push_str(&mut out, "imported-folder");
        return string_of(&out);
    }
    let mut out: Vec<char> = Vec::new();
    let mut k: usize = lo;
    while k < hi
        invariant
            lo <= k <= hi,
            hi <= m@.len(),
            out@ == m@.subrange(lo as int, k as int),
        decreases hi - k,
    {
        out.push(m[k]);
        k = k + 1;
        assert(out@ =~= m@.subrange(lo as int, k as int));
    }
    string_of(&out)
}

/// The label of a progress step.
pub open spec fn progress_text(language: Language, progress: VideoGenerationProgress) -> Seq<char> {
    match progress {
        VideoGenerationProgress::Scanning => scanning_text(language),
        VideoGenerationProgress::PreparingFrames { current, total } => preparing_frames_text(
            language,
            current as nat,
            total as nat,
        ),
        VideoGenerationProgress::Encoding => encoding_text(language),
        VideoGenerationProgress::Replacing => finishing_text(language),
    }
}

/// A `String` of `s`.
fn owned(s: &str) -> (r: String)
    ensures
        r@ == s@,
{
    let v = chars_of(s);
    string_of(&v)
}

/// The label of a progress step.
pub fn progress_status_label(text: &Text, progress: &VideoGenerationProgress) -> (r: String)
    ensures
        r@ == progress_text(text.language, *progress),
{
    match progress {
        VideoGenerationProgress::Scanning => owned(text.scanning()),
        VideoGenerationProgress::PreparingFrames { current, total } => text.preparing_frames(
            *current,
            *total,
        ),
        VideoGenerationProgress::Encoding => owned(text.encoding()),
        VideoGenerationProgress::Replacing => owned(text.finishing()),
    }
}

/// The name of a generation mode.
pub open spec fn mode_text(language: Language, mode: VideoGenerationMode) -> Seq<char> {
    match mode {
        VideoGenerationMode::MultiScreen => multi_screen_generation_mode_text(language),
        VideoGenerationMode::SingleScreen(index) => screen_word_text(language) + zero_pad(
            decimal(index as nat),
            2,
        ),
    }
}

/// The name of a generation mode.
pub fn generation_mode_label(text: &Text, mode: VideoGenerationMode) -> (r: String)
    ensures
        r@ == mode_text(text.language, mode),
{
    match mode {
        VideoGenerationMode::MultiScreen => owned(text.multi_screen_generation_mode()),
        VideoGenerationMode::SingleScreen(index) => text.generation_screen_mode(index),
    }
}

/// What a folder's status says.
pub open spec fn status_text(language: Language, status: SourceStatus) -> Seq<char> {
    match status {
        SourceStatus::Ready => ready_text(language),
        SourceStatus::Unavailable => unavailable_text(language) + ": "@ + no_available_images_text(
            language,
        ),
        SourceStatus::ModeUnavailable => unavailable_text(language) + ": "@
            + current_mode_unavailable_text(language),
        SourceStatus::Generating { progress } => match progress {
            None => generating_text(language),
            Some(p) => generating_text(language) + ": "@ + progress_text(language, p),
        },
        SourceStatus::Done { frame_count, skipped } => generation_done_text(
            language,
            frame_count as nat,
            skipped as nat,
        ),
        SourceStatus::Failed(error) => failed_text(language) + ": "@ + error@,
    }
}

/// Joins two texts with `: `.
fn colon_join(a: &str, b: &str) -> (r: String)
    ensures
        r@ == a@ + ": "@ + b@,
{
    let mut out: Vec<char> = Vec::new();
    push_str(&mut out, a);
    push_str(&mut out, ": ");
    push_str(&mut out, b);
    string_of(&out)
}

impl VideoSource {
    /// Whether the folder has images for `mode` (see `has_images_for`).
    pub fn has_compatible_images(&self, mode: VideoGenerationMode) -> (r: bool)
        ensures
            r == has_images_for(*self, mode),
    {
        if self.image_count == 0 {
            return false;
        }
        match mode {
            VideoGenerationMode::MultiScreen => true,
            VideoGenerationMode::SingleScreen(index) => self.single_compatible_count > 0
                || has_index(&self.screen_indices, index),
        }
    }

    /// Whether the folder can be generated in `mode` (see `can_generate_in`).
    pub fn can_generate_for_mode(&self, mode: VideoGenerationMode) -> (r: bool)
        ensures
            r == can_generate_in(*self, mode),
    {
        self.has_compatible_images(mode) && !(match self.status {
            SourceStatus::Unavailable => true,
            SourceStatus::ModeUnavailable => true,
            _ => false,
        })
    }

    /// The status the folder gets in `mode` (see `status_in`).
    pub fn status_for_mode(&self, mode: VideoGenerationMode) -> (r: SourceStatus)
        ensures
            r == status_in(*self, mode),
    {
        if self.image_count == 0 {
            SourceStatus::Unavailable
        } else if self.has_compatible_images(mode) {
            SourceStatus::Ready
        } else {
            SourceStatus::ModeUnavailable
        }
    }

    /// The folder's video file for `mode` (see `mode_output_path`).
    pub fn output_path_for_mode(&self, mode: VideoGenerationMode) -> (r: String)
        ensures
            r@ == mode_output_path(self.output_path@, mode),
    {
        output_path_for_mode(self.output_path.as_str(), mode)
    }

    /// The folder's name in the list: marked with ` *` when it was added by
    /// hand.
    pub fn display_label(&self) -> (r: String)
        ensures
            r@ == if self.external {
                self.label@ + " *"@
            } else {
                self.label@
            },
    {
        let mut out: Vec<char> = Vec::new();
        push_str(&mut out, self.label.as_str());
        if self.external {
            push_str(&mut out, " *");
        }
        string_of(&out)
    }

    /// What the folder's status says in `language` (see `status_text`).
    pub fn status_label(&self, language: Language) -> (r: String)
        ensures
            r@ == status_text(language, self.status),
    {
        let text = Text::new(language);
        match &self.status {
            SourceStatus::Ready => owned(text.ready()),
            SourceStatus::Unavailable => colon_join(text.unavailable(), text.no_available_images()),
            SourceStatus::ModeUnavailable => colon_join(
                text.unavailable(),
                text.current_mode_unavailable(),
            ),
            SourceStatus::Generating { progress } => match progress {
                None => owned(text.generating()),
                Some(p) => {
                    let label = progress_status_label(&text, p);
                    colon_join(text.generating(), label.as_str())
                },
            },
            SourceStatus::Done { frame_count, skipped } => text.generation_done_status(
                *frame_count,
                *skipped,
            ),
            SourceStatus::Failed(error) => colon_join(text.failed(), error.as_str()),
        }
    }
}

/// Whether the file `name` is used by a video in `mode`: every file for
/// the composed video; for one screen's video, a file of no particular
/// screen or one of that screen.
pub open spec fn used_in_mode(name: Seq<char>, mode: VideoGenerationMode) -> bool {
    match mode {
        VideoGenerationMode::MultiScreen => true,
        VideoGenerationMode::SingleScreen(index) => match screen_of(name) {
            Some(s) => s == index,
            None => true,
        },
    }
}

/// The files of `names` that a video in `mode` uses, in order.
pub open spec fn names_for_mode(names: Seq<Seq<char>>, mode: VideoGenerationMode) -> Seq<Seq<char>>
    decreases names.len(),
{
    if names.len() == 0 {
        Seq::empty()
    } else {
        let rest = names_for_mode(names.drop_last(), mode);
        if used_in_mode(names.last(), mode) {
            rest.push(names.last())
        } else {
            rest
        }
    }
}

/// Keeps the files that a video in `mode` uses (see `used_in_mode`), in
/// order.
pub fn images_for_mode(names: Vec<String>, mode: VideoGenerationMode) -> (r: Vec<String>)
    ensures
        name_texts(r@) == names_for_mode(name_texts(names@), mode),
{
    let ghost all = name_texts(names@);
    let mut r: Vec<String> = Vec::new();
    let mut i: usize = 0;
    while i < names.len()
        invariant
            i <= names@.len(),
            all == name_texts(names@),
            name_texts(r@) == names_for_mode(all.subrange(0, i as int), mode),
        decreases names@.len() - i,
    {
        let ghost before = all.subrange(0, i as int);
        let ghost after = all.subrange(0, i + 1);
        assert(after.drop_last() =~= before);
        assert(after.last() == names@[i as int]@);
        let keep = match mode {
            VideoGenerationMode::MultiScreen => true,
            VideoGenerationMode::SingleScreen(index) => match parse_screenshot_file_name(names[i].as_str()) {
                Some(ScreenshotName::MultiScreen { screen_index, .. }) => screen_index == index,
                _ => true,
            },
        };
        if keep {
            let ghost old_r = r@;
            r.push(names[i].clone());
            assert(name_texts(r@) =~= name_texts(old_r).push(names@[i as int]@));
        }
        i = i + 1;
    }
    assert(all.subrange(0, names@.len() as int) =~= all);
    r
}

/// What a folder's file names say about it.
#[derive(Debug)]
pub struct VideoSourceStats {
    pub image_count: usize,
    pub single_compatible_count: usize,
    /// The screen numbers found.
    pub screen_indices: BTreeSet<u32>,
}

/// Whether a file name is a screenshot image.
pub open spec fn is_image(name: Seq<char>) -> bool {
    path_format(name) is Some
}

/// Whether a screenshot image belongs to one screen: its name is a
/// multi-screen name.
pub open spec fn screen_of(name: Seq<char>) -> Option<u32> {
    match parsed_name(name) {
        Some(p) => p.1,
        None => None,
    }
}

/// How many of `names` are screenshot images.
pub open spec fn image_count_of(names: Seq<Seq<char>>) -> nat
    decreases names.len(),
{
    if names.len() == 0 {
        0
    } else {
        image_count_of(names.drop_last()) + if is_image(names.last()) {
            1nat
        } else {
            0nat
        }
    }
}

/// How many of `names` are screenshot images of no particular screen.
pub open spec fn single_count_of(names: Seq<Seq<char>>) -> nat
    decreases names.len(),
{
    if names.len() == 0 {
        0
    } else {
        single_count_of(names.drop_last()) + if is_image(names.last()) && screen_of(
            names.last(),
        ) is None {
            1nat
        } else {
            0nat
        }
    }
}

/// Whether one of `names` is a screenshot image of screen `index`.
pub open spec fn has_screen_image(names: Seq<Seq<char>>, index: u32) -> bool {
    exists|k: int|
        0 <= k < names.len() && is_image(#[trigger] names[k]) && screen_of(names[k]) == Some(
            index,
        )
}

/// A folder holds an image exactly when its image count is positive.
proof fn lemma_image_count_positive(names: Seq<Seq<char>>)
    ensures
        image_count_of(names) > 0 <==> exists|k: int| 0 <= k < names.len() && is_image(#[trigger] names[k]),
    decreases names.len(),
{
    if names.len() > 0 {
        let d = names.drop_last();
        lemma_image_count_positive(d);
        if exists|k: int| 0 <= k < d.len() && is_image(#[trigger] d[k]) {
            let k = choose|k: int| 0 <= k < d.len() && is_image(#[trigger] d[k]);
            assert(names[k] == d[k]);
        }
        if exists|k: int| 0 <= k < names.len() && is_image(#[trigger] names[k]) {
            let k = choose|k: int| 0 <= k < names.len() && is_image(#[trigger] names[k]);
            if k < d.len() {
                assert(names[k] == d[k]);
            } else {
                assert(names[k] == names.last());
            }
        }
    }
}

/// A folder holds an image of no particular screen exactly when that count
/// is positive.
proof fn lemma_single_count_positive(names: Seq<Seq<char>>)
    ensures
        single_count_of(names) > 0 <==> exists|k: int|
            0 <= k < names.len() && is_image(#[trigger] names[k]) && screen_of(names[k]) is None,
    decreases names.len(),
{
    if names.len() > 0 {
        let d = names.drop_last();
        lemma_single_count_positive(d);
        if exists|k: int| 0 <= k < d.len() && is_image(#[trigger] d[k]) && screen_of(d[k]) is None {
            let k = choose|k: int| 0 <= k < d.len() && is_image(#[trigger] d[k]) && screen_of(d[k]) is None;
            assert(names[k] == d[k]);
        }
        if exists|k: int| 0 <= k < names.len() && is_image(#[trigger] names[k]) && screen_of(names[k]) is None {
            let k = choose|k: int| 0 <= k < names.len() && is_image(#[trigger] names[k]) && screen_of(names[k]) is None;
            if k < d.len() {
                assert(names[k] == d[k]);
            } else {
                assert(names[k] == names.last());
            }
        }
    }
}

/// For a folder described as `inspect_video_source` describes its entries
/// `names`, it has images for a mode exactly when one of its screenshot
/// images is used by a video in that mode (see `used_in_mode`): any image
/// for the composed video; for one screen's video, an image of that screen
/// or of no particular screen.
pub proof fn lemma_compatible_iff_some_image_used(
    source: VideoSource,
    names: Seq<Seq<char>>,
    mode: VideoGenerationMode,
)
    requires
        source.image_count == image_count_of(names),
        source.single_compatible_count == single_count_of(names),
        forall|index: u32| source.screen_indices@.contains(index) <==> has_screen_image(names, index),
    ensures
        has_images_for(source, mode) <==> exists|k: int|
            0 <= k < names.len() && is_image(#[trigger] names[k]) && used_in_mode(names[k], mode),
{
    lemma_image_count_positive(names);
    lemma_single_count_positive(names);
    if exists|k: int| 0 <= k < names.len() && is_image(#[trigger] names[k]) && used_in_mode(names[k], mode) {
        let k = choose|k: int| 0 <= k < names.len() && is_image(#[trigger] names[k]) && used_in_mode(names[k], mode);
        match mode {
            VideoGenerationMode::MultiScreen => {},
            VideoGenerationMode::SingleScreen(index) => {
                match screen_of(names[k]) {
                    Some(sc) => {
                        assert(has_screen_image(names, index));
                    },
                    None => {},
                }
            },
        }
    }
    if has_images_for(source, mode) {
        match mode {
            VideoGenerationMode::MultiScreen => {
                let k = choose|k: int| 0 <= k < names.len() && is_image(#[trigger] names[k]);
                assert(used_in_mode(names[k], mode));
            },
            VideoGenerationMode::SingleScreen(index) => {
                if source.single_compatible_count > 0 {
                    let k = choose|k: int|
                        0 <= k < names.len() && is_image(#[trigger] names[k]) && screen_of(names[k]) is None;
                    assert(used_in_mode(names[k], mode));
                } else {
                    assert(has_screen_image(names, index));
                    let k = choose|k: int|
                        0 <= k < names.len() && is_image(#[trigger] names[k]) && screen_of(names[k]) == Some(index);
                    assert(used_in_mode(names[k], mode));
                }
            },
        }
    }
}

/// The text views of a list of names.
pub open spec fn name_texts(names: Seq<String>) -> Seq<Seq<char>> {
    names.map_values(|s: String| s@)
}

/// Reads what a folder's file names say (`names` being its entries): how
/// many are screenshot images, how many of those belong to no particular
/// screen, and which screen numbers occur.
pub fn inspect_video_source(names: &Vec<String>) -> (r: VideoSourceStats)
    ensures
        r.image_count == image_count_of(name_texts(names@)),
        r.single_compatible_count == single_count_of(name_texts(names@)),
        forall|index: u32|
            r.screen_indices@.contains(index) <==> has_screen_image(name_texts(names@), index),
{
    let ghost all = name_texts(names@);
    let mut image_count: usize = 0;
    let mut single: usize = 0;
    let mut screens = empty_indices();
    let mut i: usize = 0;
    while i < names.len()
        invariant
            i <= names@.len(),
            all == name_texts(names@),
            image_count == image_count_of(all.subrange(0, i as int)),
            single == single_count_of(all.subrange(0, i as int)),
            image_count <= i,
            single <= i,
            forall|index: u32|
                screens@.contains(index) <==> has_screen_image(all.subrange(0, i as int), index),
        decreases names@.len() - i,
    {
        let ghost before = all.subrange(0, i as int);
        let ghost after = all.subrange(0, i + 1);
        assert(after.drop_last() =~= before);
        assert(after.last() == names@[i as int]@);
        let name = names[i].as_str();
        if screenshot_format_for_path(name).is_some() {
            image_count = image_count + 1;
            match parse_screenshot_file_name(name) {
                Some(ScreenshotName::MultiScreen { screen_index, .. }) => {
                    add_index(&mut screens, screen_index);
                },
                _ => {
                    single = single + 1;
                },
            }
        }
        proof {
            assert forall|index: u32|
                screens@.contains(index) <==> has_screen_image(after, index) by {
                if has_screen_image(after, index) {
                    let k = choose|k: int|
                        0 <= k < after.len() && is_image(#[trigger] after[k]) && screen_of(after[k])
                            == Some(index);
                    if k < i {
                        assert(before[k] == after[k]);
                        assert(has_screen_image(before, index));
                    }
                }
                if has_screen_image(before, index) {
                    let k = choose|k: int|
                        0 <= k < before.len() && is_image(#[trigger] before[k]) && screen_of(
                            before[k],
                        ) == Some(index);
                    assert(after[k] == before[k]);
                }
                if is_image(after[i as int]) && screen_of(after[i as int]) == Some(index) {
                    assert(has_screen_image(after, index));
                }
            }
        }
        i = i + 1;
    }
    assert(all.subrange(0, names@.len() as int) =~= all);
    VideoSourceStats { image_count, single_compatible_count: single, screen_indices: screens }
}

/// One folder to turn into a video.
#[derive(Debug)]
pub struct VideoJob {
    pub id: u64,
    pub input_dir: String,
    pub output_path: String,
    pub mode: VideoGenerationMode,
}

/// What a generation run reports back.
#[derive(Debug)]
pub enum GenerateEvent {
    Started(u64),
    Progress(u64, VideoGenerationProgress),
    /// The folder's video was written (frames, skipped images), or failed
    /// with the message.
    Finished(u64, Result<(usize, usize), String>),
    AllDone,
}

/// The state of the history window apart from its widgets.
#[derive(Debug)]
pub struct HistoryApp {
    pub language: Language,
    pub sources: Vec<VideoSource>,
    pub generation_mode: VideoGenerationMode,
    pub next_id: u64,
    pub generating: bool,
    pub cancel_requested: bool,
    pub status_message: String,
}

/// Whether `k` is the first position of a folder with `id`.
pub open spec fn first_with_id(s: Seq<VideoSource>, id: u64, k: int) -> bool {
    &&& 0 <= k < s.len()
    &&& s[k].id == id
    &&& forall|j: int| 0 <= j < k ==> (#[trigger] s[j]).id != id
}

/// The position of the first folder with `id`.
pub open spec fn source_position(s: Seq<VideoSource>, id: u64) -> Option<int> {
    if exists|k: int| first_with_id(s, id, k) {
        Some(choose|k: int| first_with_id(s, id, k))
    } else {
        None
    }
}

proof fn lemma_first_with_id_unique(s: Seq<VideoSource>, id: u64, k: int)
    requires
        first_with_id(s, id, k),
    ensures
        source_position(s, id) == Some(k),
{
    let j = choose|j: int| first_with_id(s, id, j);
    if j < k {
        assert(s[j].id != id);
    } else if j > k {
        assert(s[k].id != id);
    }
}

/// Finds the first folder with `id`.
fn find_source(sources: &Vec<VideoSource>, id: u64) -> (r: Option<usize>)
    ensures
        match r {
            Some(k) => source_position(sources@, id) == Some(k as int),
            None => source_position(sources@, id) is None,
        },
{
    let mut i: usize = 0;
    while i < sources.len()
        invariant
            i <= sources@.len(),
            forall|j: int| 0 <= j < i ==> (#[trigger] sources@[j]).id != id,
        decreases sources@.len() - i,
    {
        if sources[i].id == id {
            proof {
                lemma_first_with_id_unique(sources@, id, i as int);
            }
            return Some(i);
        }
        i = i + 1;
    }
    proof {
        if exists|k: int| first_with_id(sources@, id, k) {
            let k = choose|k: int| first_with_id(sources@, id, k);
            assert(sources@[k].id == id);
        }
    }
    None
}

/// The folders with the first one of `id` given `status`.
pub open spec fn with_status(s: Seq<VideoSource>, id: u64, status: SourceStatus) -> Seq<
    VideoSource,
> {
    match source_position(s, id) {
        Some(k) => s.update(k, VideoSource { status, ..s[k] }),
        None => s,
    }
}

/// Gives the first folder with `id` the status `status`.
fn set_source_status(sources: &mut Vec<VideoSource>, id: u64, status: SourceStatus)
    ensures
        final(sources)@ == with_status(old(sources)@, id, status),
{
    match find_source(sources, id) {
        Some(k) => {
            let s = sources.remove(k);
            let updated = VideoSource {
                id: s.id,
                label: s.label,
                input_dir: s.input_dir,
                output_path: s.output_path,
                image_count: s.image_count,
                single_compatible_count: s.single_compatible_count,
                screen_indices: s.screen_indices,
                selected: s.selected,
                external: s.external,
                status,
            };
            sources.insert(k, updated);
            assert(sources@ =~= with_status(old(sources)@, id, status));
        },
        None => {},
    }
}

/// The label of the first folder with `id`, else the id in decimal.
pub open spec fn label_of(s: Seq<VideoSource>, id: u64) -> Seq<char> {
    match source_position(s, id) {
        Some(k) => s[k].label@,
        None => decimal(id as nat),
    }
}

/// A folder after the mode changed to `mode`: deselected unless it can be
/// generated in it, and (unless it is being generated) given the mode's
/// status.
pub open spec fn applied_source(s: VideoSource, mode: VideoGenerationMode) -> VideoSource {
    VideoSource {
        selected: s.selected && can_generate_in(s, mode),
        status: if s.status is Generating {
            s.status
        } else {
            status_in(s, mode)
        },
        ..s
    }
}

/// The folders that are selected and can be generated in `mode`.
pub open spec fn job_sources(s: Seq<VideoSource>, mode: VideoGenerationMode) -> Seq<VideoSource>
    decreases s.len(),
{
    if s.len() == 0 {
        Seq::empty()
    } else {
        let rest = job_sources(s.drop_last(), mode);
        if s.last().selected && can_generate_in(s.last(), mode) {
            rest.push(s.last())
        } else {
            rest
        }
    }
}

/// The job of a folder for `mode`.
pub open spec fn job_view(s: VideoSource, mode: VideoGenerationMode) -> (
    u64,
    Seq<char>,
    Seq<char>,
    VideoGenerationMode,
) {
    (s.id, s.input_dir@, mode_output_path(s.output_path@, mode), mode)
}

/// A job as plain values.
pub open spec fn job_values(j: VideoJob) -> (u64, Seq<char>, Seq<char>, VideoGenerationMode) {
    (j.id, j.input_dir@, j.output_path@, j.mode)
}

/// How many folders are done.
pub open spec fn done_count(s: Seq<VideoSource>) -> nat
    decreases s.len(),
{
    if s.len() == 0 {
        0
    } else {
        done_count(s.drop_last()) + if s.last().status is Done {
            1nat
        } else {
            0nat
        }
    }
}

/// How many folders failed.
pub open spec fn failed_count(s: Seq<VideoSource>) -> nat
    decreases s.len(),
{
    if s.len() == 0 {
        0
    } else {
        failed_count(s.drop_last()) + if s.last().status is Failed {
            1nat
        } else {
            0nat
        }
    }
}

/// The summary of a finished run: how many folders are done, and how many
/// failed when any did.
pub open spec fn batch_text(language: Language, s: Seq<VideoSource>) -> Seq<char> {
    if failed_count(s) == 0 {
        done_text(language) + ": "@ + decimal(done_count(s))
    } else {
        done_text(language) + ": "@ + decimal(done_count(s)) + ", "@ + failed_text(language)
            + ": "@ + decimal(failed_count(s))
    }
}

/// Whether some folder has screen `index`.
pub open spec fn some_source_has_screen(s: Seq<VideoSource>, index: u32) -> bool {
    exists|k: int| 0 <= k < s.len() && (#[trigger] s[k]).screen_indices@.contains(index)
}

/// The mode after a check that it still makes sense: one screen's mode
/// falls back to the composed video when no folder has that screen.
pub open spec fn available_mode(s: Seq<VideoSource>, mode: VideoGenerationMode) -> VideoGenerationMode {
    match mode {
        VideoGenerationMode::SingleScreen(index) => if some_source_has_screen(s, index) {
            mode
        } else {
            VideoGenerationMode::MultiScreen
        },
        VideoGenerationMode::MultiScreen => mode,
    }
}

/// Whether a folder with `id` takes part in a run for `mode`: one of the
/// run's folders has that id.
pub open spec fn in_run(s: Seq<VideoSource>, mode: VideoGenerationMode, id: u64) -> bool {
    exists|k: int|
        0 <= k < job_sources(s, mode).len() && (#[trigger] job_sources(s, mode)[k]).id == id
}

/// Appends a decimal count.
fn push_count(out: &mut Vec<char>, n: usize)
    ensures
        final(out)@ == old(out)@ + decimal(n as nat),
{
    push_decimal(out, n as u64, 0);
}

impl HistoryApp {
    /// An empty list in `language`, composing all screens.
    pub fn new(language: Language) -> (r: Self)
        ensures
            r.language == language,
            r.sources@.len() == 0,
            r.generation_mode == VideoGenerationMode::MultiScreen,
            r.next_id == 1,
            !r.generating,
            !r.cancel_requested,
            r.status_message@.len() == 0,
    {
        HistoryApp {
            language,
            sources: Vec::new(),
            generation_mode: VideoGenerationMode::MultiScreen,
            next_id: 1,
            generating: false,
            cancel_requested: false,
            status_message: String::new(),
        }
    }

    /// The texts of the window's language.
    pub fn text(&self) -> (r: Text)
        ensures
            r.language == self.language,
    {
        Text::new(self.language)
    }

    /// The jobs of a run in the current mode: the selected folders that can
    /// be generated in it, in list order, each with its video file for the
    /// mode.
    pub fn selected_jobs(&self) -> (r: Vec<VideoJob>)
        ensures
            r@.len() == job_sources(self.sources@, self.generation_mode).len(),
            forall|k: int|
                0 <= k < r@.len() ==> job_values(#[trigger] r@[k]) == job_view(
                    job_sources(self.sources@, self.generation_mode)[k],
                    self.generation_mode,
                ),
    {
        let mode = self.generation_mode;
        let mut r: Vec<VideoJob> = Vec::new();
        let mut i: usize = 0;
        while i < self.sources.len()
            invariant
                i <= self.sources@.len(),
                mode == self.generation_mode,
                r@.len() == job_sources(self.sources@.subrange(0, i as int), mode).len(),
                forall|k: int|
                    0 <= k < r@.len() ==> job_values(#[trigger] r@[k]) == job_view(
                        job_sources(self.sources@.subrange(0, i as int), mode)[k],
                        mode,
                    ),
            decreases self.sources@.len() - i,
        {
            let ghost after = self.sources@.subrange(0, i + 1);
            assert(after.drop_last() =~= self.sources@.subrange(0, i as int));
            let source = &self.sources[i];
            if source.selected && source.can_generate_for_mode(mode) {
                let input_dir = owned(source.input_dir.as_str());
                let output_path = source.output_path_for_mode(mode);
                r.push(VideoJob { id: source.id, input_dir, output_path, mode });
            }
            i = i + 1;
        }
        assert(self.sources@.subrange(0, self.sources@.len() as int) =~= self.sources@);
        r
    }

    /// The label of the first folder with `id`, else the id in decimal.
    pub fn source_label(&self, id: u64) -> (r: String)
        ensures
            r@ == label_of(self.sources@, id),
    {
        match find_source(&self.sources, id) {
            Some(k) => owned(self.sources[k].label.as_str()),
            None => {
                let mut out: Vec<char> = Vec::new();
                push_decimal(&mut out, id, 0);
                string_of(&out)
            },
        }
    }

    /// The summary of a finished run (see `batch_text`).
    pub fn batch_status_message(&self) -> (r: String)
        ensures
            r@ == batch_text(self.language, self.sources@),
    {
        let text = self.text();
        let mut done: usize = 0;
        let mut failed: usize = 0;
        let mut i: usize = 0;
        while i < self.sources.len()
            invariant
                i <= self.sources@.len(),
                done == done_count(self.sources@.subrange(0, i as int)),
                failed == failed_count(self.sources@.subrange(0, i as int)),
                done <= i,
                failed <= i,
            decreases self.sources@.len() - i,
        {
            let ghost after = self.sources@.subrange(0, i + 1);
            assert(after.drop_last() =~= self.sources@.subrange(0, i as int));
            match &self.sources[i].status {
                SourceStatus::Done { .. } => {
                    done = done + 1;
                },
                SourceStatus::Failed(_) => {
                    failed = failed + 1;
                },
                _ => {},
            }
            i = i + 1;
        }
        assert(self.sources@.subrange(0, self.sources@.len() as int) =~= self.sources@);
        let mut out: Vec<char> = Vec::new();
        push_str(&mut out, text.done_label());
        push_str(&mut out, ": ");
        push_count(&mut out, done);
        if failed != 0 {
            push_str(&mut out, ", ");
            push_str(&mut out, text.failed());
            push_str(&mut out, ": ");
            push_count(&mut out, failed);
        }
        string_of(&out)
    }

    /// The screen numbers found in any folder, increasing.
    pub fn available_screen_indices(&self) -> (r: Vec<u32>)
        ensures
            increasing_u32(r@),
            forall|index: u32| r@.contains(index) <==> some_source_has_screen(self.sources@, index),
    {
        let mut r: Vec<u32> = Vec::new();
        let mut i: usize = 0;
        while i < self.sources.len()
            invariant
                i <= self.sources@.len(),
                increasing_u32(r@),
                forall|index: u32|
                    r@.contains(index) <==> some_source_has_screen(
                        self.sources@.subrange(0, i as int),
                        index,
                    ),
            decreases self.sources@.len() - i,
        {
            let indices = &self.sources[i].screen_indices;
            merge_indices(&mut r, &sorted_indices(indices));
            proof {
                let prev = self.sources@.subrange(0, i as int);
                let next = self.sources@.subrange(0, i + 1);
                assert forall|index: u32|
                    r@.contains(index) <==> some_source_has_screen(next, index) by {
                    if some_source_has_screen(next, index) {
                        let k = choose|k: int|
                            0 <= k < next.len() && (#[trigger] next[k]).screen_indices@.contains(
                                index,
                            );
                        if k < i {
                            assert(prev[k] == next[k]);
                            assert(some_source_has_screen(prev, index));
                        }
                    }
                    if some_source_has_screen(prev, index) {
                        let k = choose|k: int|
                            0 <= k < prev.len() && (#[trigger] prev[k]).screen_indices@.contains(
                                index,
                            );
                        assert(next[k] == prev[k]);
                    }
                    if indices@.contains(index) {
                        assert(next[i as int] == self.sources@[i as int]);
                    }
                }
            }
            i = i + 1;
        }
        assert(self.sources@.subrange(0, self.sources@.len() as int) =~= self.sources@);
        r
    }

    /// Re-derives each folder's selection and status for the current mode
    /// (see `applied_source`).
    pub fn apply_generation_mode(&mut self)
        ensures
            final(self).sources@.len() == old(self).sources@.len(),
            forall|k: int|
                0 <= k < final(self).sources@.len() ==> #[trigger] final(self).sources@[k]
                    == applied_source(old(self).sources@[k], old(self).generation_mode),
            final(self).generation_mode == old(self).generation_mode,
            final(self).language == old(self).language,
            final(self).next_id == old(self).next_id,
            final(self).generating == old(self).generating,
            final(self).cancel_requested == old(self).cancel_requested,
            final(self).status_message == old(self).status_message,
    {
        let mode = self.generation_mode;
        let mut i: usize = 0;
        while i < self.sources.len()
            invariant
                i <= self.sources@.len(),
                mode == old(self).generation_mode,
                self.generation_mode == old(self).generation_mode,
                self.language == old(self).language,
                self.next_id == old(self).next_id,
                self.generating == old(self).generating,
                self.cancel_requested == old(self).cancel_requested,
                self.status_message == old(self).status_message,
                self.sources@.len() == old(self).sources@.len(),
                forall|k: int|
                    0 <= k < i ==> #[trigger] self.sources@[k] == applied_source(
                        old(self).sources@[k],
                        mode,
                    ),
                forall|k: int| i <= k < self.sources@.len() ==> #[trigger] self.sources@[k]
                    == old(self).sources@[k],
            decreases self.sources@.len() - i,
        {
            let can = self.sources[i].can_generate_for_mode(mode);
            let generating = match self.sources[i].status {
                SourceStatus::Generating { .. } => true,
                _ => false,
            };
            let fresh = self.sources[i].status_for_mode(mode);
            let ghost before = self.sources@;
            let s = self.sources.remove(i);
            let status = if generating {
                s.status
            } else {
                fresh
            };
            let updated = VideoSource {
                id: s.id,
                label: s.label,
                input_dir: s.input_dir,
                output_path: s.output_path,
                image_count: s.image_count,
                single_compatible_count: s.single_compatible_count,
                screen_indices: s.screen_indices,
                selected: s.selected && can,
                external: s.external,
                status,
            };
            self.sources.insert(i, updated);
            proof {
                assert(self.sources@ =~= before.update(i as int, updated));
            }
            i = i + 1;
        }
    }

    /// Falls back to the composed video when the chosen screen is in no
    /// folder (see `available_mode`).
    pub fn ensure_generation_mode_available(&mut self)
        ensures
            final(self).generation_mode == available_mode(old(self).sources@, old(self).generation_mode),
            final(self).sources@ == old(self).sources@,
            final(self).language == old(self).language,
            final(self).next_id == old(self).next_id,
            final(self).generating == old(self).generating,
            final(self).cancel_requested == old(self).cancel_requested,
            final(self).status_message == old(self).status_message,
    {
        match self.generation_mode {
            VideoGenerationMode::SingleScreen(index) => {
                let mut found = false;
                let mut i: usize = 0;
                while i < self.sources.len()
                    invariant
                        i <= self.sources@.len(),
                        found == some_source_has_screen(self.sources@.subrange(0, i as int), index),
                    decreases self.sources@.len() - i,
                {
                    let ghost prev = self.sources@.subrange(0, i as int);
                    let ghost next = self.sources@.subrange(0, i + 1);
                    if has_index(&self.sources[i].screen_indices, index) {
                        assert(next[i as int] == self.sources@[i as int]);
                        found = true;
                    }
                    proof {
                        if some_source_has_screen(next, index) && !self.sources@[i as int].screen_indices@.contains(index) {
                            let k = choose|k: int|
                                0 <= k < next.len() && (#[trigger] next[k]).screen_indices@.contains(index);
                            assert(prev[k] == next[k]);
                        }
                        if some_source_has_screen(prev, index) {
                            let k = choose|k: int|
                                0 <= k < prev.len() && (#[trigger] prev[k]).screen_indices@.contains(index);
                            assert(next[k] == prev[k]);
                        }
                    }
                    i = i + 1;
                }
                assert(self.sources@.subrange(0, self.sources@.len() as int) =~= self.sources@);
                if !found {
                    self.generation_mode = VideoGenerationMode::MultiScreen;
                }
            },
            VideoGenerationMode::MultiScreen => {},
        }
    }

    /// Switches to `mode` and re-derives the folders for it; nothing
    /// changes when it is the current mode.
    pub fn set_generation_mode(&mut self, mode: VideoGenerationMode)
        ensures
            final(self).generation_mode == mode,
            final(self).sources@.len() == old(self).sources@.len(),
            forall|k: int|
                0 <= k < final(self).sources@.len() ==> #[trigger] final(self).sources@[k] == if mode
                    == old(self).generation_mode {
                    old(self).sources@[k]
                } else {
                    applied_source(old(self).sources@[k], mode)
                },
            final(self).language == old(self).language,
            final(self).next_id == old(self).next_id,
            final(self).generating == old(self).generating,
            final(self).cancel_requested == old(self).cancel_requested,
            final(self).status_message == old(self).status_message,
    {
        if self.generation_mode == mode {
            return;
        }
        self.generation_mode = mode;
        self.apply_generation_mode();
    }

    /// Adds a folder at the end of the list with the next id, unselected,
    /// with the status of the current mode.
    pub fn push_source(
        &mut self,
        label: String,
        input_dir: String,
        output_path: String,
        external: bool,
        stats: VideoSourceStats,
    )
        requires
            old(self).next_id < u64::MAX,
        ensures
            final(self).sources@.len() == old(self).sources@.len() + 1,
            forall|k: int|
                0 <= k < old(self).sources@.len() ==> #[trigger] final(self).sources@[k]
                    == old(self).sources@[k],
            ({
                let added = final(self).sources@.last();
                let fresh = VideoSource {
                    id: old(self).next_id,
                    label,
                    input_dir,
                    output_path,
                    image_count: stats.image_count,
                    single_compatible_count: stats.single_compatible_count,
                    screen_indices: stats.screen_indices,
                    selected: false,
                    external,
                    status: SourceStatus::Ready,
                };
                added == VideoSource { status: status_in(fresh, old(self).generation_mode), ..fresh }
            }),
            final(self).next_id == old(self).next_id + 1,
            final(self).generation_mode == old(self).generation_mode,
            final(self).language == old(self).language,
            final(self).generating == old(self).generating,
            final(self).cancel_requested == old(self).cancel_requested,
            final(self).status_message == old(self).status_message,
    {
        let fresh = VideoSource {
            id: self.next_id,
            label,
            input_dir,
            output_path,
            image_count: stats.image_count,
            single_compatible_count: stats.single_compatible_count,
            screen_indices: stats.screen_indices,
            selected: false,
            external,
            status: SourceStatus::Ready,
        };
        let status = fresh.status_for_mode(self.generation_mode);
        let source = VideoSource { status, ..fresh };
        self.sources.push(source);
        self.next_id = self.next_id + 1;
    }

    /// Starts a run: with no job, says that nothing is selected; otherwise
    /// marks every folder of the run as being generated, says so, and
    /// returns the jobs (see `selected_jobs`).
    pub fn begin_generation(&mut self) -> (r: Vec<VideoJob>)
        ensures
            r@.len() == job_sources(old(self).sources@, old(self).generation_mode).len(),
            forall|k: int|
                0 <= k < r@.len() ==> job_values(#[trigger] r@[k]) == job_view(
                    job_sources(old(self).sources@, old(self).generation_mode)[k],
                    old(self).generation_mode,
                ),
            r@.len() == 0 ==> {
                &&& final(self).status_message@ == no_selection_text(old(self).language)
                &&& final(self).sources@ == old(self).sources@
                &&& final(self).generating == old(self).generating
                &&& final(self).cancel_requested == old(self).cancel_requested
            },
            r@.len() > 0 ==> {
                &&& final(self).status_message@ == generating_text(old(self).language)
                &&& final(self).generating
                &&& !final(self).cancel_requested
                &&& final(self).sources@.len() == old(self).sources@.len()
                &&& forall|k: int|
                    0 <= k < final(self).sources@.len() ==> #[trigger] final(self).sources@[k]
                        == if in_run(old(self).sources@, old(self).generation_mode, old(self).sources@[k].id) {
                        VideoSource {
                            status: SourceStatus::Generating { progress: None },
                            ..old(self).sources@[k]
                        }
                    } else {
                        old(self).sources@[k]
                    }
            },
            final(self).generation_mode == old(self).generation_mode,
            final(self).language == old(self).language,
            final(self).next_id == old(self).next_id,
    {
        let jobs = self.selected_jobs();
        let text = self.text();
        if jobs.len() == 0 {
            self.status_message = owned(text.no_selection());
            return jobs;
        }
        self.status_message = owned(text.generating());
        let mode = self.generation_mode;
        let ghost start = self.sources@;
        let mut i: usize = 0;
        while i < self.sources.len()
            invariant
                i <= self.sources@.len(),
                self.sources@.len() == start.len(),
                mode == self.generation_mode,
                start == old(self).sources@,
                mode == old(self).generation_mode,
                self.language == old(self).language,
                self.next_id == old(self).next_id,
                self.generating == old(self).generating,
                self.cancel_requested == old(self).cancel_requested,
                self.status_message@ == generating_text(old(self).language),
                jobs@.len() == job_sources(start, mode).len(),
                forall|k: int|
                    0 <= k < jobs@.len() ==> job_values(#[trigger] jobs@[k]) == job_view(
                        job_sources(start, mode)[k],
                        mode,
                    ),
                forall|k: int|
                    0 <= k < i ==> #[trigger] self.sources@[k] == if in_run(start, mode, start[k].id) {
                        VideoSource { status: SourceStatus::Generating { progress: None }, ..start[k] }
                    } else {
                        start[k]
                    },
                forall|k: int| i <= k < self.sources@.len() ==> #[trigger] self.sources@[k] == start[k],
            decreases self.sources@.len() - i,
        {
            let id = self.sources[i].id;
            let mut member = false;
            let mut j: usize = 0;
            while j < jobs.len()
                invariant
                    j <= jobs@.len(),
                    jobs@.len() == job_sources(start, mode).len(),
                    forall|k: int|
                        0 <= k < jobs@.len() ==> job_values(#[trigger] jobs@[k]) == job_view(
                            job_sources(start, mode)[k],
                            mode,
                        ),
                    member <==> exists|k: int|
                        0 <= k < j && (#[trigger] job_sources(start, mode)[k]).id == id,
                decreases jobs@.len() - j,
            {
                if jobs[j].id == id {
                    assert(job_values(jobs@[j as int]).0 == job_sources(start, mode)[j as int].id);
                    member = true;
                }
                j = j + 1;
            }
            if member {
                let ghost before = self.sources@;
                let s = self.sources.remove(i);
                let updated = VideoSource {
                    id: s.id,
                    label: s.label,
                    input_dir: s.input_dir,
                    output_path: s.output_path,
                    image_count: s.image_count,
                    single_compatible_count: s.single_compatible_count,
                    screen_indices: s.screen_indices,
                    selected: s.selected,
                    external: s.external,
                    status: SourceStatus::Generating { progress: None },
                };
                self.sources.insert(i, updated);
                assert(self.sources@ =~= before.update(i as int, updated));
            }
            i = i + 1;
        }
        self.generating = true;
        self.cancel_requested = false;
        jobs
    }

    /// Follows one report of a run. A started folder shows that it is being
    /// generated; a progress report shows the step; a finished folder shows
    /// its result; the end of the run clears the run's flags and shows the
    /// summary (see `batch_text`), and the reports stop (`false`). The
    /// status line names the folder (see `label_of`).
    pub fn handle_event(&mut self, event: GenerateEvent) -> (keep: bool)
        ensures
            final(self).generation_mode == old(self).generation_mode,
            final(self).language == old(self).language,
            final(self).next_id == old(self).next_id,
            match event {
                GenerateEvent::Started(id) => {
                    &&& keep
                    &&& final(self).sources@ == with_status(
                        old(self).sources@,
                        id,
                        SourceStatus::Generating { progress: None },
                    )
                    &&& final(self).status_message@ == generating_text(old(self).language) + ": "@
                        + label_of(old(self).sources@, id)
                    &&& final(self).generating == old(self).generating
                    &&& final(self).cancel_requested == old(self).cancel_requested
                },
                GenerateEvent::Progress(id, progress) => {
                    &&& keep
                    &&& final(self).sources@ == with_status(
                        old(self).sources@,
                        id,
                        SourceStatus::Generating { progress: Some(progress) },
                    )
                    &&& final(self).status_message@ == label_of(old(self).sources@, id) + ": "@
                        + progress_text(old(self).language, progress)
                    &&& final(self).generating == old(self).generating
                    &&& final(self).cancel_requested == old(self).cancel_requested
                },
                GenerateEvent::Finished(id, result) => {
                    &&& keep
                    &&& final(self).generating == old(self).generating
                    &&& final(self).cancel_requested == old(self).cancel_requested
                    &&& match result {
                        Ok((frame_count, skipped)) => {
                            &&& final(self).sources@ == with_status(
                                old(self).sources@,
                                id,
                                SourceStatus::Done { frame_count, skipped },
                            )
                            &&& final(self).status_message@ == label_of(old(self).sources@, id)
                                + ": "@ + generation_done_text(
                                old(self).language,
                                frame_count as nat,
                                skipped as nat,
                            )
                        },
                        Err(error) => {
                            &&& final(self).sources@ == with_status(
                                old(self).sources@,
                                id,
                                SourceStatus::Failed(error),
                            )
                            &&& final(self).status_message@ == label_of(old(self).sources@, id)
                                + ": "@ + failed_text(old(self).language) + ": "@ + error@
                        },
                    }
                },
                GenerateEvent::AllDone => {
                    &&& !keep
                    &&& !final(self).generating
                    &&& !final(self).cancel_requested
                    &&& final(self).sources@ == old(self).sources@
                    &&& final(self).status_message@ == batch_text(
                        old(self).language,
                        old(self).sources@,
                    )
                },
            },
    {
        let text = self.text();
        match event {
            GenerateEvent::Started(id) => {
                let label = self.source_label(id);
                set_source_status(&mut self.sources, id, SourceStatus::Generating { progress: None });
                self.status_message = colon_join(text.generating(), label.as_str());
                true
            },
            GenerateEvent::Progress(id, progress) => {
                let label = self.source_label(id);
                let message = progress_status_label(&text, &progress);
                set_source_status(
                    &mut self.sources,
                    id,
                    SourceStatus::Generating { progress: Some(progress) },
                );
                self.status_message = colon_join(label.as_str(), message.as_str());
                true
            },
            GenerateEvent::Finished(id, result) => {
                let label = self.source_label(id);
                match result {
                    Ok((frame_count, skipped)) => {
                        let done = text.generation_done_status(frame_count, skipped);
                        set_source_status(
                            &mut self.sources,
                            id,
                            SourceStatus::Done { frame_count, skipped },
                        );
                        self.status_message = colon_join(label.as_str(), done.as_str());
                    },
                    Err(error) => {
                        let mut out: Vec<char> = Vec::new();
                        push_str(&mut out, label.as_str());
                        push_str(&mut out, ": ");
                        push_str(&mut out, text.failed());
                        push_str(&mut out, ": ");
                        push_str(&mut out, error.as_str());
                        set_source_status(&mut self.sources, id, SourceStatus::Failed(error));
                        self.status_message = string_of(&out);
                    },
                }
                true
            },
            GenerateEvent::AllDone => {
                self.generating = false;
                self.cancel_requested = false;
                self.status_message = self.batch_status_message();
                false
            },
        }
    }

    /// Asks a running generation to stop, when there is one to stop
    /// (`has_run`): the request is remembered and the status line says so.
    pub fn cancel_generation(&mut self, has_run: bool)
        ensures
            has_run ==> final(self).cancel_requested && final(self).status_message@
                == cancelling_text(old(self).language),
            !has_run ==> final(self).cancel_requested == old(self).cancel_requested
                && final(self).status_message == old(self).status_message,
            final(self).sources@ == old(self).sources@,
            final(self).generating == old(self).generating,
            final(self).generation_mode == old(self).generation_mode,
            final(self).language == old(self).language,
            final(self).next_id == old(self).next_id,
    {
        if has_run {
            self.cancel_requested = true;
            self.status_message = owned(self.text().cancelling());
        }
    }

    /// The folder whose progress the run dialog shows: the first one being
    /// generated with a known step, with its label and step.
    pub fn current_generation_status(&self) -> (r: Option<(String, VideoGenerationProgress)>)
        ensures
            match r {
                Some((label, progress)) => exists|k: int|
                    #[trigger] first_in_progress(self.sources@, k) && label@ == self.sources@[k].label@
                        && self.sources@[k].status == (SourceStatus::Generating { progress: Some(progress) }),
                None => forall|k: int|
                    0 <= k < self.sources@.len() ==> !has_known_step((#[trigger] self.sources@[k]).status),
            },
    {
        let mut i: usize = 0;
        while i < self.sources.len()
            invariant
                i <= self.sources@.len(),
                forall|k: int|
                    0 <= k < i ==> !has_known_step((#[trigger] self.sources@[k]).status),
            decreases self.sources@.len() - i,
        {
            match &self.sources[i].status {
                SourceStatus::Generating { progress: Some(p) } => {
                    assert(first_in_progress(self.sources@, i as int));
                    return Some((owned(self.sources[i].label.as_str()), *p));
                },
                _ => {},
            }
            i = i + 1;
        }
        None
    }
}

/// Whether a folder is being generated with a known step.
pub open spec fn has_known_step(status: SourceStatus) -> bool {
    match status {
        SourceStatus::Generating { progress: Some(_) } => true,
        _ => false,
    }
}

/// Whether `k` is the first folder being generated with a known step.
pub open spec fn first_in_progress(s: Seq<VideoSource>, k: int) -> bool {
    &&& 0 <= k < s.len()
    &&& has_known_step(s[k].status)
    &&& forall|j: int|
        0 <= j < k ==> !has_known_step((#[trigger] s[j]).status)
}


/// After the generation mode changes, a folder stays selected only if it
/// can be generated in the new mode, and a folder that is not being
/// generated shows the new mode's status; a folder without images is
/// unavailable in every mode and cannot be generated.
pub proof fn lemma_mode_change_selection(s: VideoSource, mode: VideoGenerationMode)
    ensures
        applied_source(s, mode).selected ==> can_generate_in(s, mode),
        !(s.status is Generating) ==> applied_source(s, mode).status == status_in(s, mode),
        s.image_count == 0 ==> status_in(s, mode) is Unavailable && !can_generate_in(s, mode),
{
}

/// Whether a character may stand in a made-up file stem.
pub open spec fn stem_safe(c: char) -> bool {
    is_ascii_alnum(c) || c == '-' || c == '_'
}

proof fn lemma_strip_leading(s: Seq<char>)
    ensures
        exists|i: int|
            0 <= i <= s.len() && #[trigger] strip_leading_underscores(s) == s.subrange(i, s.len() as int),
        strip_leading_underscores(s).len() > 0 ==> strip_leading_underscores(s)[0] != '_',
    decreases s.len(),
{
    if s.len() > 0 && s[0] == '_' {
        lemma_strip_leading(s.drop_first());
        let i = choose|i: int|
            0 <= i <= s.drop_first().len() && #[trigger] strip_leading_underscores(s.drop_first())
                == s.drop_first().subrange(i, s.drop_first().len() as int);
        assert(s.drop_first().subrange(i, s.drop_first().len() as int) =~= s.subrange(i + 1, s.len() as int));
    } else {
        assert(s.subrange(0, s.len() as int) =~= s);
    }
}

proof fn lemma_strip_trailing(s: Seq<char>)
    ensures
        exists|j: int| 0 <= j <= s.len() && #[trigger] strip_trailing_underscores(s) == s.subrange(0, j),
        strip_trailing_underscores(s).len() > 0 ==> strip_trailing_underscores(s).last() != '_',
    decreases s.len(),
{
    if s.len() > 0 && s.last() == '_' {
        lemma_strip_trailing(s.drop_last());
        let j = choose|j: int|
            0 <= j <= s.drop_last().len() && #[trigger] strip_trailing_underscores(s.drop_last())
                == s.drop_last().subrange(0, j);
        assert(s.drop_last().subrange(0, j) =~= s.subrange(0, j));
    } else {
        assert(s.subrange(0, s.len() as int) =~= s);
    }
}

/// A made-up file stem is never empty, holds only ASCII letters, digits,
/// `-` and `_`, and neither starts nor ends with `_`.
pub proof fn lemma_sanitized_stem_safe(value: Seq<char>)
    ensures
        sanitized_stem(value).len() > 0,
        forall|k: int| 0 <= k < sanitized_stem(value).len() ==> stem_safe(#[trigger] sanitized_stem(value)[k]),
        sanitized_stem(value)[0] != '_',
        sanitized_stem(value).last() != '_',
{
    let mapped = value.map_values(|c: char| stem_char(c));
    let front = strip_leading_underscores(mapped);
    let trimmed = strip_trailing_underscores(front);
    lemma_strip_leading(mapped);
    lemma_strip_trailing(front);
    let i = choose|i: int| 0 <= i <= mapped.len() && #[trigger] strip_leading_underscores(mapped) == mapped.subrange(i, mapped.len() as int);
    let j = choose|j: int| 0 <= j <= front.len() && #[trigger] strip_trailing_underscores(front) == front.subrange(0, j);
    if trimmed.len() == 0 {
        reveal_strlit("imported-folder");
        assert forall|k: int| 0 <= k < sanitized_stem(value).len() implies stem_safe(#[trigger] sanitized_stem(value)[k]) by {
            reveal_strlit("imported-folder");
        }
    } else {
        assert forall|k: int| 0 <= k < trimmed.len() implies stem_safe(#[trigger] trimmed[k]) by {
            assert(trimmed[k] == front[k]);
            assert(front[k] == mapped[i + k]);
            assert(mapped[i + k] == stem_char(value[i + k]));
        }
        assert(trimmed[0] == front[0]);
    }
}

/// Making a stem of a stem gives it back, and a stem is never longer than
/// the name it was made from unless it is the `imported-folder` default.
pub proof fn lemma_sanitized_stem_stable(value: Seq<char>)
    ensures
        sanitized_stem(sanitized_stem(value)) == sanitized_stem(value),
        sanitized_stem(value) == "imported-folder"@ || sanitized_stem(value).len() <= value.len(),
{
    let r = sanitized_stem(value);
    lemma_sanitized_stem_safe(value);
    let m = r.map_values(|c: char| stem_char(c));
    assert(m =~= r) by {
        assert forall|k: int| 0 <= k < r.len() implies m[k] == r[k] by {
            assert(stem_safe(r[k]));
        }
    }
    assert(strip_leading_underscores(r) == r);
    assert(strip_trailing_underscores(r) == r);
    let mapped = value.map_values(|c: char| stem_char(c));
    let front = strip_leading_underscores(mapped);
    lemma_strip_leading(mapped);
    lemma_strip_trailing(front);
    let i = choose|i: int|
        0 <= i <= mapped.len() && #[trigger] strip_leading_underscores(mapped) == mapped.subrange(
            i,
            mapped.len() as int,
        );
    let j = choose|j: int|
        0 <= j <= front.len() && #[trigger] strip_trailing_underscores(front) == front.subrange(0, j);
    assert(strip_trailing_underscores(front).len() <= value.len());
}

/// What a capture writes, the history window reads back: a screenshot of
/// a batch (see `batch_name`; its timestamp has the three fields the
/// capture writes and its numbers fit their fields) is an image, belongs to
/// its screen exactly when the batch has multi-screen names, and is used by
/// the video of that screen.
pub proof fn lemma_written_names_are_recognised(
    timestamp: Seq<char>,
    sequence: u64,
    use_multi_names: bool,
    format: ScreenshotFormat,
    screen_index: u32,
)
    requires
        is_name_timestamp(timestamp),
        fits_name_fields(
            if use_multi_names {
                Some(screen_index)
            } else {
                None
            },
            sequence,
        ),
    ensures
        is_image(batch_name(timestamp, sequence, use_multi_names, format, screen_index)),
        screen_of(batch_name(timestamp, sequence, use_multi_names, format, screen_index)) == if use_multi_names {
            Some(screen_index)
        } else {
            None
        },
        used_in_mode(
            batch_name(timestamp, sequence, use_multi_names, format, screen_index),
            VideoGenerationMode::SingleScreen(screen_index),
        ),
{
    lemma_screenshot_name_round_trip(
        timestamp,
        if use_multi_names {
            Some(screen_index)
        } else {
            None
        },
        sequence,
        format,
    );
}

} // verus!
