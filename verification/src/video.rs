//! Turning a day's screenshots into a video: which images become frames and
//! in what order, the names of the numbered frame files, and the encoder's
//! command line.

use vstd::prelude::*;
use crate::capture::is_permutation;
use crate::config::{ScreenshotFormat, VideoCodec, extension_text, video_encoder_text};
use crate::naming::{path_format, screenshot_format_for_path};
use crate::textutil::{chars_of, decimal, push_decimal, push_str, string_of, zero_pad};

verus! {

/// Which screenshots a video is made of: every batch composed, or the
/// images of one screen.
#[derive(Clone, Copy, Debug, PartialEq, Eq, Structural)]
pub enum VideoGenerationMode {
    MultiScreen,
    SingleScreen(u32),
}

/// How far a video generation has got.
#[derive(Clone, Copy, Debug, PartialEq, Eq, Structural)]
pub enum VideoGenerationProgress {
    Scanning,
    PreparingFrames { current: usize, total: usize },
    Encoding,
    Replacing,
}

/// Why a video could not be made.
#[derive(Clone, Copy, Debug, PartialEq, Eq, Structural)]
pub enum VideoError {
    /// No screenshot was found among the images.
    NoImages,
}

/// Whether path `a` comes strictly before path `b`: character by character,
/// the separator `/` before every other character (so that paths compare
/// component by component), a proper prefix first.
pub open spec fn path_lt(a: Seq<char>, b: Seq<char>) -> bool
    decreases a.len(),
{
    if a.len() == 0 {
        b.len() > 0
    } else if b.len() == 0 {
        false
    } else if a[0] == b[0] {
        path_lt(a.drop_first(), b.drop_first())
    } else if a[0] == '/' {
        true
    } else if b[0] == '/' {
        false
    } else {
        a[0] < b[0]
    }
}

/// Paths are ordered at their first difference: after a common beginning
/// `p`, a separator comes before any other character, two other characters
/// compare by code point (so `p + "0..."` comes before `p + "1..."`), and
/// a path that stops comes before one that goes on.
pub proof fn lemma_path_order_at_first_difference(p: Seq<char>, x: Seq<char>, y: Seq<char>)
    ensures
        x.len() > 0 && y.len() > 0 && x[0] != '/' && y[0] != '/' && x[0] < y[0] ==> path_lt(p + x, p + y)
            && !path_lt(p + y, p + x),
        x.len() > 0 && y.len() > 0 && x[0] == '/' && y[0] != '/' ==> path_lt(p + x, p + y) && !path_lt(
            p + y,
            p + x,
        ),
        y.len() > 0 ==> path_lt(p, p + y) && !path_lt(p + y, p),
    decreases p.len(),
{
    if p.len() > 0 {
        lemma_path_order_at_first_difference(p.drop_first(), x, y);
        assert((p + x).drop_first() =~= p.drop_first() + x);
        assert((p + y).drop_first() =~= p.drop_first() + y);
        assert((p + x)[0] == p[0] && (p + y)[0] == p[0]);
        assert(p.drop_first() =~= p.drop_first() + Seq::<char>::empty());
    } else {
        assert(p + x =~= x);
        assert(p + y =~= y);
    }
}

proof fn lemma_path_lt_irreflexive(a: Seq<char>)
    ensures
        !path_lt(a, a),
    decreases a.len(),
{
    if a.len() > 0 {
        lemma_path_lt_irreflexive(a.drop_first());
    }
}

proof fn lemma_path_lt_trans(a: Seq<char>, b: Seq<char>, c: Seq<char>)
    requires
        path_lt(a, b),
        path_lt(b, c),
    ensures
        path_lt(a, c),
    decreases a.len(),
{
    if a.len() > 0 && b.len() > 0 && c.len() > 0 {
        if a[0] == b[0] && b[0] == c[0] {
            lemma_path_lt_trans(a.drop_first(), b.drop_first(), c.drop_first());
        }
    }
}

/// Decides `path_lt`.
fn path_less(a: &Vec<char>, b: &Vec<char>) -> (r: bool)
    ensures
        r == path_lt(a@, b@),
{
    let mut i: usize = 0;
    assert(a@.subrange(0, a@.len() as int) =~= a@);
    assert(b@.subrange(0, b@.len() as int) =~= b@);
    while i < a.len() && i < b.len()
        invariant
            i <= a@.len(),
            i <= b@.len(),
            path_lt(a@, b@) == path_lt(a@.subrange(i as int, a@.len() as int), b@.subrange(i as int, b@.len() as int)),
        decreases a@.len() - i,
    {
        let ghost sa = a@.subrange(i as int, a@.len() as int);
        let ghost sb = b@.subrange(i as int, b@.len() as int);
        assert(sa[0] == a@[i as int]);
        assert(sb[0] == b@[i as int]);
        let ca = a[i];
        let cb = b[i];
        if ca != cb {
            if ca == '/' {
                return true;
            }
            if cb == '/' {
                return false;
            }
            return ca < cb;
        }
        assert(sa.drop_first() =~= a@.subrange(i + 1, a@.len() as int));
        assert(sb.drop_first() =~= b@.subrange(i + 1, b@.len() as int));
        i = i + 1;
    }
    proof {
        let sa = a@.subrange(i as int, a@.len() as int);
        let sb = b@.subrange(i as int, b@.len() as int);
        assert(sa.len() == 0 || sb.len() == 0);
    }
    i == a.len() && i < b.len()
}

/// The paths among `paths` that name a screenshot image, in order.
pub open spec fn screenshot_paths(paths: Seq<String>) -> Seq<String>
    decreases paths.len(),
{
    if paths.len() == 0 {
        Seq::empty()
    } else {
        let rest = screenshot_paths(paths.drop_last());
        if path_format(paths.last()@) is Some {
            rest.push(paths.last())
        } else {
            rest
        }
    }
}

/// Whether `out` is `input` in path order through `perm`.
pub open spec fn sorted_paths_of(input: Seq<String>, out: Seq<String>, perm: Seq<int>) -> bool {
    &&& is_permutation(perm, input.len())
    &&& out.len() == input.len()
    &&& forall|k: int| 0 <= k < out.len() ==> #[trigger] out[k] == input[perm[k]]
    &&& forall|a: int, b: int|
        0 <= a < b < out.len() ==> !path_lt((#[trigger] out[b])@, (#[trigger] out[a])@)
}

/// The paths in path order.
pub fn sort_paths(input: Vec<String>) -> (r: Vec<String>)
    ensures
        exists|perm: Seq<int>| #[trigger] sorted_paths_of(input@, r@, perm),
{
    let n = input.len();
    let mut sorted: Vec<String> = Vec::new();
    let mut keys: Vec<Vec<char>> = Vec::new();
    let ghost mut perm: Seq<int> = Seq::empty();
    let mut i: usize = 0;
    while i < n
        invariant
            n == input@.len(),
            i <= n,
            sorted@.len() == i,
            keys@.len() == i,
            perm.len() == i,
            forall|k: int| 0 <= k < i ==> #[trigger] keys@[k]@ == sorted@[k]@,
            forall|k: int| 0 <= k < i ==> 0 <= #[trigger] perm[k] < i,
            forall|a: int, b: int| 0 <= a < b < i ==> perm[a] != perm[b],
            forall|k: int| 0 <= k < i ==> #[trigger] sorted@[k] == input@[perm[k]],
            forall|a: int, b: int|
                0 <= a < b < i ==> !path_lt((#[trigger] sorted@[b])@, (#[trigger] sorted@[a])@),
        decreases n - i,
    {
        let item = input[i].clone();
        let key = chars_of(input[i].as_str());
        let mut p: usize = 0;
        while p < sorted.len() && !path_less(&key, &keys[p])
            invariant
                p <= sorted@.len(),
                keys@.len() == sorted@.len(),
                forall|k: int| 0 <= k < sorted@.len() ==> #[trigger] keys@[k]@ == sorted@[k]@,
                forall|k: int| 0 <= k < p ==> !path_lt(key@, (#[trigger] sorted@[k])@),
            decreases sorted@.len() - p,
        {
            p = p + 1;
        }
        proof {
            assert forall|k: int| p <= k < sorted@.len() implies !path_lt(
                (#[trigger] sorted@[k])@,
                key@,
            ) by {
                assert(path_lt(key@, sorted@[p as int]@));
                if path_lt(sorted@[k]@, key@) {
                    lemma_path_lt_trans(sorted@[k]@, key@, sorted@[p as int]@);
                    if k == p {
                        lemma_path_lt_irreflexive(sorted@[k]@);
                    }
                }
            }
        }
        let ghost old_sorted = sorted@;
        let ghost old_keys = keys@;
        let ghost old_perm = perm;
        sorted.insert(p, item);
        keys.insert(p, key);
        proof {
            perm = old_perm.insert(p as int, i as int);
            assert forall|k: int| 0 <= k < i + 1 implies #[trigger] keys@[k]@ == sorted@[k]@ by {
                if k < p {
                    assert(keys@[k] == old_keys[k]);
                    assert(sorted@[k] == old_sorted[k]);
                } else if k > p {
                    assert(keys@[k] == old_keys[k - 1]);
                    assert(sorted@[k] == old_sorted[k - 1]);
                }
            }
            assert forall|k: int| 0 <= k < i + 1 implies #[trigger] sorted@[k] == input@[perm[k]] by {
                if k < p {
                    assert(sorted@[k] == old_sorted[k]);
                } else if k > p {
                    assert(sorted@[k] == old_sorted[k - 1]);
                }
            }
            assert forall|a: int, b: int| 0 <= a < b < i + 1 implies !path_lt(
                (#[trigger] sorted@[b])@,
                (#[trigger] sorted@[a])@,
            ) by {
                if a < p && b < p {
                    assert(!path_lt(old_sorted[b]@, old_sorted[a]@));
                } else if a < p && b > p {
                    assert(!path_lt(old_sorted[b - 1]@, old_sorted[a]@));
                } else if a > p {
                    assert(!path_lt(old_sorted[b - 1]@, old_sorted[a - 1]@));
                } else if a == p {
                    assert(!path_lt(old_sorted[b - 1]@, key@));
                } else {
                    assert(!path_lt(key@, old_sorted[a]@));
                }
            }
            assert forall|a: int, b: int| 0 <= a < b < i + 1 implies perm[a] != perm[b] by {
                if a < p && b > p {
                    assert(old_perm[a] != old_perm[b - 1]);
                } else if a > p {
                    assert(old_perm[a - 1] != old_perm[b - 1]);
                }
            }
        }
        i = i + 1;
    }
    assert(sorted_paths_of(input@, sorted@, perm));
    sorted
}

/// Keeps the paths that name a screenshot image, in order.
fn keep_screenshots(images: Vec<String>) -> (r: Vec<String>)
    ensures
        r@ == screenshot_paths(images@),
{
    let mut r: Vec<String> = Vec::new();
    let mut i: usize = 0;
    while i < images.len()
        invariant
            i <= images@.len(),
            r@ == screenshot_paths(images@.subrange(0, i as int)),
        decreases images@.len() - i,
    {
        let ghost after = images@.subrange(0, i + 1);
        assert(after.drop_last() =~= images@.subrange(0, i as int));
        if screenshot_format_for_path(images[i].as_str()).is_some() {
            r.push(images[i].clone());
        }
        i = i + 1;
    }
    assert(images@.subrange(0, images@.len() as int) =~= images@);
    r
}

/// The frames of a video: the screenshots among `images` in path order,
/// to be written in `image_format`; an error when there is none.
pub fn choose_video_images(images: Vec<String>, image_format: ScreenshotFormat) -> (r: Result<
    (Vec<String>, ScreenshotFormat),
    VideoError,
>)
    ensures
        match r {
            Ok((frames, format)) => {
                &&& format == image_format
                &&& frames@.len() > 0
                &&& exists|perm: Seq<int>|
                    #[trigger] sorted_paths_of(screenshot_paths(images@), frames@, perm)
            },
            Err(e) => e == VideoError::NoImages && screenshot_paths(images@).len() == 0,
        },
{
    let kept = keep_screenshots(images);
    let n = kept.len();
    let sorted = sort_paths(kept);
    if n == 0 {
        return Err(VideoError::NoImages);
    }
    Ok((sorted, image_format))
}

/// The name of the `index`-th frame file: `frame_`, the index in six digits
/// at least, a dot and the format's extension.
pub open spec fn frame_name_text(index: nat, format: ScreenshotFormat) -> Seq<char> {
    "frame_"@ + zero_pad(decimal(index), 6) + "."@ + extension_text(format)
}

/// The name of the `index`-th frame file.
pub fn frame_file_name(index: usize, format: ScreenshotFormat) -> (r: String)
    ensures
        r@ == frame_name_text(index as nat, format),
{
    let mut out: Vec<char> = Vec::new();
    push_str(&mut out, "frame_");
    push_decimal(&mut out, index as u64, 6);
    push_str(&mut out, ".");
    push_str(&mut out, format.extension());
    string_of(&out)
}

/// The encoder's pattern for the frame files.
pub open spec fn frame_pattern_text(format: ScreenshotFormat) -> Seq<char> {
    "frame_%06d."@ + extension_text(format)
}

/// The encoder's pattern for the frame files: `frame_%06d.` and the
/// format's extension.
pub fn frame_pattern(format: ScreenshotFormat) -> (r: String)
    ensures
        r@ == frame_pattern_text(format),
{
    let mut out: Vec<char> = Vec::new();
    push_str(&mut out, "frame_%06d.");
    push_str(&mut out, format.extension());
    string_of(&out)
}

/// How each chosen image becomes its frame: the frame's file name, and
/// whether the image is already in the frame format (so it can be linked
/// or copied) rather than converted.
pub open spec fn frame_step(index: nat, image: Seq<char>, format: ScreenshotFormat) -> (
    Seq<char>,
    bool,
) {
    (frame_name_text(index, format), path_format(image) == Some(format))
}

/// The frame steps for the chosen images, in order (see `frame_step`).
pub fn frame_plan(images: &Vec<String>, format: ScreenshotFormat) -> (r: Vec<(String, bool)>)
    ensures
        r@.len() == images@.len(),
        forall|k: int|
            0 <= k < r@.len() ==> ((#[trigger] r@[k]).0@, r@[k].1) == frame_step(
                k as nat,
                images@[k]@,
                format,
            ),
{
    let mut r: Vec<(String, bool)> = Vec::new();
    let mut i: usize = 0;
    while i < images.len()
        invariant
            i <= images@.len(),
            r@.len() == i,
            forall|k: int|
                0 <= k < i ==> ((#[trigger] r@[k]).0@, r@[k].1) == frame_step(
                    k as nat,
                    images@[k]@,
                    format,
                ),
        decreases images@.len() - i,
    {
        let name = frame_file_name(i, format);
        let same = match screenshot_format_for_path(images[i].as_str()) {
            Some(f) => f == format,
            None => false,
        };
        r.push((name, same));
        i = i + 1;
    }
    r
}

/// The frame rate given to the encoder: at least one.
pub open spec fn fps_text(fps: u32) -> Seq<char> {
    decimal(if fps < 1 {
        1nat
    } else {
        fps as nat
    })
}

/// The encoder's arguments: overwrite, read the numbered frames from zero
/// at `fps` (at least one), encode with the codec's encoder in yuv420p at
/// even dimensions and the same rate, tag H.265 as `hvc1`, and write
/// `output`.
pub open spec fn ffmpeg_args(
    fps: u32,
    codec: VideoCodec,
    input_pattern: Seq<char>,
    output: Seq<char>,
) -> Seq<Seq<char>> {
    let head = seq![
        "-y"@,
        "-framerate"@,
        fps_text(fps),
        "-start_number"@,
        "0"@,
        "-i"@,
        input_pattern,
        "-c:v"@,
        video_encoder_text(codec),
        "-pix_fmt"@,
        "yuv420p"@,
        "-vf"@,
        "scale=trunc(iw/2)*2:trunc(ih/2)*2"@,
        "-r"@,
        fps_text(fps),
    ];
    let tag = if codec == VideoCodec::H265 {
        seq!["-tag:v"@, "hvc1"@]
    } else {
        Seq::empty()
    };
    head + tag + seq![output]
}

/// A string of `s`.
fn owned(s: &str) -> (r: String)
    ensures
        r@ == s@,
{
    let v = chars_of(s);
    string_of(&v)
}

/// The views of a list of strings.
pub open spec fn views_of(v: Seq<String>) -> Seq<Seq<char>> {
    v.map_values(|s: String| s@)
}

/// Builds the encoder's arguments (see `ffmpeg_args`).
pub fn ffmpeg_arguments(fps: u32, codec: VideoCodec, input_pattern: &str, output: &str) -> (r: Vec<
    String,
>)
    ensures
        views_of(r@) == ffmpeg_args(fps, codec, input_pattern@, output@),
{
    let mut fps_chars: Vec<char> = Vec::new();
    push_decimal(&mut fps_chars, if fps < 1 {
        1
    } else {
        fps as u64
    }, 0);
    let mut r: Vec<String> = Vec::new();
    r.push(owned("-y"));
    r.push(owned("-framerate"));
    r.push(string_of(&fps_chars));
    r.push(owned("-start_number"));
    r.push(owned("0"));
    r.push(owned("-i"));
    r.push(owned(input_pattern));
    r.push(owned("-c:v"));
    r.push(owned(codec.encoder()));
    r.push(owned("-pix_fmt"));
    r.push(owned("yuv420p"));
    r.push(owned("-vf"));
    r.push(owned("scale=trunc(iw/2)*2:trunc(ih/2)*2"));
    r.push(owned("-r"));
    r.push(string_of(&fps_chars));
    if codec == VideoCodec::H265 {
        r.push(owned("-tag:v"));
        r.push(owned("hvc1"));
    }
    r.push(owned(output));
    assert(views_of(r@) =~= ffmpeg_args(fps, codec, input_pattern@, output@));
    r
}

} // verus!
