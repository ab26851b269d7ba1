//! The values stored in `config.json`: capture interval choices, the capture
//! source, the screenshot format, the video codec and the interface language,
//! with the text each is written as and the lenient reading of that text.

use vstd::prelude::*;
use crate::textutil::{
    all_digits, ascii_lower, is_digit, is_space, lemma_zero_pad_digits, trim_end, trim_start,
    ascii_lower_seq, chars_eq, chars_eq_str, chars_of, decimal, lower_chars, parse_u32_chars,
    parse_unsigned, push_decimal, push_str, slice_chars, string_of, trim, trim_chars, zero_pad,
};

verus! {

/// The capture intervals, in seconds, that the tray menu offers.
pub const SUPPORTED_INTERVALS: [u64; 4] = [10, 30, 60, 120];

/// The interval used when the stored one is not offered.
pub const DEFAULT_INTERVAL: u64 = 30;

/// The frame rate used when the stored one is zero.
pub const DEFAULT_FPS: u32 = 10;

/// Whether `interval` is one of the offered capture intervals.
pub open spec fn is_supported_interval(interval: u64) -> bool {
    interval == 10 || interval == 30 || interval == 60 || interval == 120
}

/// `SUPPORTED_INTERVALS.contains(&interval)`.
pub fn supported_interval(interval: u64) -> (r: bool)
    ensures
        r == is_supported_interval(interval),
{
    let mut i: usize = 0;
    while i < 4
        invariant
            i <= 4,
            forall|k: int| 0 <= k < i ==> SUPPORTED_INTERVALS[k] != interval,
        decreases 4 - i,
    {
        if SUPPORTED_INTERVALS[i] == interval {
            return true;
        }
        i = i + 1;
    }
    false
}

/// The interval that configuration normalisation keeps: the stored one when
/// it is offered, the default otherwise.
pub fn normalized_interval(interval: u64) -> (r: u64)
    ensures
        r == (if is_supported_interval(interval) {
            interval
        } else {
            DEFAULT_INTERVAL
        }),
        is_supported_interval(r),
{
    if supported_interval(interval) {
        interval
    } else {
        DEFAULT_INTERVAL
    }
}

/// The frame rate that configuration normalisation keeps: the stored one
/// unless it is zero.
pub fn normalized_fps(fps: u32) -> (r: u32)
    ensures
        r == (if fps == 0 {
            DEFAULT_FPS
        } else {
            fps
        }),
        r > 0,
{
    if fps == 0 {
        DEFAULT_FPS
    } else {
        fps
    }
}

/// The lowercased, trimmed form in which configuration text is compared.
pub open spec fn config_key(value: Seq<char>) -> Seq<char> {
    ascii_lower_seq(trim(value))
}

/// Computes `config_key`.
pub fn config_key_of(value: &str) -> (r: Vec<char>)
    ensures
        r@ == config_key(value@),
{
    let v = chars_of(value);
    let t = trim_chars(&v);
    lower_chars(&t)
}

proof fn lemma_trim_start_shape(s: Seq<char>)
    ensures
        exists|i: int| 0 <= i <= s.len() && #[trigger] trim_start(s) == s.subrange(i, s.len() as int),
        trim_start(s).len() > 0 ==> !is_space(trim_start(s)[0]),
    decreases s.len(),
{
    if s.len() > 0 && is_space(s[0]) {
        lemma_trim_start_shape(s.drop_first());
        let i = choose|i: int|
            0 <= i <= s.drop_first().len() && #[trigger] trim_start(s.drop_first())
                == s.drop_first().subrange(i, s.drop_first().len() as int);
        assert(s.drop_first().subrange(i, s.drop_first().len() as int) =~= s.subrange(
            i + 1,
            s.len() as int,
        ));
    } else {
        assert(s.subrange(0, s.len() as int) =~= s);
    }
}

proof fn lemma_trim_end_shape(s: Seq<char>)
    ensures
        exists|j: int| 0 <= j <= s.len() && #[trigger] trim_end(s) == s.subrange(0, j),
        trim_end(s).len() > 0 ==> !is_space(trim_end(s).last()),
    decreases s.len(),
{
    if s.len() > 0 && is_space(s.last()) {
        lemma_trim_end_shape(s.drop_last());
        let j = choose|j: int|
            0 <= j <= s.drop_last().len() && #[trigger] trim_end(s.drop_last()) == s.drop_last().subrange(
                0,
                j,
            );
        assert(s.drop_last().subrange(0, j) =~= s.subrange(0, j));
    } else {
        assert(s.subrange(0, s.len() as int) =~= s);
    }
}

/// Lowercasing never makes or removes whitespace, and lowercasing twice is
/// lowercasing once.
proof fn lemma_ascii_lower_char(c: char)
    ensures
        is_space(ascii_lower(c)) == is_space(c),
        ascii_lower(ascii_lower(c)) == ascii_lower(c),
{
    if 'A' <= c && c <= 'Z' {
        assert('a' <= ascii_lower(c) && ascii_lower(c) <= 'z');
    }
}

/// The compared form of configuration text is its own compared form.
pub proof fn lemma_config_key_idempotent(value: Seq<char>)
    ensures
        config_key(config_key(value)) == config_key(value),
{
    let t = trim(value);
    let ts = trim_start(value);
    lemma_trim_start_shape(value);
    lemma_trim_end_shape(ts);
    let j = choose|j: int| 0 <= j <= ts.len() && #[trigger] trim_end(ts) == ts.subrange(0, j);
    let y = ascii_lower_seq(t);
    assert(y.len() == t.len());
    if y.len() > 0 {
        assert(t[0] == ts[0]);
        lemma_ascii_lower_char(t[0]);
        lemma_ascii_lower_char(t.last());
        assert(y[0] == ascii_lower(t[0]));
        assert(y.last() == ascii_lower(t.last()));
        assert(trim_start(y) == y);
        assert(trim_end(y) == y);
    } else {
        assert(trim_start(y) == y);
        assert(trim_end(y) == y);
    }
    assert(trim(y) == y);
    assert(ascii_lower_seq(y) =~= y) by {
        assert forall|k: int| 0 <= k < y.len() implies ascii_lower_seq(y)[k] == y[k] by {
            lemma_ascii_lower_char(t[k]);
        }
    }
}

/// Reading a capture source, a language, a screenshot format or a codec
/// from a text reads it from the text trimmed and lowercased.
pub proof fn lemma_config_reads_compared_form(value: Seq<char>)
    ensures
        capture_mode_of(config_key(value)) == capture_mode_of(value),
        language_of(config_key(value)) == language_of(value),
        screenshot_format_of(config_key(value)) == screenshot_format_of(value),
        video_codec_of(config_key(value)) == video_codec_of(value),
{
    lemma_config_key_idempotent(value);
}

/// Whether `p` is a prefix of `s`.
pub open spec fn has_prefix(s: Seq<char>, p: Seq<char>) -> bool {
    p.len() <= s.len() && s.subrange(0, p.len() as int) == p
}

/// Whether the characters of `v` start with those of `p`.
pub fn starts_with_str(v: &Vec<char>, p: &str) -> (r: bool)
    ensures
        r == has_prefix(v@, p@),
{
    let pv = chars_of(p);
    if pv.len() > v.len() {
        return false;
    }
    let head = slice_chars(v, 0, pv.len());
    chars_eq(&head, &pv)
}

/// Which screens a capture takes: every screen, or one chosen screen.
#[derive(Clone, Copy, Debug, PartialEq, Eq, Structural)]
pub enum CaptureMode {
    Auto,
    Screen(u32),
}

/// The mode that the text `value` stands for.
pub open spec fn capture_mode_of(value: Seq<char>) -> CaptureMode {
    let key = config_key(value);
    if key == "auto"@ {
        CaptureMode::Auto
    } else if has_prefix(key, "screen-"@) {
        match parse_unsigned(key.subrange(7, key.len() as int), u32::MAX as nat) {
            Some(index) => if index == 0 {
                CaptureMode::Auto
            } else {
                CaptureMode::Screen(index as u32)
            },
            None => CaptureMode::Auto,
        }
    } else {
        CaptureMode::Auto
    }
}

/// The text that stands for `mode` in the configuration file.
pub open spec fn capture_mode_text(mode: CaptureMode) -> Seq<char> {
    match mode {
        CaptureMode::Auto => "auto"@,
        CaptureMode::Screen(index) => "screen-"@ + zero_pad(decimal(index as nat), 2),
    }
}

impl CaptureMode {
    /// Reads a capture mode: `auto`, or `screen-` and a positive screen
    /// number, compared after trimming and lowercasing; anything else,
    /// `screen-0` included, is `Auto`.
    pub fn from_config(value: &str) -> (r: Self)
        ensures
            r == capture_mode_of(value@),
    {
        let key = config_key_of(value);
        proof {
            reveal_strlit("auto");
            reveal_strlit("screen-");
        }
        if chars_eq_str(&key, "auto") {
            return CaptureMode::Auto;
        }
        if !starts_with_str(&key, "screen-") {
            return CaptureMode::Auto;
        }
        let rest = slice_chars(&key, 7, key.len());
        match parse_u32_chars(&rest) {
            Some(index) => {
                if index == 0 {
                    CaptureMode::Auto
                } else {
                    CaptureMode::Screen(index)
                }
            },
            None => CaptureMode::Auto,
        }
    }

    /// The text stored for this mode: `auto` or `screen-NN`.
    pub fn config_value(self) -> (r: String)
        ensures
            r@ == capture_mode_text(self),
    {
        match self {
            CaptureMode::Auto => {
                let mut out: Vec<char> = Vec::new();
                push_str(&mut out, "auto");
                string_of(&out)
            },
            CaptureMode::Screen(index) => {
                let mut out: Vec<char> = Vec::new();
                push_str(&mut out, "screen-");
                push_decimal(&mut out, index as u64, 2);
                string_of(&out)
            },
        }
    }
}

/// The interface language.
#[derive(Clone, Copy, Debug, PartialEq, Eq, Structural)]
pub enum Language {
    ZhCn,
    En,
}

/// The names accepted for each language; the first is the one written.
pub open spec fn language_aliases(language: Language) -> Seq<Seq<char>> {
    match language {
        Language::ZhCn => seq!["zh-CN"@, "zh"@, "zh-cn"@, "zh_cn"@, "cn"@],
        Language::En => seq!["en"@, "en-US"@, "en-us"@, "en_us"@],
    }
}

/// The language that the text `value` stands for: the first language, in
/// the order Chinese then English, with an alias equal to the trimmed,
/// lowercased text; Chinese when none matches.
pub open spec fn language_of(value: Seq<char>) -> Language {
    let key = config_key(value);
    if language_aliases(Language::ZhCn).contains(key) {
        Language::ZhCn
    } else if language_aliases(Language::En).contains(key) {
        Language::En
    } else {
        Language::ZhCn
    }
}

/// The label of a language in the language menu.
pub open spec fn language_label(language: Language) -> Seq<char> {
    match language {
        Language::ZhCn => "中文"@,
        Language::En => "English"@,
    }
}

impl Language {
    /// Every supported language, in menu order.
    pub const ALL: [Language; 2] = [Language::ZhCn, Language::En];

    /// Reads a language name, as `language_of` states.
    pub fn from_config(value: &str) -> (r: Self)
        ensures
            r == language_of(value@),
    {
        let key = config_key_of(value);
        let mut li: usize = 0;
        while li < 2
            invariant
                li <= 2,
                key@ == config_key(value@),
                li >= 1 ==> !language_aliases(Language::ZhCn).contains(key@),
                li >= 2 ==> !language_aliases(Language::En).contains(key@),
            decreases 2 - li,
        {
            let language = if li == 0 {
                Language::ZhCn
            } else {
                Language::En
            };
            let aliases = language.config_aliases();
            let mut ai: usize = 0;
            while ai < aliases.len()
                invariant
                    li < 2,
                    language == (if li == 0 {
                        Language::ZhCn
                    } else {
                        Language::En
                    }),
                    key@ == config_key(value@),
                    li >= 1 ==> !language_aliases(Language::ZhCn).contains(key@),
                    ai <= aliases.len(),
                    aliases@.map_values(|a: &str| a@) == language_aliases(language),
                    forall|k: int| 0 <= k < ai ==> aliases@[k]@ != key@,
                decreases aliases.len() - ai,
            {
                if chars_eq_str(&key, aliases[ai]) {
                    assert(language_aliases(language)[ai as int] == key@);
                    if li == 0 {
                        assert(language == Language::ZhCn);
                    } else {
                        assert(language == Language::En);
                    }
                    return language;
                }
                ai = ai + 1;
            }
            assert(!language_aliases(language).contains(key@)) by {
                if language_aliases(language).contains(key@) {
                    let k = choose|k: int|
                        0 <= k < language_aliases(language).len() && language_aliases(
                            language,
                        )[k] == key@;
                    assert(aliases@[k]@ == key@);
                }
            }
            li = li + 1;
        }
        Language::ZhCn
    }

    /// The name written for this language: its first alias.
    pub fn config_value(self) -> (r: &'static str)
        ensures
            r@ == language_aliases(self)[0],
    {
        match self {
            Language::ZhCn => "zh-CN",
            Language::En => "en",
        }
    }

    /// The names accepted for this language.
    pub fn config_aliases(self) -> (r: &'static [&'static str])
        ensures
            r@.map_values(|a: &str| a@) == language_aliases(self),
    {
        match self {
            Language::ZhCn => {
                let r: &'static [&'static str] = &["zh-CN", "zh", "zh-cn", "zh_cn", "cn"];
                assert(r@.map_values(|a: &str| a@) =~= language_aliases(self));
                r
            },
            Language::En => {
                let r: &'static [&'static str] = &["en", "en-US", "en-us", "en_us"];
                assert(r@.map_values(|a: &str| a@) =~= language_aliases(self));
                r
            },
        }
    }

    /// The label shown in the language menu.
    pub fn menu_label(self) -> (r: &'static str)
        ensures
            r@ == language_label(self),
    {
        match self {
            Language::ZhCn => "中文",
            Language::En => "English",
        }
    }
}

/// The encoder used for generated videos.
#[derive(Clone, Copy, Debug, PartialEq, Eq, Structural)]
pub enum VideoCodec {
    H264,
    H265,
}

/// The codec that the text `value` stands for.
pub open spec fn video_codec_of(value: Seq<char>) -> VideoCodec {
    let key = config_key(value);
    if key == "h265"@ || key == "h.265"@ || key == "hevc"@ || key == "libx265"@ {
        VideoCodec::H265
    } else {
        VideoCodec::H264
    }
}

/// The text stored for a codec.
pub open spec fn video_codec_text(codec: VideoCodec) -> Seq<char> {
    match codec {
        VideoCodec::H264 => "h264"@,
        VideoCodec::H265 => "h265"@,
    }
}

/// The ffmpeg encoder of a codec.
pub open spec fn video_encoder_text(codec: VideoCodec) -> Seq<char> {
    match codec {
        VideoCodec::H264 => "libx264"@,
        VideoCodec::H265 => "libx265"@,
    }
}

impl VideoCodec {
    /// Reads a codec name: `h265`, `h.265`, `hevc` or `libx265` (after
    /// trimming and lowercasing) is H.265, anything else H.264.
    pub fn from_config(value: &str) -> (r: Self)
        ensures
            r == video_codec_of(value@),
    {
        let key = config_key_of(value);
        if chars_eq_str(&key, "h265") || chars_eq_str(&key, "h.265") || chars_eq_str(&key, "hevc")
            || chars_eq_str(&key, "libx265") {
            VideoCodec::H265
        } else {
            VideoCodec::H264
        }
    }

    /// The text stored for this codec.
    pub fn config_value(self) -> (r: &'static str)
        ensures
            r@ == video_codec_text(self),
    {
        match self {
            VideoCodec::H264 => "h264",
            VideoCodec::H265 => "h265",
        }
    }

    /// The ffmpeg encoder for this codec.
    pub fn encoder(self) -> (r: &'static str)
        ensures
            r@ == video_encoder_text(self),
    {
        match self {
            VideoCodec::H264 => "libx264",
            VideoCodec::H265 => "libx265",
        }
    }
}

/// The file format of saved screenshots.
#[derive(Clone, Copy, Debug, PartialEq, Eq, Structural)]
pub enum ScreenshotFormat {
    Png,
    Jpg,
}

/// The format that the text `value` stands for.
pub open spec fn screenshot_format_of(value: Seq<char>) -> ScreenshotFormat {
    let key = config_key(value);
    if key == "jpg"@ || key == "jpeg"@ {
        ScreenshotFormat::Jpg
    } else {
        ScreenshotFormat::Png
    }
}

/// The file extension (and stored text) of a format.
pub open spec fn extension_text(format: ScreenshotFormat) -> Seq<char> {
    match format {
        ScreenshotFormat::Png => "png"@,
        ScreenshotFormat::Jpg => "jpg"@,
    }
}

impl ScreenshotFormat {
    /// Reads a format name: `jpg` or `jpeg` (after trimming and lowercasing)
    /// is JPEG, anything else PNG.
    pub fn from_config(value: &str) -> (r: Self)
        ensures
            r == screenshot_format_of(value@),
    {
        let key = config_key_of(value);
        if chars_eq_str(&key, "jpg") || chars_eq_str(&key, "jpeg") {
            ScreenshotFormat::Jpg
        } else {
            ScreenshotFormat::Png
        }
    }

    /// The file extension of this format, which is also its stored text.
    pub fn extension(self) -> (r: &'static str)
        ensures
            r@ == extension_text(self),
    {
        match self {
            ScreenshotFormat::Png => "png",
            ScreenshotFormat::Jpg => "jpg",
        }
    }
}


proof fn lemma_trim_plain(s: Seq<char>)
    requires
        s.len() > 0,
        !is_space(s[0]),
        !is_space(s.last()),
    ensures
        trim(s) == s,
{
    assert(trim_start(s) == s);
    assert(trim_end(s) == s);
}

proof fn lemma_lower_plain(s: Seq<char>)
    requires
        forall|k: int| 0 <= k < s.len() ==> !('A' <= #[trigger] s[k] && s[k] <= 'Z'),
    ensures
        ascii_lower_seq(s) == s,
{
    assert(ascii_lower_seq(s) =~= s) by {
        assert forall|k: int| 0 <= k < s.len() implies #[trigger] ascii_lower_seq(s)[k] == s[k] by {
            assert(!('A' <= s[k] && s[k] <= 'Z'));
        }
    }
}

/// Reading back the text written for a screenshot format gives the format.
pub proof fn lemma_screenshot_format_round_trip(format: ScreenshotFormat)
    ensures
        screenshot_format_of(extension_text(format)) == format,
{
    reveal_strlit("png");
    reveal_strlit("jpg");
    reveal_strlit("jpeg");
    let t = extension_text(format);
    lemma_trim_plain(t);
    lemma_lower_plain(t);
    assert(t != "jpeg"@);
    if format == ScreenshotFormat::Png {
        assert(t != "jpg"@) by {
            assert(t[0] != "jpg"@[0]);
        }
    }
}

/// Reading back the text written for a codec gives the codec.
pub proof fn lemma_video_codec_round_trip(codec: VideoCodec)
    ensures
        video_codec_of(video_codec_text(codec)) == codec,
{
    reveal_strlit("h264");
    reveal_strlit("h265");
    reveal_strlit("h.265");
    reveal_strlit("hevc");
    reveal_strlit("libx265");
    let t = video_codec_text(codec);
    lemma_trim_plain(t);
    lemma_lower_plain(t);
    if codec == VideoCodec::H264 {
        assert(t != "h265"@) by {
            assert(t[3] != "h265"@[3]);
        }
        assert(t != "h.265"@);
        assert(t != "hevc"@) by {
            assert(t[1] != "hevc"@[1]);
        }
        assert(t != "libx265"@);
    }
}

/// Reading back the name written for a language gives the language.
pub proof fn lemma_language_round_trip(language: Language)
    ensures
        language_of(language_aliases(language)[0]) == language,
{
    reveal_strlit("zh-CN");
    reveal_strlit("zh");
    reveal_strlit("zh-cn");
    reveal_strlit("zh_cn");
    reveal_strlit("cn");
    reveal_strlit("en");
    reveal_strlit("en-US");
    reveal_strlit("en-us");
    reveal_strlit("en_us");
    let t = language_aliases(language)[0];
    lemma_trim_plain(t);
    let key = config_key(t);
    match language {
        Language::ZhCn => {
            assert(key =~= "zh-cn"@);
            assert(language_aliases(Language::ZhCn)[2] == key);
        },
        Language::En => {
            lemma_lower_plain(t);
            assert(key == "en"@);
            let z = language_aliases(Language::ZhCn);
            assert(!z.contains(key)) by {
                if z.contains(key) {
                    let k = choose|k: int| 0 <= k < z.len() && z[k] == key;
                    assert(z[k].len() == 2 ==> z[k][0] != key[0] || z[k][1] != key[1]);
                }
            }
            assert(language_aliases(Language::En)[0] == key);
        },
    }
}

/// `c` with `a`..=`z` mapped to `A`..=`Z`, as `char::to_ascii_uppercase`.
pub open spec fn ascii_upper(c: char) -> char {
    if 'a' <= c && c <= 'z' {
        ((c as u32) - 32) as char
    } else {
        c
    }
}

/// `s` with every ASCII small letter replaced by its capital.
pub open spec fn ascii_upper_seq(s: Seq<char>) -> Seq<char> {
    s.map_values(|c: char| ascii_upper(c))
}

/// A character of a configuration word: an ASCII letter or digit, `-` or `_`.
pub open spec fn is_word_char(c: char) -> bool {
    ||| ('a' <= c && c <= 'z')
    ||| ('A' <= c && c <= 'Z')
    ||| ('0' <= c && c <= '9')
    ||| c == '-'
    ||| c == '_'
}

/// A non-empty word of such characters reads the same in capitals: its
/// compared form is its lowercase form either way.
proof fn lemma_word_key(a: Seq<char>)
    requires
        a.len() > 0,
        forall|k: int| 0 <= k < a.len() ==> is_word_char(#[trigger] a[k]),
    ensures
        config_key(a) == ascii_lower_seq(a),
        config_key(ascii_upper_seq(a)) == ascii_lower_seq(a),
{
    let u = ascii_upper_seq(a);
    assert forall|k: int| 0 <= k < a.len() implies {
        &&& !is_space(#[trigger] a[k])
        &&& !is_space(u[k])
        &&& ascii_lower(u[k]) == ascii_lower(a[k])
    } by {
        let c = a[k];
        if 'a' <= c && c <= 'z' {
            assert('A' <= ascii_upper(c) && ascii_upper(c) <= 'Z');
            assert(ascii_lower(ascii_upper(c)) == c);
        }
    }
    lemma_trim_plain(a);
    assert(!is_space(u[0]));
    assert(!is_space(u.last())) by {
        assert(u.last() == u[u.len() - 1]);
    }
    lemma_trim_plain(u);
    assert(ascii_lower_seq(u) =~= ascii_lower_seq(a));
}

/// Every alias of a language, as written or in capitals, reads back as that
/// language; so no alias is shared by two languages.
pub proof fn lemma_language_aliases_read_back(language: Language, k: int)
    requires
        0 <= k < language_aliases(language).len(),
    ensures
        language_of(language_aliases(language)[k]) == language,
        language_of(ascii_upper_seq(language_aliases(language)[k])) == language,
{
    reveal_strlit("zh-CN");
    reveal_strlit("zh");
    reveal_strlit("zh-cn");
    reveal_strlit("zh_cn");
    reveal_strlit("cn");
    reveal_strlit("en");
    reveal_strlit("en-US");
    reveal_strlit("en-us");
    reveal_strlit("en_us");
    let a = language_aliases(language)[k];
    let z = language_aliases(Language::ZhCn);
    let e = language_aliases(Language::En);
    assert(a.len() > 0);
    assert forall|i: int| 0 <= i < a.len() implies is_word_char(#[trigger] a[i]) by {
        assert(is_word_char(a[i]));
    }
    lemma_word_key(a);
    let key = ascii_lower_seq(a);
    match language {
        Language::ZhCn => {
            assert(z.contains(key)) by {
                if k == 0 {
                    assert(key =~= z[2]);
                } else {
                    assert(key =~= z[k]);
                }
            }
        },
        Language::En => {
            assert(e.contains(key)) by {
                if k == 1 {
                    assert(key =~= e[2]);
                } else {
                    assert(key =~= e[k]);
                }
            }
            assert(key[0] == 'e');
            assert(!z.contains(key)) by {
                if z.contains(key) {
                    let j = choose|j: int| 0 <= j < z.len() && z[j] == key;
                    assert(z[j][0] != 'e');
                }
            }
        },
    }
}

/// Reading back the text written for a capture mode gives the mode, for
/// every mode but the screen numbered zero, which reads as `Auto`.
pub proof fn lemma_capture_mode_round_trip(mode: CaptureMode)
    requires
        mode != CaptureMode::Screen(0),
    ensures
        capture_mode_of(capture_mode_text(mode)) == mode,
{
    reveal_strlit("auto");
    reveal_strlit("screen-");
    let t = capture_mode_text(mode);
    match mode {
        CaptureMode::Auto => {
            lemma_trim_plain(t);
            lemma_lower_plain(t);
        },
        CaptureMode::Screen(index) => {
            let p = zero_pad(decimal(index as nat), 2);
            lemma_zero_pad_digits(index as nat, 2, u32::MAX as nat);
            assert(is_digit(p[p.len() - 1]));
            assert(t.last() == p[p.len() - 1]);
            lemma_trim_plain(t);
            assert forall|k: int| 0 <= k < t.len() implies !('A' <= #[trigger] t[k] && t[k] <= 'Z') by {
                if k >= 7 {
                    assert(t[k] == p[k - 7]);
                    assert(is_digit(p[k - 7]));
                }
            }
            lemma_lower_plain(t);
            let key = config_key(t);
            assert(key == t);
            assert(key != "auto"@) by {
                assert(key[0] != "auto"@[0]);
            }
            assert(key.subrange(0, 7) =~= "screen-"@);
            assert(key.subrange(7, key.len() as int) =~= p);
        },
    }
}

/// Different languages are stored under different values, and each
/// language's stored value is one of its aliases.
pub proof fn lemma_language_values_unique(a: Language, b: Language)
    ensures
        a != b ==> language_aliases(a)[0] != language_aliases(b)[0],
        language_aliases(a).contains(language_aliases(a)[0]),
{
    lemma_language_round_trip(a);
    lemma_language_round_trip(b);
    assert(language_aliases(a).len() > 0) by {
        reveal_strlit("zh-CN");
        reveal_strlit("en");
    }
    assert(language_aliases(a)[0] == language_aliases(a)[0]);
}

} // verus!
