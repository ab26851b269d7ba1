//! Screenshot file names. A single-screen capture is saved as
//! `TIMESTAMP-SEQUENCE.EXT`, one screen of a multi-screen batch as
//! `TIMESTAMP-screen-NN-SEQUENCE.EXT`, and the batch's geometry as
//! `TIMESTAMP-SEQUENCE.screens.json`, with the sequence written in six
//! digits and the screen number in two.

use vstd::prelude::*;
use crate::config::{extension_text, ScreenshotFormat};
use crate::pathutil::{
    extension_chars, extension_of, file_name_of, join_chars, join_path, parent_chars, parent_of,
    split_extension, stem_chars, stem_of,
};
use crate::textutil::{
    all_digits, ascii_lower_seq, digits_value, is_digit, join_on, last_index_of, lemma_decimal_digits,
    lemma_decimal_len_bound, lemma_join_split, lemma_zero_pad_digits, lemma_split_concat, lemma_split_no_sep, pow10, chars_eq_str, chars_of, decimal, lower_chars, parse_u32_chars,
    parse_u64_chars, parse_unsigned, push_all, push_decimal, push_str, split_chars, split_on,
    string_of, zero_pad,
};

verus! {

/// What a screenshot file name says about its capture.
#[derive(Clone, Debug, Eq, PartialEq)]
pub enum ScreenshotName {
    Single { timestamp: String, sequence: u64 },
    MultiScreen { timestamp: String, screen_index: u32, sequence: u64 },
}

/// A parsed name as plain values: the timestamp, the screen number of a
/// multi-screen capture, and the batch sequence.
pub open spec fn name_parts(name: ScreenshotName) -> (Seq<char>, Option<u32>, u64) {
    match name {
        ScreenshotName::Single { timestamp, sequence } => (timestamp@, None, sequence),
        ScreenshotName::MultiScreen { timestamp, screen_index, sequence } => (
            timestamp@,
            Some(screen_index),
            sequence,
        ),
    }
}

impl ScreenshotName {
    /// The capture time written in the name.
    pub fn timestamp(&self) -> (r: &str)
        ensures
            r@ == name_parts(*self).0,
    {
        match self {
            ScreenshotName::Single { timestamp, .. } => timestamp.as_str(),
            ScreenshotName::MultiScreen { timestamp, .. } => timestamp.as_str(),
        }
    }

    /// The batch sequence written in the name.
    pub fn sequence(&self) -> (r: u64)
        ensures
            r == name_parts(*self).2,
    {
        match self {
            ScreenshotName::Single { sequence, .. } => *sequence,
            ScreenshotName::MultiScreen { sequence, .. } => *sequence,
        }
    }
}

/// The six-digit sequence field.
pub open spec fn sequence_text(sequence: u64) -> Seq<char> {
    zero_pad(decimal(sequence as nat), 6)
}

/// The two-digit screen field.
pub open spec fn screen_text(screen_index: u32) -> Seq<char> {
    zero_pad(decimal(screen_index as nat), 2)
}

/// The file name of a single-screen capture.
pub open spec fn single_name_text(
    timestamp: Seq<char>,
    sequence: u64,
    format: ScreenshotFormat,
) -> Seq<char> {
    timestamp + "-"@ + sequence_text(sequence) + "."@ + extension_text(format)
}

/// The file name of one screen of a multi-screen batch.
pub open spec fn multi_name_text(
    timestamp: Seq<char>,
    screen_index: u32,
    sequence: u64,
    format: ScreenshotFormat,
) -> Seq<char> {
    timestamp + "-screen-"@ + screen_text(screen_index) + "-"@ + sequence_text(sequence) + "."@
        + extension_text(format)
}

/// The file name of a capture, multi-screen when a screen is given.
pub open spec fn screenshot_name_text(
    timestamp: Seq<char>,
    screen_index: Option<u32>,
    sequence: u64,
    format: ScreenshotFormat,
) -> Seq<char> {
    match screen_index {
        Some(index) => multi_name_text(timestamp, index, sequence, format),
        None => single_name_text(timestamp, sequence, format),
    }
}

/// The file name of a batch's geometry record.
pub open spec fn metadata_name_text(timestamp: Seq<char>, sequence: u64) -> Seq<char> {
    timestamp + "-"@ + sequence_text(sequence) + ".screens.json"@
}

/// The screenshot format of an extension, compared without case.
pub open spec fn format_of_extension(extension: Seq<char>) -> Option<ScreenshotFormat> {
    let e = ascii_lower_seq(extension);
    if e == "png"@ {
        Some(ScreenshotFormat::Png)
    } else if e == "jpg"@ || e == "jpeg"@ {
        Some(ScreenshotFormat::Jpg)
    } else {
        None
    }
}

/// The screenshot format of the file at `path`, from its extension.
pub open spec fn path_format(path: Seq<char>) -> Option<ScreenshotFormat> {
    match extension_of(path) {
        Some(e) => format_of_extension(e),
        None => None,
    }
}

/// The first three dash-separated fields, joined again.
pub open spec fn timestamp_of_parts(parts: Seq<Seq<char>>) -> Seq<char> {
    parts[0] + "-"@ + parts[1] + "-"@ + parts[2]
}

/// What `parse_screenshot_file_name` reads from `path`.
pub open spec fn parsed_name(path: Seq<char>) -> Option<(Seq<char>, Option<u32>, u64)> {
    if path_format(path) is None {
        None
    } else {
        match stem_of(path) {
            None => None,
            Some(stem) => {
                let parts = split_on(stem, '-');
                if parts.len() < 4 {
                    None
                } else if parts.len() == 6 && parts[3] == "screen"@ {
                    match (
                        parse_unsigned(parts[4], u32::MAX as nat),
                        parse_unsigned(parts[5], u64::MAX as nat),
                    ) {
                        (Some(index), Some(sequence)) => {
                            if parts[4].len() != 2 || parts[5].len() != 6 || index == 0 {
                                None
                            } else {
                                Some(
                                    (
                                        timestamp_of_parts(parts),
                                        Some(index as u32),
                                        sequence as u64,
                                    ),
                                )
                            }
                        },
                        _ => None,
                    }
                } else if parts.len() == 4 {
                    match parse_unsigned(parts[3], u64::MAX as nat) {
                        Some(sequence) => {
                            if parts[3].len() != 6 {
                                None
                            } else {
                                Some((timestamp_of_parts(parts), None, sequence as u64))
                            }
                        },
                        None => None,
                    }
                } else {
                    None
                }
            },
        }
    }
}

/// The geometry record that belongs to the screenshot at `path`: the
/// metadata file of the same batch, in the same directory.
pub open spec fn metadata_path_of(path: Seq<char>) -> Option<Seq<char>> {
    match parsed_name(path) {
        Some(parts) => match parent_of(path) {
            Some(dir) => Some(join_path(dir, metadata_name_text(parts.0, parts.2))),
            None => None,
        },
        None => None,
    }
}

/// The file name of a capture: multi-screen when `screen_index` is given.
pub fn screenshot_file_name(
    timestamp: &str,
    screen_index: Option<u32>,
    sequence: u64,
    format: ScreenshotFormat,
) -> (r: String)
    ensures
        r@ == screenshot_name_text(timestamp@, screen_index, sequence, format),
{
    match screen_index {
        Some(index) => multi_screen_screenshot_file_name(timestamp, index, sequence, format),
        None => single_screenshot_file_name(timestamp, sequence, format),
    }
}

/// The file name of a single-screen capture.
pub fn single_screenshot_file_name(timestamp: &str, sequence: u64, format: ScreenshotFormat) -> (r:
    String)
    ensures
        r@ == single_name_text(timestamp@, sequence, format),
{
    let mut out: Vec<char> = Vec::new();
    push_str(&mut out, timestamp);
    push_str(&mut out, "-");
    push_decimal(&mut out, sequence, 6);
    push_str(&mut out, ".");
    push_str(&mut out, format.extension());
    string_of(&out)
}

/// The file name of one screen of a multi-screen batch.
pub fn multi_screen_screenshot_file_name(
    timestamp: &str,
    screen_index: u32,
    sequence: u64,
    format: ScreenshotFormat,
) -> (r: String)
    ensures
        r@ == multi_name_text(timestamp@, screen_index, sequence, format),
{
    let mut out: Vec<char> = Vec::new();
    push_str(&mut out, timestamp);
    push_str(&mut out, "-screen-");
    push_decimal(&mut out, screen_index as u64, 2);
    push_str(&mut out, "-");
    push_decimal(&mut out, sequence, 6);
    push_str(&mut out, ".");
    push_str(&mut out, format.extension());
    string_of(&out)
}

/// The file name of a batch's geometry record.
pub fn multi_screen_metadata_file_name(timestamp: &str, sequence: u64) -> (r: String)
    ensures
        r@ == metadata_name_text(timestamp@, sequence),
{
    let mut out: Vec<char> = Vec::new();
    push_str(&mut out, timestamp);
    push_str(&mut out, "-");
    push_decimal(&mut out, sequence, 6);
    push_str(&mut out, ".screens.json");
    string_of(&out)
}

/// The screenshot format of an extension, compared without case.
pub fn format_for_extension(extension: &Vec<char>) -> (r: Option<ScreenshotFormat>)
    ensures
        r == format_of_extension(extension@),
{
    let e = lower_chars(extension);
    if chars_eq_str(&e, "png") {
        Some(ScreenshotFormat::Png)
    } else if chars_eq_str(&e, "jpg") || chars_eq_str(&e, "jpeg") {
        Some(ScreenshotFormat::Jpg)
    } else {
        None
    }
}

/// The screenshot format of the file at `path`: PNG for a `png` extension,
/// JPEG for `jpg` or `jpeg`, in any case; `None` for anything else.
pub fn screenshot_format_for_path(path: &str) -> (r: Option<ScreenshotFormat>)
    ensures
        r == path_format(path@),
{
    let p = chars_of(path);
    match extension_chars(&p) {
        Some(e) => format_for_extension(&e),
        None => None,
    }
}

/// Reads a screenshot file name: a supported image extension, then a stem
/// of four dash-separated fields whose last is a six-digit sequence, or of
/// six fields whose fourth is `screen`, fifth a two-digit screen number
/// other than zero and sixth a six-digit sequence. The timestamp is the
/// first three fields.
pub fn parse_screenshot_file_name(path: &str) -> (r: Option<ScreenshotName>)
    ensures
        match r {
            Some(name) => parsed_name(path@) == Some(name_parts(name)),
            None => parsed_name(path@) is None,
        },
{
    if screenshot_format_for_path(path).is_none() {
        return None;
    }
    let p = chars_of(path);
    let stem = match stem_chars(&p) {
        Some(s) => s,
        None => {
            return None;
        },
    };
    let parts = split_chars(&stem, '-');
    let ghost sp = split_on(stem@, '-');
    if parts.len() < 4 {
        return None;
    }
    let mut ts: Vec<char> = Vec::new();
    push_all(&mut ts, &parts[0]);
    push_str(&mut ts, "-");
    push_all(&mut ts, &parts[1]);
    push_str(&mut ts, "-");
    push_all(&mut ts, &parts[2]);
    assert(ts@ == timestamp_of_parts(sp)) by {
        assert(parts@[0]@ == sp[0]);
        assert(parts@[1]@ == sp[1]);
        assert(parts@[2]@ == sp[2]);
    }
    if parts.len() == 6 && chars_eq_str(&parts[3], "screen") {
        assert(parts@[3]@ == sp[3]);
        assert(parts@[4]@ == sp[4]);
        assert(parts@[5]@ == sp[5]);
        let screen_index = match parse_u32_chars(&parts[4]) {
            Some(i) => i,
            None => {
                return None;
            },
        };
        let sequence = match parse_u64_chars(&parts[5]) {
            Some(s) => s,
            None => {
                return None;
            },
        };
        if parts[4].len() != 2 || parts[5].len() != 6 || screen_index == 0 {
            return None;
        }
        return Some(
            ScreenshotName::MultiScreen { timestamp: string_of(&ts), screen_index, sequence },
        );
    }
    proof {
        if parts.len() == 6 {
            assert(parts@[3]@ == sp[3]);
        }
    }
    if parts.len() == 4 {
        assert(parts@[3]@ == sp[3]);
        let sequence = match parse_u64_chars(&parts[3]) {
            Some(s) => s,
            None => {
                return None;
            },
        };
        if parts[3].len() != 6 {
            return None;
        }
        return Some(ScreenshotName::Single { timestamp: string_of(&ts), sequence });
    }
    None
}

/// The path of the geometry record of the batch that the screenshot at
/// `path` belongs to, in the same directory.
pub fn metadata_path_for_screenshot(path: &str) -> (r: Option<String>)
    ensures
        match r {
            Some(m) => metadata_path_of(path@) == Some(m@),
            None => metadata_path_of(path@) is None,
        },
{
    let parsed = match parse_screenshot_file_name(path) {
        Some(name) => name,
        None => {
            return None;
        },
    };
    let file_name = multi_screen_metadata_file_name(parsed.timestamp(), parsed.sequence());
    let p = chars_of(path);
    match parent_chars(&p) {
        Some(parent) => {
            let name = chars_of(file_name.as_str());
            let joined = join_chars(&parent, &name);
            Some(string_of(&joined))
        },
        None => None,
    }
}


proof fn lemma_last_index_absent(s: Seq<char>, c: char)
    requires
        !s.contains(c),
    ensures
        last_index_of(s, c) == -1,
    decreases s.len(),
{
    if s.len() > 0 {
        assert(s.last() == s[s.len() - 1]);
        assert(!s.drop_last().contains(c)) by {
            if s.drop_last().contains(c) {
                let k = choose|k: int| 0 <= k < s.drop_last().len() && s.drop_last()[k] == c;
                assert(s[k] == c);
            }
        }
        lemma_last_index_absent(s.drop_last(), c);
    }
}

proof fn lemma_last_index_after(a: Seq<char>, b: Seq<char>, c: char)
    requires
        !b.contains(c),
    ensures
        last_index_of(a + seq![c] + b, c) == a.len(),
    decreases b.len(),
{
    let s = a + seq![c] + b;
    if b.len() == 0 {
        assert(s.last() == c);
    } else {
        assert(s.last() == b.last());
        assert(b.last() == b[b.len() - 1]);
        assert(s.drop_last() =~= a + seq![c] + b.drop_last());
        assert(!b.drop_last().contains(c)) by {
            if b.drop_last().contains(c) {
                let k = choose|k: int| 0 <= k < b.drop_last().len() && b.drop_last()[k] == c;
                assert(b[k] == c);
            }
        }
        lemma_last_index_after(a, b.drop_last(), c);
    }
}

/// A zero-padded decimal field: digits only, of the padded width, read back
/// as the number.
proof fn lemma_padded_field(x: nat, w: nat, max: nat)
    requires
        decimal(x).len() <= w,
        x <= max,
    ensures
        zero_pad(decimal(x), w).len() == w,
        all_digits(zero_pad(decimal(x), w)),
        parse_unsigned(zero_pad(decimal(x), w), max) == Some(x),
        !zero_pad(decimal(x), w).contains('-'),
        !zero_pad(decimal(x), w).contains('.'),
        !zero_pad(decimal(x), w).contains('/'),
{
    let p = zero_pad(decimal(x), w);
    lemma_zero_pad_digits(x, w, max);
    assert(!p.contains('-')) by {
        if p.contains('-') {
            let i = choose|i: int| 0 <= i < p.len() && p[i] == '-';
            assert(is_digit(p[i]));
        }
    }
    assert(!p.contains('.')) by {
        if p.contains('.') {
            let i = choose|i: int| 0 <= i < p.len() && p[i] == '.';
            assert(is_digit(p[i]));
        }
    }
    assert(!p.contains('/')) by {
        if p.contains('/') {
            let i = choose|i: int| 0 <= i < p.len() && p[i] == '/';
            assert(is_digit(p[i]));
        }
    }
}

proof fn lemma_no_char_concat(a: Seq<char>, b: Seq<char>, c: char)
    requires
        !a.contains(c),
        !b.contains(c),
    ensures
        !(a + b).contains(c),
{
    if (a + b).contains(c) {
        let i = choose|i: int| 0 <= i < (a + b).len() && (a + b)[i] == c;
        if i < a.len() {
            assert(a[i] == c);
        } else {
            assert(b[i - a.len()] == c);
        }
    }
}

proof fn lemma_literal_facts()
    ensures
        "-"@ == seq!['-'],
        "."@ == seq!['.'],
        "-screen-"@ == seq!['-'] + "screen"@ + seq!['-'],
        !"screen"@.contains('-'),
        !"screen"@.contains('/'),
        !"-screen-"@.contains('/'),
        !"-"@.contains('/'),
        !"."@.contains('/'),
        !"png"@.contains('.'),
        !"jpg"@.contains('.'),
        !"png"@.contains('/'),
        !"jpg"@.contains('/'),
        ascii_lower_seq("png"@) == "png"@,
        ascii_lower_seq("jpg"@) == "jpg"@,
        !".screens.json"@.contains('/'),
        ".screens.json"@.len() > 0,
{
    reveal_strlit("-");
    reveal_strlit(".");
    reveal_strlit("-screen-");
    reveal_strlit("screen");
    reveal_strlit("png");
    reveal_strlit("jpg");
    reveal_strlit(".screens.json");
    assert("-screen-"@ =~= seq!['-'] + "screen"@ + seq!['-']);
    assert(ascii_lower_seq("png"@) =~= "png"@);
    assert(ascii_lower_seq("jpg"@) =~= "jpg"@);
    assert(!"screen"@.contains('-')) by {
        if "screen"@.contains('-') {
            let i = choose|i: int| 0 <= i < "screen"@.len() && "screen"@[i] == '-';
        }
    }
    assert(!"screen"@.contains('/')) by {
        if "screen"@.contains('/') {
            let i = choose|i: int| 0 <= i < "screen"@.len() && "screen"@[i] == '/';
        }
    }
    assert(!"-screen-"@.contains('/')) by {
        if "-screen-"@.contains('/') {
            let i = choose|i: int| 0 <= i < "-screen-"@.len() && "-screen-"@[i] == '/';
        }
    }
    assert(!"png"@.contains('.')) by {
        if "png"@.contains('.') {
            let i = choose|i: int| 0 <= i < 3 && "png"@[i] == '.';
        }
    }
    assert(!"jpg"@.contains('.')) by {
        if "jpg"@.contains('.') {
            let i = choose|i: int| 0 <= i < 3 && "jpg"@[i] == '.';
        }
    }
    assert(!"png"@.contains('/')) by {
        if "png"@.contains('/') {
            let i = choose|i: int| 0 <= i < 3 && "png"@[i] == '/';
        }
    }
    assert(!"jpg"@.contains('/')) by {
        if "jpg"@.contains('/') {
            let i = choose|i: int| 0 <= i < 3 && "jpg"@[i] == '/';
        }
    }
    assert(!".screens.json"@.contains('/')) by {
        if ".screens.json"@.contains('/') {
            let i = choose|i: int| 0 <= i < ".screens.json"@.len() && ".screens.json"@[i] == '/';
        }
    }
}

/// The timestamps that file names carry: three dash-separated fields, no
/// directory separator.
pub open spec fn is_name_timestamp(timestamp: Seq<char>) -> bool {
    split_on(timestamp, '-').len() == 3 && !timestamp.contains('/')
}

/// The screen numbers and sequences that fit the fixed-width name fields.
pub open spec fn fits_name_fields(screen_index: Option<u32>, sequence: u64) -> bool {
    &&& sequence < 1_000_000
    &&& match screen_index {
        Some(index) => 1 <= index <= 99,
        None => true,
    }
}

proof fn lemma_fields(screen_index: Option<u32>, sequence: u64)
    requires
        fits_name_fields(screen_index, sequence),
    ensures
        sequence_text(sequence).len() == 6,
        parse_unsigned(sequence_text(sequence), u64::MAX as nat) == Some(sequence as nat),
        !sequence_text(sequence).contains('-'),
        !sequence_text(sequence).contains('.'),
        !sequence_text(sequence).contains('/'),
        screen_index matches Some(i) ==> {
            &&& screen_text(i).len() == 2
            &&& parse_unsigned(screen_text(i), u32::MAX as nat) == Some(i as nat)
            &&& !screen_text(i).contains('-')
            &&& !screen_text(i).contains('.')
            &&& !screen_text(i).contains('/')
        },
{
    reveal_with_fuel(pow10, 7);
    lemma_decimal_len_bound(sequence as nat, 6, pow10(6));
    lemma_padded_field(sequence as nat, 6, u64::MAX as nat);
    if let Some(i) = screen_index {
        lemma_decimal_len_bound(i as nat, 2, pow10(2));
        lemma_padded_field(i as nat, 2, u32::MAX as nat);
    }
}

/// Whether `name` is a name without directory whose extension is `ext`
/// and stem `stem`.
proof fn lemma_name_split(stem: Seq<char>, ext: Seq<char>)
    requires
        stem.len() > 0,
        ext.len() > 0,
        !stem.contains('/'),
        !ext.contains('/'),
        !ext.contains('.'),
    ensures
        file_name_of(stem + seq!['.'] + ext) == Some(stem + seq!['.'] + ext),
        stem_of(stem + seq!['.'] + ext) == Some(stem),
        extension_of(stem + seq!['.'] + ext) == Some(ext),
        parent_of(stem + seq!['.'] + ext) == Some(Seq::<char>::empty()),
{
    let name = stem + seq!['.'] + ext;
    lemma_no_char_concat(stem, seq!['.'], '/');
    lemma_no_char_concat(stem + seq!['.'], ext, '/');
    lemma_last_index_absent(name, '/');
    assert(name.subrange(0, name.len() as int) =~= name);
    assert(name.len() >= 2);
    assert(name != seq!['.']);
    assert(name.len() >= 3);
    assert(name != seq!['.', '.']);
    lemma_last_index_after(stem, ext, '.');
    assert(name.subrange(0, stem.len() as int) =~= stem);
    assert(name.subrange(stem.len() as int + 1, name.len() as int) =~= ext);
    assert(split_extension(name) == (stem, Some(ext)));
}

proof fn lemma_timestamp_parts(timestamp: Seq<char>, rest: Seq<Seq<char>>)
    requires
        split_on(timestamp, '-').len() == 3,
        rest.len() >= 1,
    ensures
        timestamp_of_parts(split_on(timestamp, '-') + rest) == timestamp,
{
    reveal_strlit("-");
    let parts = split_on(timestamp, '-');
    lemma_join_split(timestamp, '-');
    assert(parts.drop_last().drop_last() =~= seq![parts[0]]);
    assert(join_on(parts.drop_last(), '-') == join_on(parts.drop_last().drop_last(), '-') + seq![
        '-',
    ] + parts[1]);
    assert(join_on(parts, '-') == join_on(parts.drop_last(), '-') + seq!['-'] + parts[2]);
    let all = parts + rest;
    assert(all[0] == parts[0] && all[1] == parts[1] && all[2] == parts[2]);
    assert("-"@ =~= seq!['-']);
    assert(timestamp_of_parts(all) =~= timestamp);
}

/// A file named with a format's extension is a screenshot of that format:
/// any stem without `/`, a dot, and `extension_text(format)`.
pub proof fn lemma_extension_names_format(stem: Seq<char>, format: ScreenshotFormat)
    requires
        stem.len() > 0,
        !stem.contains('/'),
    ensures
        path_format(stem + "."@ + extension_text(format)) == Some(format),
{
    reveal_strlit(".");
    reveal_strlit("png");
    reveal_strlit("jpg");
    let ext = extension_text(format);
    let name = stem + "."@ + ext;
    let n = stem.len() as int;
    assert(name[n] == '.');
    assert(forall|k: int| n < k < name.len() ==> name[k] == ext[k - n - 1]);
    assert(forall|k: int| 0 <= k < ext.len() ==> ext[k] != '.' && ext[k] != '/');
    crate::textutil::lemma_last_index_of(name, '/');
    assert(last_index_of(name, '/') == -1) by {
        let i = last_index_of(name, '/');
        if i >= 0 {
            if i < n {
                assert(name[i] == stem[i]);
                assert(stem.contains('/'));
            }
        }
    }
    assert(name.subrange(0, name.len() as int) =~= name);
    crate::textutil::lemma_last_index_of(name, '.');
    assert(last_index_of(name, '.') == n);
    assert(name.subrange(n + 1, name.len() as int) =~= ext);
    assert(name.len() >= 3);
    assert(name != seq!['.'] && name != seq!['.', '.']);
    assert(file_name_of(name) == Some(name));
    assert(split_extension(name).1 == Some(ext));
    assert(extension_of(name) == Some(ext));
    assert(ascii_lower_seq(ext) =~= ext);
    match format {
        ScreenshotFormat::Png => {
            assert(format_of_extension(ext) == Some(format));
        },
        ScreenshotFormat::Jpg => {
            assert(ext != "png"@) by {
                assert(ext[0] != "png"@[0]);
            }
            assert(format_of_extension(ext) == Some(format));
        },
    }
}

/// Reading back a screenshot file name gives the timestamp, screen and
/// sequence it was made from, whenever the timestamp has the three fields
/// the capture writes and the numbers fit their fixed-width fields.
pub proof fn lemma_screenshot_name_round_trip(
    timestamp: Seq<char>,
    screen_index: Option<u32>,
    sequence: u64,
    format: ScreenshotFormat,
)
    requires
        is_name_timestamp(timestamp),
        fits_name_fields(screen_index, sequence),
    ensures
        parsed_name(screenshot_name_text(timestamp, screen_index, sequence, format)) == Some(
            (timestamp, screen_index, sequence),
        ),
        metadata_path_of(screenshot_name_text(timestamp, screen_index, sequence, format))
            == Some(metadata_name_text(timestamp, sequence)),
{
    lemma_literal_facts();
    lemma_fields(screen_index, sequence);
    let ext = extension_text(format);
    let seqt = sequence_text(sequence);
    let stem = match screen_index {
        Some(i) => timestamp + "-screen-"@ + screen_text(i) + "-"@ + seqt,
        None => timestamp + "-"@ + seqt,
    };
    let name = screenshot_name_text(timestamp, screen_index, sequence, format);
    assert(name =~= stem + seq!['.'] + ext);
    assert(!stem.contains('/')) by {
        match screen_index {
            Some(i) => {
                lemma_no_char_concat(timestamp, "-screen-"@, '/');
                lemma_no_char_concat(timestamp + "-screen-"@, screen_text(i), '/');
                lemma_no_char_concat(timestamp + "-screen-"@ + screen_text(i), "-"@, '/');
                lemma_no_char_concat(timestamp + "-screen-"@ + screen_text(i) + "-"@, seqt, '/');
            },
            None => {
                lemma_no_char_concat(timestamp, "-"@, '/');
                lemma_no_char_concat(timestamp + "-"@, seqt, '/');
            },
        }
    }
    assert(stem.len() > 0);
    assert(ext.len() > 0) by {
        reveal_strlit("png");
        reveal_strlit("jpg");
    }
    lemma_name_split(stem, ext);
    assert(format_of_extension(ext) == Some(format)) by {
        reveal_strlit("png");
        reveal_strlit("jpg");
        reveal_strlit("jpeg");
        match format {
            ScreenshotFormat::Png => {},
            ScreenshotFormat::Jpg => {
                assert("jpg"@ != "png"@) by {
                    assert("jpg"@[0] != "png"@[0]);
                }
            },
        }
    }
    assert(ext.len() > 0) by {
        reveal_strlit("png");
        reveal_strlit("jpg");
    }
    let ts_parts = split_on(timestamp, '-');
    match screen_index {
        Some(i) => {
            let tail = "screen"@ + seq!['-'] + (screen_text(i) + seq!['-'] + seqt);
            assert(stem =~= timestamp + seq!['-'] + tail);
            lemma_split_concat(timestamp, tail, '-');
            lemma_split_concat("screen"@, screen_text(i) + seq!['-'] + seqt, '-');
            lemma_split_concat(screen_text(i), seqt, '-');
            lemma_split_no_sep("screen"@, '-');
            lemma_split_no_sep(screen_text(i), '-');
            lemma_split_no_sep(seqt, '-');
            let parts = split_on(stem, '-');
            let rest = seq!["screen"@, screen_text(i), seqt];
            assert(parts =~= ts_parts + rest);
            lemma_timestamp_parts(timestamp, rest);
            assert(parts[3] == "screen"@);
            assert(parts[4] == screen_text(i));
            assert(parts[5] == seqt);
        },
        None => {
            assert(stem =~= timestamp + seq!['-'] + seqt);
            lemma_split_concat(timestamp, seqt, '-');
            lemma_split_no_sep(seqt, '-');
            let parts = split_on(stem, '-');
            let rest = seq![seqt];
            assert(parts =~= ts_parts + rest);
            lemma_timestamp_parts(timestamp, rest);
            assert(parts[3] == seqt);
        },
    }
    assert(join_path(Seq::<char>::empty(), metadata_name_text(timestamp, sequence))
        == metadata_name_text(timestamp, sequence));
}
} // verus!
