//! What the application asks of the operating system, as far as it is
//! text and decisions: the session lock state, the notification commands,
//! the backup name used when a file is replaced, and where to look for the
//! encoder.

use vstd::prelude::*;
use crate::pathutil::{file_name_of, join_chars, join_path, parent_of, parent_chars, file_name_chars};
use crate::textutil::{chars_of, push_all, push_str, string_of};

verus! {

/// A locked session, as Windows reports it.
pub const WTS_SESSIONSTATE_LOCK: i32 = 0;

/// An unlocked session, as Windows reports it.
pub const WTS_SESSIONSTATE_UNLOCK: i32 = 1;

/// A session whose state Windows does not know.
pub const WTS_SESSIONSTATE_UNKNOWN: i32 = -1;

/// Whether the session flags mean that the screen is locked: only an
/// unlocked session is not.
pub fn session_flags_indicate_locked(session_flags: i32) -> (r: bool)
    ensures
        r == (session_flags != WTS_SESSIONSTATE_UNLOCK),
{
    match session_flags {
        WTS_SESSIONSTATE_UNLOCK => false,
        _ => true,
    }
}

/// Whether the screen is locked, from the session flags that could be read
/// (`None` when they could not: then it counts as locked).
pub fn screen_locked(session_flags: Option<i32>) -> (r: bool)
    ensures
        r == match session_flags {
            Some(f) => f != WTS_SESSIONSTATE_UNLOCK,
            None => true,
        },
{
    match session_flags {
        Some(f) => session_flags_indicate_locked(f),
        None => true,
    }
}

/// One character of an AppleScript string: backslash, quote and newline
/// escaped with a backslash.
pub open spec fn applescript_char(c: char) -> Seq<char> {
    if c == '\\' {
        seq!['\\', '\\']
    } else if c == '"' {
        seq!['\\', '"']
    } else if c == '\n' {
        seq!['\\', 'n']
    } else {
        seq![c]
    }
}

/// Each character of `s` through `f`, concatenated.
pub open spec fn flat_map_chars(s: Seq<char>, f: spec_fn(char) -> Seq<char>) -> Seq<char>
    decreases s.len(),
{
    if s.len() == 0 {
        Seq::empty()
    } else {
        flat_map_chars(s.drop_last(), f) + f(s.last())
    }
}

/// Escapes text for an AppleScript string literal.
pub fn escape_applescript_string(value: &str) -> (r: String)
    ensures
        r@ == flat_map_chars(value@, |c: char| applescript_char(c)),
{
    let v = chars_of(value);
    let mut out: Vec<char> = Vec::new();
    let mut i: usize = 0;
    while i < v.len()
        invariant
            i <= v@.len(),
            v@ == value@,
            out@ == flat_map_chars(v@.subrange(0, i as int), |c: char| applescript_char(c)),
        decreases v@.len() - i,
    {
        let c = v[i];
        if c == '\\' {
            out.push('\\');
            out.push('\\');
        } else if c == '"' {
            out.push('\\');
            out.push('"');
        } else if c == '\n' {
            out.push('\\');
            out.push('n');
        } else {
            out.push(c);
        }
        let ghost next = v@.subrange(0, i + 1);
        assert(next.drop_last() =~= v@.subrange(0, i as int));
        assert(out@ =~= flat_map_chars(next, |c: char| applescript_char(c)));
        i = i + 1;
    }
    assert(v@.subrange(0, v@.len() as int) =~= v@);
    string_of(&out)
}

/// One character of a PowerShell single-quoted string: the quote doubled.
pub open spec fn powershell_char(c: char) -> Seq<char> {
    if c == '\'' {
        seq!['\'', '\'']
    } else {
        seq![c]
    }
}

/// Escapes text for a PowerShell single-quoted string.
pub fn escape_powershell_single_quoted(value: &str) -> (r: String)
    ensures
        r@ == flat_map_chars(value@, |c: char| powershell_char(c)),
{
    let v = chars_of(value);
    let mut out: Vec<char> = Vec::new();
    let mut i: usize = 0;
    while i < v.len()
        invariant
            i <= v@.len(),
            v@ == value@,
            out@ == flat_map_chars(v@.subrange(0, i as int), |c: char| powershell_char(c)),
        decreases v@.len() - i,
    {
        let c = v[i];
        if c == '\'' {
            out.push('\'');
            out.push('\'');
        } else {
            out.push(c);
        }
        let ghost next = v@.subrange(0, i + 1);
        assert(next.drop_last() =~= v@.subrange(0, i as int));
        assert(out@ =~= flat_map_chars(next, |c: char| powershell_char(c)));
        i = i + 1;
    }
    assert(v@.subrange(0, v@.len() as int) =~= v@);
    string_of(&out)
}

/// The AppleScript that shows a notification.
pub open spec fn applescript_notification(title: Seq<char>, message: Seq<char>) -> Seq<char> {
    "display notification \""@ + flat_map_chars(message, |c: char| applescript_char(c))
        + "\" with title \"Screen Recorder\" subtitle \""@ + flat_map_chars(
        title,
        |c: char| applescript_char(c),
    ) + "\""@
}

/// The AppleScript that shows a notification with `title` and `message`.
pub fn notification_applescript(title: &str, message: &str) -> (r: String)
    ensures
        r@ == applescript_notification(title@, message@),
{
    let m = escape_applescript_string(message);
    let t = escape_applescript_string(title);
    let mut out: Vec<char> = Vec::new();
    push_str(&mut out, "display notification \"");
    push_str(&mut out, m.as_str());
    push_str(&mut out, "\" with title \"Screen Recorder\" subtitle \"");
    push_str(&mut out, t.as_str());
    push_str(&mut out, "\"");
    string_of(&out)
}

/// The PowerShell command that shows a message box.
pub open spec fn powershell_notification(title: Seq<char>, message: Seq<char>) -> Seq<char> {
    "Add-Type -AssemblyName System.Windows.Forms; [System.Windows.Forms.MessageBox]::Show('"@
        + flat_map_chars(message, |c: char| powershell_char(c)) + "', 'Screen Recorder - "@
        + flat_map_chars(title, |c: char| powershell_char(c)) + "') | Out-Null"@
}

/// The PowerShell command that shows a message box with `title` and
/// `message`.
pub fn notification_powershell(title: &str, message: &str) -> (r: String)
    ensures
        r@ == powershell_notification(title@, message@),
{
    let m = escape_powershell_single_quoted(message);
    let t = escape_powershell_single_quoted(title);
    let mut out: Vec<char> = Vec::new();
    push_str(
        &mut out,
        "Add-Type -AssemblyName System.Windows.Forms; [System.Windows.Forms.MessageBox]::Show('",
    );
    push_str(&mut out, m.as_str());
    push_str(&mut out, "', 'Screen Recorder - ");
    push_str(&mut out, t.as_str());
    push_str(&mut out, "') | Out-Null");
    string_of(&out)
}

/// The file that holds the old copy while a file is replaced: the file's
/// name with `.bak`, beside it (`backup.bak` when it has no name).
pub open spec fn backup_text(path: Seq<char>) -> Seq<char> {
    let name = match file_name_of(path) {
        Some(n) => n,
        None => "backup"@,
    };
    let file = name + ".bak"@;
    match parent_of(path) {
        Some(p) => join_path(p, file),
        None => file,
    }
}

/// The backup file used while `path` is replaced (see `backup_text`).
pub fn backup_path(path: &str) -> (r: String)
    ensures
        r@ == backup_text(path@),
{
    let p = chars_of(path);
    let mut file: Vec<char> = Vec::new();
    match file_name_chars(&p) {
        Some(n) => push_all(&mut file, &n),
        None => push_str(&mut file, "backup"),
    }
    push_str(&mut file, ".bak");
    match parent_chars(&p) {
        Some(parent) => {
            let j = join_chars(&parent, &file);
            string_of(&j)
        },
        None => string_of(&file),
    }
}

/// Where the encoder is looked for first, in order: beside the executable,
/// then each extra path relative to the executable's directory.
pub open spec fn ffmpeg_candidate_texts(dir: Seq<char>, binary: Seq<char>, extra: Seq<Seq<char>>) -> Seq<
    Seq<char>,
> {
    seq![join_path(dir, binary)] + extra.map_values(|e: Seq<char>| join_path(dir, e))
}

/// The views of a list of strings.
pub open spec fn str_views(v: Seq<&str>) -> Seq<Seq<char>> {
    v.map_values(|s: &str| s@)
}

/// Where the encoder is looked for first (see `ffmpeg_candidate_texts`);
/// the search then goes on in the directories of `PATH`.
pub fn ffmpeg_candidates(executable_dir: &str, binary_name: &str, extra_paths: &Vec<&str>) -> (r: Vec<String>)
    ensures
        r@.len() == extra_paths@.len() + 1,
        forall|k: int|
            0 <= k < r@.len() ==> #[trigger] r@[k]@ == ffmpeg_candidate_texts(
                executable_dir@,
                binary_name@,
                str_views(extra_paths@),
            )[k],
{
    let dir = chars_of(executable_dir);
    let mut r: Vec<String> = Vec::new();
    let b = chars_of(binary_name);
    r.push(string_of(&join_chars(&dir, &b)));
    let mut i: usize = 0;
    while i < extra_paths.len()
        invariant
            i <= extra_paths@.len(),
            dir@ == executable_dir@,
            r@.len() == i + 1,
            forall|k: int|
                0 <= k < r@.len() ==> #[trigger] r@[k]@ == ffmpeg_candidate_texts(
                    executable_dir@,
                    binary_name@,
                    str_views(extra_paths@),
                )[k],
        decreases extra_paths@.len() - i,
    {
        let e = chars_of(extra_paths[i]);
        r.push(string_of(&join_chars(&dir, &e)));
        i = i + 1;
    }
    r
}

} // verus!
