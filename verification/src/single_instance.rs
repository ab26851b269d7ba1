//! One running copy of each window: the lock file of each kind, and what
//! such a file says of its owner.

use vstd::prelude::*;
use crate::config::has_prefix;
use crate::textutil::{
    chars_of, decimal, is_digit, lemma_decimal_digits, lemma_split_concat,
    lemma_split_no_sep, lemma_zero_pad_digits, parse_u32_chars, parse_unsigned, push_decimal,
    push_str, slice_chars, split_chars, split_on, string_of, trim, trim_chars, trim_end, trim_start,
    zero_pad,
};
use crate::config::starts_with_str;

verus! {

/// The windows that run one copy at a time.
#[derive(Clone, Copy, Debug, PartialEq, Eq, Structural)]
pub enum InstanceKind {
    Main,
    History,
    Workdirs,
}

/// The lock file name of each kind.
pub open spec fn lock_name(kind: InstanceKind) -> Seq<char> {
    match kind {
        InstanceKind::Main => "screen-recorder-main.lock"@,
        InstanceKind::History => "screen-recorder-history.lock"@,
        InstanceKind::Workdirs => "screen-recorder-workdirs.lock"@,
    }
}

impl InstanceKind {
    /// The name of this kind's lock file in the control directory.
    pub fn lock_file_name(self) -> (r: &'static str)
        ensures
            r@ == lock_name(self),
    {
        match self {
            InstanceKind::Main => "screen-recorder-main.lock",
            InstanceKind::History => "screen-recorder-history.lock",
            InstanceKind::Workdirs => "screen-recorder-workdirs.lock",
        }
    }
}

/// What a lock file holds: `pid=`, the owner's process id and a newline.
pub fn lock_file_contents(pid: u32) -> (r: String)
    ensures
        r@ == "pid="@ + decimal(pid as nat) + "\n"@,
{
    let mut out: Vec<char> = Vec::new();
    push_str(&mut out, "pid=");
    push_decimal(&mut out, pid as u64, 0);
    push_str(&mut out, "\n");
    string_of(&out)
}

/// Whether `k` is the first line that starts with `pid=`.
pub open spec fn first_pid_line(lines: Seq<Seq<char>>, k: int) -> bool {
    &&& 0 <= k < lines.len()
    &&& has_prefix(lines[k], "pid="@)
    &&& forall|j: int| 0 <= j < k ==> !has_prefix(#[trigger] lines[j], "pid="@)
}

/// The owner's process id in a lock file: the first line that starts with
/// `pid=`, the rest of it trimmed and read as a `u32`; none when no line
/// starts so or the rest is no such number.
pub open spec fn lock_pid(contents: Seq<char>) -> Option<u32> {
    let lines = split_on(contents, '\n');
    if exists|k: int| first_pid_line(lines, k) {
        let k = choose|k: int| first_pid_line(lines, k);
        match parse_unsigned(trim(lines[k].subrange(4, lines[k].len() as int)), u32::MAX as nat) {
            Some(v) => Some(v as u32),
            None => None,
        }
    } else {
        None
    }
}

/// Reads the owner's process id from a lock file (see `lock_pid`).
pub fn parse_lock_pid(contents: &str) -> (r: Option<u32>)
    ensures
        r == lock_pid(contents@),
{
    let v = chars_of(contents);
    let lines = split_chars(&v, '\n');
    let ghost ls = split_on(contents@, '\n');
    let mut i: usize = 0;
    while i < lines.len()
        invariant
            i <= lines@.len(),
            v@ == contents@,
            ls == split_on(contents@, '\n'),
            lines@.len() == ls.len(),
            forall|k: int| 0 <= k < lines@.len() ==> #[trigger] lines@[k]@ == ls[k],
            forall|j: int| 0 <= j < i ==> !has_prefix(#[trigger] ls[j], "pid="@),
        decreases lines@.len() - i,
    {
        assert(lines@[i as int]@ == ls[i as int]);
        if starts_with_str(&lines[i], "pid=") {
            proof {
                reveal_strlit("pid=");
                assert(first_pid_line(ls, i as int));
                let k = choose|k: int| first_pid_line(ls, k);
                if k < i {
                    assert(!has_prefix(ls[k], "pid="@));
                } else if k > i {
                    assert(!has_prefix(ls[i as int], "pid="@));
                }
            }
            let line = &lines[i];
            let rest = slice_chars(line, 4, line.len());
            let trimmed = trim_chars(&rest);
            return parse_u32_chars(&trimmed);
        }
        i = i + 1;
    }
    proof {
        if exists|k: int| first_pid_line(ls, k) {
            let k = choose|k: int| first_pid_line(ls, k);
            assert(has_prefix(ls[k], "pid="@));
        }
    }
    None
}

/// What a lock file holds reads back as its owner: the process id that
/// `lock_file_contents` wrote is the one `parse_lock_pid` reads.
pub proof fn lemma_lock_file_round_trip(pid: u32)
    ensures
        lock_pid("pid="@ + decimal(pid as nat) + "\n"@) == Some(pid),
{
    reveal_strlit("pid=");
    reveal_strlit("\n");
    let d = decimal(pid as nat);
    lemma_decimal_digits(pid as nat);
    lemma_zero_pad_digits(pid as nat, 0, u32::MAX as nat);
    assert(zero_pad(d, 0) == d);
    let line = "pid="@ + d;
    let contents = line + "\n"@;
    assert(contents =~= line + seq!['\n'] + Seq::<char>::empty());
    assert(!line.contains('\n')) by {
        if line.contains('\n') {
            let k = choose|k: int| 0 <= k < line.len() && line[k] == '\n';
            if k >= 4 {
                assert(is_digit(d[k - 4]));
            }
        }
    }
    lemma_split_concat(line, Seq::<char>::empty(), '\n');
    lemma_split_no_sep(line, '\n');
    lemma_split_no_sep(Seq::<char>::empty(), '\n');
    let lines = split_on(contents, '\n');
    assert(lines =~= seq![line, Seq::<char>::empty()]);
    assert(line.subrange(0, 4) =~= "pid="@);
    assert(first_pid_line(lines, 0));
    let k = choose|k: int| first_pid_line(lines, k);
    assert(k == 0) by {
        if k > 0 {
            assert(!has_prefix(lines[0], "pid="@));
        }
    }
    assert(line.subrange(4, line.len() as int) =~= d);
    assert(is_digit(d[0]));
    assert(is_digit(d.last()));
    assert(trim_start(d) == d);
    assert(trim_end(d) == d);
    assert(trim(d) == d);
}

} // verus!
