//! The application log: when it is rotated, and the names of the older
//! logs.

use vstd::prelude::*;
use crate::pathutil::{join_chars, join_path};
use crate::textutil::{chars_of, decimal, push_decimal, push_str, string_of};

verus! {

/// The size above which the log is rotated: five MiB.
pub const MAX_LOG_BYTES: u64 = 5242880;

/// How many older logs are kept.
pub const MAX_ROTATED_LOGS: u8 = 3;

/// The log's file name.
pub const LOG_FILE_NAME: &'static str = "app.log";

/// Whether the log must be rotated: it exists (`size` is its length) and
/// exceeds `MAX_LOG_BYTES`.
pub fn should_rotate_log(size: Option<u64>) -> (r: bool)
    ensures
        r == match size {
            Some(s) => s > MAX_LOG_BYTES,
            None => false,
        },
{
    match size {
        Some(s) => s > MAX_LOG_BYTES,
        None => false,
    }
}

/// The `index`-th older log: `app.log.` and the index, in `root`.
pub open spec fn rotated_log_text(root: Seq<char>, index: u8) -> Seq<char> {
    join_path(root, "app.log."@ + decimal(index as nat))
}

/// The `index`-th older log in `root`.
pub fn rotated_log_path(root: &str, index: u8) -> (r: String)
    ensures
        r@ == rotated_log_text(root@, index),
{
    let mut name: Vec<char> = Vec::new();
    push_str(&mut name, "app.log.");
    push_decimal(&mut name, index as u64, 0);
    let b = chars_of(root);
    let j = join_chars(&b, &name);
    string_of(&j)
}

/// The current log in `root`.
pub fn log_path(root: &str) -> (r: String)
    ensures
        r@ == join_path(root@, LOG_FILE_NAME@),
{
    let b = chars_of(root);
    let n = chars_of(LOG_FILE_NAME);
    let j = join_chars(&b, &n);
    string_of(&j)
}

/// One step of a rotation.
#[derive(Debug)]
pub enum RotationStep {
    /// Delete the file if it is there.
    RemoveIfPresent(String),
    /// Rename the first file to the second if the first is there.
    RenameIfPresent(String, String),
    /// Rename the first file to the second.
    Rename(String, String),
}

/// A rotation step as plain values: its kind (0 remove, 1 rename when
/// present, 2 rename) and its paths.
pub open spec fn step_view(s: RotationStep) -> (int, Seq<char>, Seq<char>) {
    match s {
        RotationStep::RemoveIfPresent(p) => (0, p@, Seq::empty()),
        RotationStep::RenameIfPresent(a, b) => (1, a@, b@),
        RotationStep::Rename(a, b) => (2, a@, b@),
    }
}

/// The steps of a rotation in `root`: the oldest kept log goes, each older
/// log moves one place back (from the newest of them down), and the current
/// log becomes the first older log.
pub open spec fn rotation_steps(root: Seq<char>) -> Seq<(int, Seq<char>, Seq<char>)> {
    seq![
        (0, rotated_log_text(root, 3), Seq::empty()),
        (1, rotated_log_text(root, 2), rotated_log_text(root, 3)),
        (1, rotated_log_text(root, 1), rotated_log_text(root, 2)),
        (2, join_path(root, LOG_FILE_NAME@), rotated_log_text(root, 1)),
    ]
}

/// The steps of a rotation in `root` (see `rotation_steps`).
pub fn rotation_plan(root: &str) -> (r: Vec<RotationStep>)
    ensures
        r@.len() == rotation_steps(root@).len(),
        forall|k: int| 0 <= k < r@.len() ==> step_view(#[trigger] r@[k]) == rotation_steps(root@)[k],
{
    let mut r: Vec<RotationStep> = Vec::new();
    r.push(RotationStep::RemoveIfPresent(rotated_log_path(root, MAX_ROTATED_LOGS)));
    let mut index: u8 = MAX_ROTATED_LOGS - 1;
    while index >= 1
        invariant
            0 <= index <= 2,
            r@.len() == 3 - index,
            forall|k: int| 0 <= k < r@.len() ==> step_view(#[trigger] r@[k]) == rotation_steps(root@)[k],
        decreases index,
    {
        r.push(RotationStep::RenameIfPresent(rotated_log_path(root, index), rotated_log_path(root, index + 1)));
        index = index - 1;
    }
    r.push(RotationStep::Rename(log_path(root), rotated_log_path(root, 1)));
    r
}

/// What to do with the logs in `root` at start-up, `current_size` being the
/// current log's length if it exists: the rotation steps when it must be
/// rotated (see `should_rotate_log` and `rotation_steps`), else nothing.
pub fn rotate_logs(root: &str, current_size: Option<u64>) -> (r: Vec<RotationStep>)
    ensures
        match current_size {
            Some(s) if s > MAX_LOG_BYTES => {
                &&& r@.len() == rotation_steps(root@).len()
                &&& forall|k: int| 0 <= k < r@.len() ==> step_view(#[trigger] r@[k]) == rotation_steps(root@)[k]
            },
            _ => r@.len() == 0,
        },
{
    if !should_rotate_log(current_size) {
        return Vec::new();
    }
    rotation_plan(root)
}

} // verus!
