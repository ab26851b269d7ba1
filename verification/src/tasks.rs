//! How a background task that stopped abnormally is reported.

use vstd::prelude::*;
use crate::textutil::{chars_of, push_str, string_of};

verus! {

/// A `String` of `s`.
fn owned(s: &str) -> (r: String)
    ensures
        r@ == s@,
{
    let v = chars_of(s);
    string_of(&v)
}

/// The message of a panic of a background task: its text when the payload
/// was text, else a placeholder.
pub fn panic_payload_message(payload_text: Option<String>) -> (r: String)
    ensures
        r@ == match payload_text {
            Some(t) => t@,
            None => "未知 panic payload"@,
        },
{
    match payload_text {
        Some(t) => t,
        None => owned("未知 panic payload"),
    }
}

/// The message of a panic of the history window's generation run: its
/// text when the payload was text, else a placeholder.
pub fn history_panic_message(payload_text: Option<String>) -> (r: String)
    ensures
        r@ == match payload_text {
            Some(t) => t@,
            None => "历史视频生成线程异常退出"@,
        },
{
    match payload_text {
        Some(t) => t,
        None => owned("历史视频生成线程异常退出"),
    }
}

/// The message that reports a task's panic: the task's name, `panic: ` and
/// the payload's message.
pub fn thread_panic_message(task_name: &str, payload_message: &str) -> (r: String)
    ensures
        r@ == task_name@ + " panic: "@ + payload_message@,
{
    let mut out: Vec<char> = Vec::new();
    push_str(&mut out, task_name);
    push_str(&mut out, " panic: ");
    push_str(&mut out, payload_message);
    string_of(&out)
}

} // verus!
