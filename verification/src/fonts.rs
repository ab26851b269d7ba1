//! The system fonts tried for Chinese text in the windows.

use vstd::prelude::*;
use crate::textutil::{chars_of, string_of};

verus! {

/// The operating systems the application runs on.
#[derive(Clone, Copy, Debug, PartialEq, Eq, Structural)]
pub enum TargetOs {
    MacOs,
    Windows,
}

/// The font files tried, in order, on each system.
pub open spec fn font_candidate_texts(os: TargetOs) -> Seq<Seq<char>> {
    match os {
        TargetOs::MacOs => seq![
            "/System/Library/Fonts/STHeiti Medium.ttc"@,
            "/Library/Fonts/Arial Unicode.ttf"@,
            "/System/Library/Fonts/Supplemental/Songti.ttc"@,
        ],
        TargetOs::Windows => seq![
            "C:\\Windows\\Fonts\\msyh.ttc"@,
            "C:\\Windows\\Fonts\\simhei.ttf"@,
            "C:\\Windows\\Fonts\\simsun.ttc"@,
        ],
    }
}

/// A `String` of `s`.
fn owned(s: &str) -> (r: String)
    ensures
        r@ == s@,
{
    let v = chars_of(s);
    string_of(&v)
}

/// The font files tried, in order, for Chinese text on `os`.
pub fn cjk_font_candidates(os: TargetOs) -> (r: Vec<String>)
    ensures
        r@.len() == font_candidate_texts(os).len(),
        forall|k: int| 0 <= k < r@.len() ==> #[trigger] r@[k]@ == font_candidate_texts(os)[k],
{
    let mut r: Vec<String> = Vec::new();
    match os {
        TargetOs::MacOs => {
            r.push(owned("/System/Library/Fonts/STHeiti Medium.ttc"));
            r.push(owned("/Library/Fonts/Arial Unicode.ttf"));
            r.push(owned("/System/Library/Fonts/Supplemental/Songti.ttc"));
        },
        TargetOs::Windows => {
            r.push(owned("C:\\Windows\\Fonts\\msyh.ttc"));
            r.push(owned("C:\\Windows\\Fonts\\simhei.ttf"));
            r.push(owned("C:\\Windows\\Fonts\\simsun.ttc"));
        },
    }
    r
}

} // verus!
