//! Capture bookkeeping: the report of one capture batch, the numbering of
//! screens, the choice of screens to capture, and the reservation of batch
//! sequence numbers that no file in the day's directory uses yet.

use vstd::prelude::*;
use crate::config::{CaptureMode, ScreenshotFormat};
use crate::naming::{
    metadata_name_text, multi_screen_metadata_file_name, parse_screenshot_file_name, parsed_name,
    screenshot_file_name, screenshot_name_text,
};
use crate::pathutil::{parent_chars, parent_of};
use crate::dedup::CaptureBatchFingerprint;
use crate::naming::parsed_name as parsed_name_of;
use crate::textutil::{chars_eq, chars_of, push_str, string_of};
use crate::i18n::{Text, partial_failure_text, saved_capture_prefix_text, saved_screenshots_text, skipped_duplicate_text};
use crate::config::Language;
use crate::pathutil::{join_chars, join_path};
use crate::geometry::{SavedGeometry, captured_geometry, captured_geometry_of};
use std::collections::BTreeMap;

verus! {

broadcast use {vstd::std_specs::btree::group_btree_axioms, vstd::laws_cmp::group_laws_cmp};

/// What one capture request produced.
#[derive(Clone, Debug)]
pub struct CaptureReport {
    /// The screenshots written by this capture.
    pub saved_paths: Vec<String>,
    /// The screenshots of the earlier identical batch, when this capture was
    /// skipped as a duplicate.
    pub previous_paths: Vec<String>,
    /// The geometry record of the batch, for a multi-screen capture.
    pub metadata_path: Option<String>,
    /// How many screens the capture aimed at.
    pub target_screen_count: usize,
    /// How many of them could not be captured.
    pub failed_screen_count: usize,
    /// Whether the capture was skipped because nothing changed.
    pub skipped_duplicate: bool,
}

/// The paths a report shows: the saved ones, or the earlier batch's when
/// nothing was saved.
pub open spec fn display_paths_of(report: CaptureReport) -> Seq<String> {
    if report.saved_paths@.len() == 0 {
        report.previous_paths@
    } else {
        report.saved_paths@
    }
}

/// The directory a report points to: that of its first shown path, else
/// that of its geometry record.
pub open spec fn report_dir_of(report: CaptureReport) -> Option<Seq<char>> {
    let shown = display_paths_of(report);
    let first = if shown.len() > 0 {
        parent_of(shown[0]@)
    } else {
        None
    };
    match first {
        Some(d) => Some(d),
        None => match report.metadata_path {
            Some(m) => parent_of(m@),
            None => None,
        },
    }
}

impl CaptureReport {
    /// The number of screenshots written.
    pub fn saved_count(&self) -> (r: usize)
        ensures
            r == self.saved_paths@.len(),
    {
        self.saved_paths.len()
    }

    /// The saved screenshots, or the earlier batch's when nothing was saved.
    pub fn display_paths(&self) -> (r: &Vec<String>)
        ensures
            r@ == display_paths_of(*self),
    {
        if self.saved_paths.len() == 0 {
            &self.previous_paths
        } else {
            &self.saved_paths
        }
    }

    /// The directory that holds the shown screenshots.
    pub fn output_dir(&self) -> (r: Option<String>)
        ensures
            match r {
                Some(d) => report_dir_of(*self) == Some(d@),
                None => report_dir_of(*self) is None,
            },
    {
        let shown = self.display_paths();
        if shown.len() > 0 {
            let first = chars_of(shown[0].as_str());
            if let Some(parent) = parent_chars(&first) {
                return Some(string_of(&parent));
            }
        }
        match &self.metadata_path {
            Some(m) => {
                let mv = chars_of(m.as_str());
                match parent_chars(&mv) {
                    Some(parent) => Some(string_of(&parent)),
                    None => None,
                }
            },
            None => None,
        }
    }
}

/// Where a screen sits on the desktop, and the number the capture gives it.
#[derive(Clone, Copy, Debug, PartialEq, Eq, Structural)]
pub struct ScreenPlacement {
    pub index: u32,
    pub id: u32,
    pub x: i32,
    pub y: i32,
    pub width: u32,
    pub height: u32,
    pub is_primary: bool,
}

/// A captured screen as the capture logic sees it: its number and the size
/// of its prepared image.
#[derive(Clone, Copy, Debug, PartialEq, Eq, Structural)]
pub struct CapturedScreen {
    pub screen_index: u32,
    pub width: u32,
    pub height: u32,
}

/// Whether `a` comes no later than `b` in screen order: the primary screen
/// first, then by left edge, top edge and system id.
pub open spec fn screen_le(a: ScreenPlacement, b: ScreenPlacement) -> bool {
    let pa: int = if a.is_primary {
        0
    } else {
        1
    };
    let pb: int = if b.is_primary {
        0
    } else {
        1
    };
    if pa != pb {
        pa < pb
    } else if a.x != b.x {
        a.x < b.x
    } else if a.y != b.y {
        a.y < b.y
    } else {
        a.id <= b.id
    }
}

/// Whether two screens tie in screen order.
pub open spec fn screen_tie(a: ScreenPlacement, b: ScreenPlacement) -> bool {
    screen_le(a, b) && screen_le(b, a)
}

/// Whether `perm` lists each of `0..n` once.
pub open spec fn is_permutation(perm: Seq<int>, n: nat) -> bool {
    &&& perm.len() == n
    &&& forall|k: int| 0 <= k < n ==> 0 <= #[trigger] perm[k] < n
    &&& forall|a: int, b: int| 0 <= a < b < n ==> perm[a] != perm[b]
}

/// Whether `out` is `input` in screen order, stable among ties, through the
/// reordering `perm`, with each screen numbered by its position from one.
pub open spec fn indexed_in_screen_order<T>(
    input: Seq<(T, ScreenPlacement)>,
    out: Seq<(T, ScreenPlacement)>,
    perm: Seq<int>,
) -> bool {
    &&& is_permutation(perm, input.len())
    &&& out.len() == input.len()
    &&& forall|k: int|
        0 <= k < out.len() ==> {
            &&& (#[trigger] out[k]).0 == input[perm[k]].0
            &&& out[k].1 == ScreenPlacement { index: (k + 1) as u32, ..input[perm[k]].1 }
        }
    &&& forall|a: int, b: int|
        0 <= a < b < out.len() ==> screen_le(#[trigger] out[a].1, #[trigger] out[b].1)
    &&& forall|a: int, b: int|
        0 <= a < b < out.len() && screen_tie(#[trigger] out[a].1, #[trigger] out[b].1) ==> perm[a]
            < perm[b]
}

/// Screen order is the primary screen first, then left edge, then top edge,
/// then system id: a screen strictly earlier by the first of these keys that
/// differs comes strictly first, whatever the later keys say.
pub proof fn lemma_screen_order_keys(a: ScreenPlacement, b: ScreenPlacement)
    ensures
        a.is_primary && !b.is_primary ==> screen_le(a, b) && !screen_le(b, a),
        a.is_primary == b.is_primary && a.x < b.x ==> screen_le(a, b) && !screen_le(b, a),
        a.is_primary == b.is_primary && a.x == b.x && a.y < b.y ==> screen_le(a, b) && !screen_le(b, a),
        a.is_primary == b.is_primary && a.x == b.x && a.y == b.y ==> (screen_le(a, b) <==> a.id <= b.id),
{
}

/// In a numbering made in screen order, the primary screen gets a smaller
/// number than every other screen, and of two screens alike in that, the
/// one with the smaller left edge gets the smaller number, whatever their
/// top edges.
pub proof fn lemma_numbers_follow_left_edges<T>(
    input: Seq<(T, ScreenPlacement)>,
    out: Seq<(T, ScreenPlacement)>,
    perm: Seq<int>,
    a: int,
    b: int,
)
    requires
        indexed_in_screen_order(input, out, perm),
        out.len() < u32::MAX,
        0 <= a < out.len(),
        0 <= b < out.len(),
    ensures
        out[a].1.is_primary && !out[b].1.is_primary ==> a < b && out[a].1.index < out[b].1.index,
        out[a].1.is_primary == out[b].1.is_primary && out[a].1.x < out[b].1.x ==> a < b
            && out[a].1.index < out[b].1.index,
{
    lemma_screen_order_keys(out[a].1, out[b].1);
    if b < a {
        assert(screen_le(out[b].1, out[a].1));
    }
    let oa = out[a];
    let ob = out[b];
    assert(oa.1.index == (a + 1) as u32);
    assert(ob.1.index == (b + 1) as u32);
}

proof fn lemma_screen_le_total(a: ScreenPlacement, b: ScreenPlacement)
    ensures
        screen_le(a, b) || screen_le(b, a),
        !screen_le(a, b) ==> screen_le(b, a) && !screen_tie(a, b),
{
}

proof fn lemma_screen_le_trans(a: ScreenPlacement, b: ScreenPlacement, c: ScreenPlacement)
    requires
        screen_le(a, b),
        screen_le(b, c),
    ensures
        screen_le(a, c),
{
}

/// Whether screen `a` comes strictly before `b`: `screen_le` computed.
fn screen_le_exec(a: &ScreenPlacement, b: &ScreenPlacement) -> (r: bool)
    ensures
        r == screen_le(*a, *b),
{
    if a.is_primary != b.is_primary {
        a.is_primary
    } else if a.x != b.x {
        a.x < b.x
    } else if a.y != b.y {
        a.y < b.y
    } else {
        a.id <= b.id
    }
}

/// Orders screens with the primary screen first, then by left edge, top
/// edge and system id (a stable sort, so ties keep their order), and
/// numbers them from one in that order. The value beside each screen stays
/// with it.
pub fn assign_screen_indices_to_entries<T>(entries: Vec<(T, ScreenPlacement)>) -> (r: Vec<
    (T, ScreenPlacement),
>)
    requires
        entries@.len() < u32::MAX,
    ensures
        exists|perm: Seq<int>| #[trigger] indexed_in_screen_order(entries@, r@, perm),
{
    let ghost input = entries@;
    let n = entries.len();
    let mut sorted: Vec<(T, ScreenPlacement)> = Vec::new();
    let ghost mut perm: Seq<int> = Seq::empty();
    let mut rest = entries;
    // Take entries from the back so that `pop` is cheap; inserting each
    // before the first entry that it does not follow keeps ties in input
    // order.
    while rest.len() > 0
        invariant
            n == input.len(),
            rest@.len() + sorted@.len() == n,
            rest@ == input.subrange(0, rest@.len() as int),
            perm.len() == sorted@.len(),
            forall|k: int|
                0 <= k < perm.len() ==> rest@.len() <= #[trigger] perm[k] < n,
            forall|a: int, b: int| 0 <= a < b < perm.len() ==> perm[a] != perm[b],
            forall|k: int| 0 <= k < sorted@.len() ==> #[trigger] sorted@[k] == input[perm[k]],
            forall|a: int, b: int|
                0 <= a < b < sorted@.len() ==> screen_le(
                    #[trigger] sorted@[a].1,
                    #[trigger] sorted@[b].1,
                ),
            forall|a: int, b: int|
                0 <= a < b < sorted@.len() && screen_tie(
                    #[trigger] sorted@[a].1,
                    #[trigger] sorted@[b].1,
                ) ==> perm[a] < perm[b],
        decreases rest@.len(),
    {
        let ghost src = (rest@.len() - 1) as int;
        let item = rest.pop().unwrap();
        assert(item == input[src]);
        // Find the first position whose entry does not come before `item`
        // or ties with it; `item` is older than every sorted entry, so it
        // goes before its ties.
        let mut p: usize = 0;
        while p < sorted.len() && !screen_le_exec(&item.1, &sorted[p].1)
            invariant
                p <= sorted@.len(),
                forall|k: int| 0 <= k < p ==> !screen_le(item.1, #[trigger] sorted@[k].1),
            decreases sorted@.len() - p,
        {
            p = p + 1;
        }
        proof {
            assert forall|k: int| p <= k < sorted@.len() implies screen_le(
                item.1,
                #[trigger] sorted@[k].1,
            ) by {
                if p < sorted@.len() {
                    assert(screen_le(item.1, sorted@[p as int].1));
                    if k > p {
                        lemma_screen_le_trans(item.1, sorted@[p as int].1, sorted@[k].1);
                    }
                }
            }
            assert forall|k: int| 0 <= k < p implies screen_le(
                #[trigger] sorted@[k].1,
                item.1,
            ) && !screen_tie(sorted@[k].1, item.1) by {
                lemma_screen_le_total(item.1, sorted@[k].1);
            }
        }
        let ghost old_sorted = sorted@;
        let ghost old_perm = perm;
        sorted.insert(p, item);
        proof {
            perm = old_perm.insert(p as int, src);
            assert forall|k: int| 0 <= k < sorted@.len() implies #[trigger] sorted@[k] == input[perm[k]] by {
                if k < p {
                    assert(sorted@[k] == old_sorted[k]);
                } else if k > p {
                    assert(sorted@[k] == old_sorted[k - 1]);
                }
            }
            assert forall|a: int, b: int| 0 <= a < b < sorted@.len() implies screen_le(
                #[trigger] sorted@[a].1,
                #[trigger] sorted@[b].1,
            ) by {
                if a < p && b < p {
                    assert(screen_le(old_sorted[a].1, old_sorted[b].1));
                } else if a < p && b == p {
                } else if a < p && b > p {
                    assert(screen_le(old_sorted[a].1, old_sorted[b - 1].1));
                } else if a == p {
                } else {
                    assert(screen_le(old_sorted[a - 1].1, old_sorted[b - 1].1));
                }
            }
            assert forall|a: int, b: int|
                0 <= a < b < sorted@.len() && screen_tie(
                    #[trigger] sorted@[a].1,
                    #[trigger] sorted@[b].1,
                ) implies perm[a] < perm[b] by {
                if a < p && b < p {
                } else if a < p && b == p {
                    assert(!screen_tie(old_sorted[a].1, item.1));
                } else if a < p && b > p {
                } else if a == p {
                    assert(perm[a] == src);
                    assert(old_perm[b - 1] >= rest@.len() + 1);
                } else {
                }
            }
        }
    }
    let mut out: Vec<(T, ScreenPlacement)> = Vec::new();
    let ghost sorted_view = sorted@;
    let mut src_items = sorted;
    let ghost mut taken: Seq<(T, ScreenPlacement)> = Seq::empty();
    while src_items.len() > 0
        invariant
            n == input.len(),
            sorted_view.len() == n,
            out@.len() + src_items@.len() == n,
            src_items@ == sorted_view.subrange(0, src_items@.len() as int),
            out@.len() < u32::MAX,
            n < u32::MAX,
            forall|j: int|
                0 <= j < out@.len() ==> {
                    let s = sorted_view[n - 1 - j];
                    &&& (#[trigger] out@[j]).0 == s.0
                    &&& out@[j].1 == ScreenPlacement { index: (n - j) as u32, ..s.1 }
                },
        decreases src_items@.len(),
    {
        let pos = src_items.len();
        let (value, placement) = src_items.pop().unwrap();
        let numbered = ScreenPlacement { index: pos as u32, ..placement };
        out.push((value, numbered));
    }
    let mut result: Vec<(T, ScreenPlacement)> = Vec::new();
    let ghost out_view = out@;
    while out.len() > 0
        invariant
            n == input.len(),
            out_view.len() == n,
            out@ == out_view.subrange(0, out@.len() as int),
            result@.len() + out@.len() == n,
            forall|j: int|
                0 <= j < result@.len() ==> #[trigger] result@[j] == out_view[n - 1 - j],
        decreases out@.len(),
    {
        let e = out.pop().unwrap();
        result.push(e);
    }
    proof {
        assert(indexed_in_screen_order(input, result@, perm)) by {
            assert forall|j: int| 0 <= j < result@.len() implies {
                &&& (#[trigger] result@[j]).0 == input[perm[j]].0
                &&& result@[j].1 == ScreenPlacement { index: (j + 1) as u32, ..input[perm[j]].1 }
            } by {
                assert(result@[j] == out_view[n - 1 - j]);
                assert(sorted_view[j] == input[perm[j]]);
            }
            assert forall|a: int, b: int| 0 <= a < b < result@.len() implies screen_le(
                #[trigger] result@[a].1,
                #[trigger] result@[b].1,
            ) by {
                assert(result@[a] == out_view[n - 1 - a]);
                assert(result@[b] == out_view[n - 1 - b]);
                assert(screen_le(sorted_view[a].1, sorted_view[b].1));
            }
            assert forall|a: int, b: int|
                0 <= a < b < result@.len() && screen_tie(
                    #[trigger] result@[a].1,
                    #[trigger] result@[b].1,
                ) implies perm[a] < perm[b] by {
                assert(result@[a] == out_view[n - 1 - a]);
                assert(result@[b] == out_view[n - 1 - b]);
                assert(screen_tie(sorted_view[a].1, sorted_view[b].1));
            }
        }
    }
    result
}

/// Screens paired with nothing, for `assign_screen_indices_to_entries`.
pub open spec fn unit_entries(s: Seq<ScreenPlacement>) -> Seq<((), ScreenPlacement)> {
    s.map_values(|p: ScreenPlacement| ((), p))
}

/// The screens of `placements`, in screen order and numbered from one.
pub fn assign_screen_indices(placements: Vec<ScreenPlacement>) -> (r: Vec<ScreenPlacement>)
    requires
        placements@.len() < u32::MAX,
    ensures
        exists|perm: Seq<int>|
            #[trigger] indexed_in_screen_order(
                unit_entries(placements@),
                unit_entries(r@),
                perm,
            ),
{
    let mut entries: Vec<((), ScreenPlacement)> = Vec::new();
    let mut i: usize = 0;
    while i < placements.len()
        invariant
            i <= placements@.len(),
            entries@ == unit_entries(placements@.subrange(0, i as int)),
        decreases placements@.len() - i,
    {
        entries.push(((), placements[i]));
        i = i + 1;
        assert(entries@ =~= unit_entries(placements@.subrange(0, i as int)));
    }
    assert(placements@.subrange(0, placements@.len() as int) =~= placements@);
    let sorted = assign_screen_indices_to_entries(entries);
    let mut out: Vec<ScreenPlacement> = Vec::new();
    let mut j: usize = 0;
    while j < sorted.len()
        invariant
            j <= sorted@.len(),
            out@.len() == j,
            forall|k: int| 0 <= k < j ==> #[trigger] out@[k] == sorted@[k].1,
        decreases sorted@.len() - j,
    {
        out.push(sorted[j].1);
        j = j + 1;
    }
    proof {
        let perm = choose|perm: Seq<int>| indexed_in_screen_order(entries@, sorted@, perm);
        assert(unit_entries(out@) =~= sorted@);
        assert(indexed_in_screen_order(
            unit_entries(placements@),
            unit_entries(out@),
            perm,
        ));
    }
    out
}

/// The numbers of `screens`, in order.
pub open spec fn screen_numbers(screens: Seq<ScreenPlacement>) -> Seq<u32> {
    screens.map_values(|s: ScreenPlacement| s.index)
}

/// Positions as integers.
pub open spec fn positions(v: Seq<usize>) -> Seq<int> {
    v.map_values(|k: usize| k as int)
}

/// The capture mode that stays usable with the screens now present: a
/// chosen screen that is missing falls back to `Auto`.
pub open spec fn mode_for_screens(mode: CaptureMode, indices: Seq<u32>) -> CaptureMode {
    match mode {
        CaptureMode::Auto => CaptureMode::Auto,
        CaptureMode::Screen(index) => if indices.contains(index) {
            mode
        } else {
            CaptureMode::Auto
        },
    }
}

/// Keeps a chosen screen only while a screen with that number is present.
pub fn validate_capture_mode_for_screens(
    capture_mode: CaptureMode,
    screen_infos: &Vec<ScreenPlacement>,
) -> (r: CaptureMode)
    ensures
        r == mode_for_screens(capture_mode, screen_numbers(screen_infos@)),
{
    let ghost indices = screen_numbers(screen_infos@);
    match capture_mode {
        CaptureMode::Auto => CaptureMode::Auto,
        CaptureMode::Screen(index) => {
            let mut i: usize = 0;
            while i < screen_infos.len()
                invariant
                    capture_mode == CaptureMode::Screen(index),
                    i <= screen_infos@.len(),
                    indices == screen_numbers(screen_infos@),
                    forall|k: int| 0 <= k < i ==> #[trigger] indices[k] != index,
                decreases screen_infos@.len() - i,
            {
                if screen_infos[i].index == index {
                    assert(indices[i as int] == index);
                    assert(indices.contains(index));
                    return capture_mode;
                }
                i = i + 1;
            }
            assert(!indices.contains(index));
            CaptureMode::Auto
        },
    }
}

/// The positions, among the numbered `screens`, of the ones a capture in
/// `capture_mode` takes: all of them, or the first with the chosen number;
/// `None` when no screen has that number.
pub open spec fn capture_targets_of(screens: Seq<ScreenPlacement>, mode: CaptureMode) -> Option<
    Seq<int>,
> {
    match mode {
        CaptureMode::Auto => Some(Seq::new(screens.len(), |k: int| k)),
        CaptureMode::Screen(index) => {
            if exists|k: int| 0 <= k < screens.len() && screens[k].index == index {
                let k = choose|k: int|
                    0 <= k < screens.len() && screens[k].index == index && forall|j: int|
                        0 <= j < k ==> screens[j].index != index;
                Some(seq![k])
            } else {
                None
            }
        },
    }
}

/// Chooses the screens to capture, as `capture_targets_of` states.
pub fn select_capture_targets(screens: &Vec<ScreenPlacement>, capture_mode: CaptureMode) -> (r:
    Option<Vec<usize>>)
    ensures
        match r {
            Some(v) => capture_targets_of(screens@, capture_mode) == Some(
                positions(v@),
            ),
            None => capture_targets_of(screens@, capture_mode) is None,
        },
{
    match capture_mode {
        CaptureMode::Auto => {
            let mut v: Vec<usize> = Vec::new();
            let mut i: usize = 0;
            while i < screens.len()
                invariant
                    i <= screens@.len(),
                    v@.len() == i,
                    forall|k: int| 0 <= k < i ==> #[trigger] v@[k] == k,
                decreases screens@.len() - i,
            {
                v.push(i);
                i = i + 1;
            }
            assert(positions(v@) =~= Seq::new(screens@.len(), |k: int| k));
            Some(v)
        },
        CaptureMode::Screen(index) => {
            let mut i: usize = 0;
            while i < screens.len()
                invariant
                    capture_mode == CaptureMode::Screen(index),
                    i <= screens@.len(),
                    forall|j: int| 0 <= j < i ==> #[trigger] screens@[j].index != index,
                decreases screens@.len() - i,
            {
                if screens[i].index == index {
                    let mut v: Vec<usize> = Vec::new();
                    v.push(i);
                    proof {
                        let ii = i as int;
                        assert(0 <= ii < screens@.len() && screens@[ii].index == index);
                        assert(0 <= ii < screens@.len() && screens@[ii].index == index && forall|
                            j: int,
                        |
                            0 <= j < ii ==> screens@[j].index != index);
                        let k = choose|k: int|
                            0 <= k < screens@.len() && screens@[k].index == index && forall|
                                j: int,
                            |
                                0 <= j < k ==> screens@[j].index != index;
                        assert(k == ii) by {
                            if k < ii {
                                assert(screens@[k].index != index);
                            } else if k > ii {
                                assert(screens@[ii].index != index);
                            }
                        }
                        assert(positions(v@) =~= seq![ii]);
                    }
                    return Some(v);
                }
                i = i + 1;
            }
            None
        },
    }
}

/// Whether one capture batch gets multi-screen names: in `Auto` mode with
/// more than one target screen.
pub fn uses_multi_screen_names(capture_mode: CaptureMode, target_screen_count: usize) -> (r: bool)
    ensures
        r == (capture_mode == CaptureMode::Auto && target_screen_count > 1),
{
    match capture_mode {
        CaptureMode::Auto => target_screen_count > 1,
        CaptureMode::Screen(_) => false,
    }
}


/// Why no batch sequence could be reserved: every sequence up to the
/// largest `u64` is taken.
#[derive(Clone, Copy, Debug, PartialEq, Eq, Structural)]
pub enum SequenceError {
    Exhausted,
}

/// What a capture session remembers between captures: the next sequence
/// for each directory it has written to, and the last saved batch.
#[derive(Debug)]
pub struct CaptureState {
    /// Directory and next sequence, no directory twice (see `distinct_dirs`,
    /// which `new` establishes and every change keeps).
    pub next_sequence_by_dir: Vec<(String, u64)>,
    pub last_capture: Option<CaptureBatchFingerprint>,
}

/// Whether no directory occurs twice in the sequence table.
pub open spec fn distinct_dirs(entries: Seq<(String, u64)>) -> bool {
    forall|i: int, j: int| 0 <= i < j < entries.len() ==> (#[trigger] entries[i]).0@ != (#[trigger] entries[j]).0@
}

/// The next sequence remembered for `dir`.
pub open spec fn sequence_for_dir(entries: Seq<(String, u64)>, dir: Seq<char>) -> Option<u64>
    decreases entries.len(),
{
    if entries.len() == 0 {
        None
    } else if entries[0].0@ == dir {
        Some(entries[0].1)
    } else {
        sequence_for_dir(entries.drop_first(), dir)
    }
}

impl CaptureState {
    /// A state that remembers nothing.
    pub fn new() -> (r: Self)
        ensures
            r.next_sequence_by_dir@.len() == 0,
            distinct_dirs(r.next_sequence_by_dir@),
            r.last_capture is None,
    {
        CaptureState { next_sequence_by_dir: Vec::new(), last_capture: None }
    }
}

/// Looks up the next sequence remembered for `dir`.
pub fn lookup_next_sequence(entries: &Vec<(String, u64)>, dir: &Vec<char>) -> (r: Option<u64>)
    ensures
        r == sequence_for_dir(entries@, dir@),
{
    let mut i: usize = 0;
    assert(entries@.subrange(0, entries@.len() as int) =~= entries@);
    while i < entries.len()
        invariant
            i <= entries@.len(),
            sequence_for_dir(entries@, dir@) == sequence_for_dir(entries@.subrange(i as int, entries@.len() as int), dir@),
        decreases entries@.len() - i,
    {
        let key = chars_of(entries[i].0.as_str());
        assert(entries@.subrange(i as int, entries@.len() as int)[0] == entries@[i as int]);
        if chars_eq(&key, dir) {
            return Some(entries[i].1);
        }
        assert(entries@.subrange(i as int, entries@.len() as int).drop_first() =~= entries@.subrange(i + 1, entries@.len() as int));
        i = i + 1;
    }
    None
}

proof fn lemma_sequence_update(
    entries: Seq<(String, u64)>,
    i: int,
    key: String,
    value: u64,
    d: Seq<char>,
)
    requires
        0 <= i < entries.len(),
        entries[i].0@ == key@,
        forall|k: int| 0 <= k < i ==> #[trigger] entries[k].0@ != key@,
    ensures
        sequence_for_dir(entries.update(i, (key, value)), d) == if d == key@ {
            Some(value)
        } else {
            sequence_for_dir(entries, d)
        },
    decreases i,
{
    let dir = key@;
    let e2 = entries.update(i, (key, value));
    if i > 0 {
        let rest = entries.drop_first();
        assert(rest[i - 1] == entries[i]);
        assert(e2.drop_first() =~= rest.update(i - 1, (key, value)));
        assert forall|k: int| 0 <= k < i - 1 implies #[trigger] rest[k].0@ != dir by {
            assert(rest[k] == entries[k + 1]);
            assert(entries[k + 1].0@ != dir);
        }
        lemma_sequence_update(rest, i - 1, key, value, d);
        assert(entries[0].0@ != dir);
        assert(e2[0] == entries[0]);
    } else {
        assert(e2.drop_first() =~= entries.drop_first());
        assert(e2[0].0@ == dir);
    }
}

proof fn lemma_sequence_push(entries: Seq<(String, u64)>, key: String, value: u64, d: Seq<char>)
    requires
        sequence_for_dir(entries, key@) is None,
    ensures
        sequence_for_dir(entries.push((key, value)), d) == if d == key@ {
            Some(value)
        } else {
            sequence_for_dir(entries, d)
        },
    decreases entries.len(),
{
    let e2 = entries.push((key, value));
    if entries.len() > 0 {
        assert(e2[0] == entries[0]);
        assert(entries[0].0@ != key@);
        assert(e2.drop_first() =~= entries.drop_first().push((key, value)));
        lemma_sequence_push(entries.drop_first(), key, value, d);
    } else {
        assert(e2[0] == (key, value));
        assert(e2.drop_first() =~= Seq::<(String, u64)>::empty());
        assert(sequence_for_dir(e2.drop_first(), d) is None);
        assert(sequence_for_dir(entries, d) is None);
    }
}

/// Remembers `value` as the next sequence for `dir`, leaving every other
/// directory's as it was.
pub fn set_next_sequence(entries: &mut Vec<(String, u64)>, dir: &str, value: u64)
    ensures
        forall|d: Seq<char>|
            #[trigger] sequence_for_dir(final(entries)@, d) == if d == dir@ {
                Some(value)
            } else {
                sequence_for_dir(old(entries)@, d)
            },
        distinct_dirs(old(entries)@) ==> distinct_dirs(final(entries)@),
{
    let dv = chars_of(dir);
    let mut i: usize = 0;
    while i < entries.len()
        invariant
            i <= entries@.len(),
            dv@ == dir@,
            entries@ == old(entries)@,
            forall|k: int| 0 <= k < i ==> #[trigger] entries@[k].0@ != dv@,
        decreases entries@.len() - i,
    {
        let key = chars_of(entries[i].0.as_str());
        if chars_eq(&key, &dv) {
            let ghost before = entries@;
            let k = string_of(&dv);
            entries.set(i, (k, value));
            proof {
                assert(entries@ == before.update(i as int, (k, value)));
                if distinct_dirs(before) {
                    assert forall|a: int, b: int| 0 <= a < b < entries@.len() implies (
                    #[trigger] entries@[a]).0@ != (#[trigger] entries@[b]).0@ by {
                        if a != i && b != i {
                            assert(entries@[a] == before[a] && entries@[b] == before[b]);
                        } else if a == i {
                            assert(entries@[b] == before[b]);
                            assert(before[i as int].0@ == dv@);
                        } else {
                            assert(entries@[a] == before[a]);
                            assert(before[i as int].0@ == dv@);
                        }
                    }
                }
                assert forall|d: Seq<char>| #[trigger] sequence_for_dir(entries@, d) == if d == dir@ {
                    Some(value)
                } else {
                    sequence_for_dir(before, d)
                } by {
                    lemma_sequence_update(before, i as int, k, value, d);
                }
            }
            return;
        }
        i = i + 1;
    }
    proof {
        assert(sequence_for_dir(entries@, dv@) is None) by {
            lemma_sequence_absent(entries@, dv@);
        }
    }
    let ghost before = entries@;
    let key = crate::textutil::string_of(&dv);
    entries.push((key, value));
    proof {
        if distinct_dirs(before) {
            assert forall|a: int, b: int| 0 <= a < b < entries@.len() implies (
            #[trigger] entries@[a]).0@ != (#[trigger] entries@[b]).0@ by {
                assert(entries@[a] == before[a]);
                if b < before.len() {
                    assert(entries@[b] == before[b]);
                }
            }
        }
        assert forall|d: Seq<char>| #[trigger] sequence_for_dir(entries@, d) == if d == dir@ {
            Some(value)
        } else {
            sequence_for_dir(before, d)
        } by {
            lemma_sequence_push(before, key, value, d);
        }
    }
}

proof fn lemma_sequence_absent(entries: Seq<(String, u64)>, dir: Seq<char>)
    requires
        forall|k: int| 0 <= k < entries.len() ==> #[trigger] entries[k].0@ != dir,
    ensures
        sequence_for_dir(entries, dir) is None,
    decreases entries.len(),
{
    if entries.len() > 0 {
        assert(entries[0].0@ != dir);
        assert forall|k: int| 0 <= k < entries.drop_first().len() implies #[trigger] entries.drop_first()[k].0@ != dir by {
            assert(entries[k + 1].0@ != dir);
        }
        lemma_sequence_absent(entries.drop_first(), dir);
    }
}

/// The text views of a list of strings.
pub open spec fn texts(v: Seq<String>) -> Seq<Seq<char>> {
    v.map_values(|s: String| s@)
}

/// The sequence after the largest one that a file name in `names` carries,
/// or zero.
pub open spec fn next_after_names(names: Seq<Seq<char>>) -> nat
    decreases names.len(),
{
    if names.len() == 0 {
        0
    } else {
        let rest = next_after_names(names.drop_last());
        let here: nat = match parsed_name_of(names.last()) {
            Some(p) => (p.2 + 1) as nat,
            None => 0,
        };
        if rest >= here {
            rest
        } else {
            here
        }
    }
}

/// Whether `name` is a screenshot name carrying the largest possible sequence.
pub open spec fn name_at_max(name: Seq<char>) -> bool {
    match parsed_name_of(name) {
        Some(p) => p.2 == u64::MAX,
        None => false,
    }
}

/// Whether some file name in `names` carries the largest possible sequence.
pub open spec fn some_sequence_at_max(names: Seq<Seq<char>>) -> bool {
    exists|k: int| 0 <= k < names.len() && #[trigger] name_at_max(names[k])
}

/// The sequence after the largest one among the screenshots of a
/// directory, given the names of its entries; zero when none is a
/// screenshot name; an error when one carries the largest `u64`.
pub fn next_sequence_after_existing_files(existing_names: &Vec<String>) -> (r: Result<u64, SequenceError>)
    ensures
        match r {
            Ok(v) => !some_sequence_at_max(texts(existing_names@)) && v as nat == next_after_names(texts(existing_names@)),
            Err(_) => some_sequence_at_max(texts(existing_names@)),
        },
{
    let ghost names = texts(existing_names@);
    let mut next: u64 = 0;
    let mut i: usize = 0;
    while i < existing_names.len()
        invariant
            i <= existing_names@.len(),
            names == texts(existing_names@),
            !some_sequence_at_max(names.subrange(0, i as int)),
            next as nat == next_after_names(names.subrange(0, i as int)),
        decreases existing_names@.len() - i,
    {
        let ghost prefix = names.subrange(0, i + 1);
        assert(prefix.drop_last() =~= names.subrange(0, i as int));
        assert(prefix.last() == existing_names@[i as int]@);
        match parse_screenshot_file_name(existing_names[i].as_str()) {
            Some(name) => {
                let s = name.sequence();
                if s == u64::MAX {
                    assert(name_at_max(names[i as int]));
                    return Err(SequenceError::Exhausted);
                }
                let candidate = s + 1;
                if candidate > next {
                    next = candidate;
                }
            },
            None => {},
        }
        proof {
            assert(!some_sequence_at_max(prefix)) by {
                if some_sequence_at_max(prefix) {
                    let k = choose|k: int| 0 <= k < prefix.len() && #[trigger] name_at_max(prefix[k]);
                    if k < i {
                        assert(prefix[k] == names.subrange(0, i as int)[k]);
                    }
                }
            }
        }
        i = i + 1;
    }
    assert(names.subrange(0, existing_names@.len() as int) =~= names);
    Ok(next)
}

/// The file name of one screen of a batch: multi-screen names carry the
/// screen number.
pub open spec fn batch_name(
    timestamp: Seq<char>,
    sequence: u64,
    use_multi_names: bool,
    format: ScreenshotFormat,
    screen_index: u32,
) -> Seq<char> {
    screenshot_name_text(
        timestamp,
        if use_multi_names {
            Some(screen_index)
        } else {
            None
        },
        sequence,
        format,
    )
}

/// Whether a batch with sequence `sequence` would reuse a name already in
/// the directory: one of its screenshots, or (for a multi-screen batch) its
/// geometry record.
pub open spec fn batch_taken(
    names: Seq<Seq<char>>,
    timestamp: Seq<char>,
    sequence: u64,
    use_multi_names: bool,
    format: ScreenshotFormat,
    screen_indices: Seq<u32>,
) -> bool {
    ||| exists|k: int|
        0 <= k < screen_indices.len() && names.contains(
            batch_name(timestamp, sequence, use_multi_names, format, #[trigger] screen_indices[k]),
        )
    ||| (use_multi_names && names.contains(metadata_name_text(timestamp, sequence)))
}

/// Whether `name` is among `names`.
fn names_contain(names: &Vec<Vec<char>>, name: &Vec<char>) -> (r: bool)
    ensures
        r == chars_views(names@).contains(name@),
{
    let mut i: usize = 0;
    while i < names.len()
        invariant
            i <= names@.len(),
            forall|k: int| 0 <= k < i ==> #[trigger] names@[k]@ != name@,
        decreases names@.len() - i,
    {
        if chars_eq(&names[i], name) {
            assert(chars_views(names@)[i as int] == name@);
            return true;
        }
        i = i + 1;
    }
    proof {
        if chars_views(names@).contains(name@) {
            let k = choose|k: int| 0 <= k < chars_views(names@).len() && chars_views(names@)[k] == name@;
            assert(names@[k]@ == name@);
        }
    }
    false
}

/// The views of a list of character vectors.
pub open spec fn chars_views(v: Seq<Vec<char>>) -> Seq<Seq<char>> {
    v.map_values(|c: Vec<char>| c@)
}

/// The characters of each string.
fn all_chars(v: &Vec<String>) -> (r: Vec<Vec<char>>)
    ensures
        chars_views(r@) == texts(v@),
{
    let mut r: Vec<Vec<char>> = Vec::new();
    let mut i: usize = 0;
    while i < v.len()
        invariant
            i <= v@.len(),
            r@.len() == i,
            forall|k: int| 0 <= k < i ==> #[trigger] r@[k]@ == v@[k]@,
        decreases v@.len() - i,
    {
        r.push(chars_of(v[i].as_str()));
        i = i + 1;
    }
    assert(chars_views(r@) =~= texts(v@));
    r
}

/// Decides `batch_taken` for the names of a directory.
pub fn capture_batch_paths_exist(
    existing: &Vec<Vec<char>>,
    timestamp: &str,
    sequence: u64,
    use_multi_names: bool,
    format: ScreenshotFormat,
    screen_indices: &Vec<u32>,
) -> (r: bool)
    ensures
        r == batch_taken(chars_views(existing@), timestamp@, sequence, use_multi_names, format, screen_indices@),
{
    let mut i: usize = 0;
    while i < screen_indices.len()
        invariant
            i <= screen_indices@.len(),
            forall|k: int| 0 <= k < i ==> !chars_views(existing@).contains(
                batch_name(timestamp@, sequence, use_multi_names, format, #[trigger] screen_indices@[k]),
            ),
        decreases screen_indices@.len() - i,
    {
        let index = if use_multi_names {
            Some(screen_indices[i])
        } else {
            None
        };
        let name = screenshot_file_name(timestamp, index, sequence, format);
        let nv = chars_of(name.as_str());
        assert(nv@ == batch_name(timestamp@, sequence, use_multi_names, format, screen_indices@[i as int]));
        if names_contain(existing, &nv) {
            return true;
        }
        i = i + 1;
    }
    if use_multi_names {
        let m = multi_screen_metadata_file_name(timestamp, sequence);
        let mv = chars_of(m.as_str());
        names_contain(existing, &mv)
    } else {
        false
    }
}

/// Where the search for a free sequence starts: the remembered sequence
/// for the directory, else the one after the directory's screenshots
/// (none when that overflows).
pub open spec fn sequence_start(
    entries: Seq<(String, u64)>,
    dir: Seq<char>,
    names: Seq<Seq<char>>,
) -> Option<nat> {
    match sequence_for_dir(entries, dir) {
        Some(s) => Some(s as nat),
        None => if some_sequence_at_max(names) {
            None
        } else {
            Some(next_after_names(names))
        },
    }
}

/// Whether reserving sequence `s` in `dir` was right: `s` is the first
/// sequence from the start (see `sequence_start`, over the `entries`
/// remembered `before`) for which no name of the batch is taken, it is not
/// the largest `u64`, and the entries `after` remember `s + 1` for `dir`
/// and nothing else new.
pub open spec fn reservation_made(
    before: Seq<(String, u64)>,
    after: Seq<(String, u64)>,
    dir: Seq<char>,
    names: Seq<Seq<char>>,
    timestamp: Seq<char>,
    use_multi_names: bool,
    format: ScreenshotFormat,
    screen_indices: Seq<u32>,
    s: u64,
) -> bool {
    match sequence_start(before, dir, names) {
        None => false,
        Some(start) => {
            &&& start <= s
            &&& s < u64::MAX
            &&& !batch_taken(names, timestamp, s, use_multi_names, format, screen_indices)
            &&& forall|t: u64|
                start <= t < s ==> #[trigger] batch_taken(
                    names,
                    timestamp,
                    t,
                    use_multi_names,
                    format,
                    screen_indices,
                )
            &&& forall|d: Seq<char>|
                #[trigger] sequence_for_dir(after, d) == if d == dir {
                    Some((s + 1) as u64)
                } else {
                    sequence_for_dir(before, d)
                }
        },
    }
}

/// Whether no sequence can be reserved in `dir`: the start overflows, or
/// every sequence from it up to the largest `u64` is taken.
pub open spec fn reservation_exhausted(
    before: Seq<(String, u64)>,
    dir: Seq<char>,
    names: Seq<Seq<char>>,
    timestamp: Seq<char>,
    use_multi_names: bool,
    format: ScreenshotFormat,
    screen_indices: Seq<u32>,
) -> bool {
    match sequence_start(before, dir, names) {
        Some(start) => forall|t: u64|
            start <= t < u64::MAX ==> #[trigger] batch_taken(
                names,
                timestamp,
                t,
                use_multi_names,
                format,
                screen_indices,
            ),
        None => true,
    }
}

/// Reserves the sequence of a new batch in `output_dir`, whose entries are
/// named `existing_names`: the first sequence from the start (see
/// `sequence_start`) for which none of the batch's names is taken. The next
/// sequence is remembered for the directory. It fails, changing nothing,
/// when the start overflows or every sequence from the start up to the
/// largest `u64` is taken (the largest itself cannot be used, since the one
/// after it could not be remembered).
pub fn reserve_capture_sequence(
    state: &mut CaptureState,
    output_dir: &str,
    timestamp: &str,
    use_multi_names: bool,
    format: ScreenshotFormat,
    screen_indices: &Vec<u32>,
    existing_names: &Vec<String>,
) -> (r: Result<u64, SequenceError>)
    ensures
        final(state).last_capture == old(state).last_capture,
        distinct_dirs(old(state).next_sequence_by_dir@) ==> distinct_dirs(final(state).next_sequence_by_dir@),
        match r {
            Ok(s) => reservation_made(
                old(state).next_sequence_by_dir@,
                final(state).next_sequence_by_dir@,
                output_dir@,
                texts(existing_names@),
                timestamp@,
                use_multi_names,
                format,
                screen_indices@,
                s,
            ),
            Err(_) => {
                &&& final(state).next_sequence_by_dir@ == old(state).next_sequence_by_dir@
                &&& reservation_exhausted(
                    old(state).next_sequence_by_dir@,
                    output_dir@,
                    texts(existing_names@),
                    timestamp@,
                    use_multi_names,
                    format,
                    screen_indices@,
                )
            },
        },
{
    let ghost names = texts(existing_names@);
    let dir = chars_of(output_dir);
    let start = match lookup_next_sequence(&state.next_sequence_by_dir, &dir) {
        Some(s) => s,
        None => match next_sequence_after_existing_files(existing_names) {
            Ok(s) => s,
            Err(e) => {
                return Err(e);
            },
        },
    };
    let existing = all_chars(existing_names);
    let mut sequence = start;
    loop
        invariant
            start <= sequence,
            chars_views(existing@) == names,
            names == texts(existing_names@),
            sequence_start(old(state).next_sequence_by_dir@, output_dir@, names) == Some(start as nat),
            state.next_sequence_by_dir@ == old(state).next_sequence_by_dir@,
            state.last_capture == old(state).last_capture,
            forall|t: u64|
                start <= t < sequence ==> #[trigger] batch_taken(
                    names,
                    timestamp@,
                    t,
                    use_multi_names,
                    format,
                    screen_indices@,
                ),
        decreases u64::MAX - sequence,
    {
        if !capture_batch_paths_exist(&existing, timestamp, sequence, use_multi_names, format, screen_indices) {
            if sequence == u64::MAX {
                return Err(SequenceError::Exhausted);
            }
            set_next_sequence(&mut state.next_sequence_by_dir, output_dir, sequence + 1);
            return Ok(sequence);
        }
        if sequence == u64::MAX {
            return Err(SequenceError::Exhausted);
        }
        sequence = sequence + 1;
    }
}
/// Keeps the configured capture mode only while its screen is present
/// (see `mode_for_screens`); says whether it had to fall back.
pub fn reconcile_capture_mode_with_screens(
    capture_mode: CaptureMode,
    screen_infos: &Vec<ScreenPlacement>,
) -> (r: (CaptureMode, bool))
    ensures
        r.0 == mode_for_screens(capture_mode, screen_numbers(screen_infos@)),
        r.1 == (r.0 != capture_mode),
{
    let effective = validate_capture_mode_for_screens(capture_mode, screen_infos);
    let changed = match (effective, capture_mode) {
        (CaptureMode::Auto, CaptureMode::Auto) => false,
        (CaptureMode::Screen(a), CaptureMode::Screen(b)) => a != b,
        _ => true,
    };
    (effective, changed)
}

/// Why a batch could not be captured.
#[derive(Clone, Copy, Debug, PartialEq, Eq, Structural)]
pub enum CaptureFailure {
    /// The screen at this position among the targets failed, in a batch
    /// with single-screen names, which cannot go on without it.
    ScreenFailed(usize),
    /// No target screen could be captured.
    AllFailed,
}

/// The first position whose capture failed.
pub open spec fn first_failure(succeeded: Seq<bool>) -> Option<int>
    decreases succeeded.len(),
{
    if succeeded.len() == 0 {
        None
    } else {
        match first_failure(succeeded.drop_last()) {
            Some(k) => Some(k),
            None => if !succeeded.last() {
                Some(succeeded.len() - 1)
            } else {
                None
            },
        }
    }
}

/// How many captures failed.
pub open spec fn failure_count(succeeded: Seq<bool>) -> nat
    decreases succeeded.len(),
{
    if succeeded.len() == 0 {
        0
    } else {
        failure_count(succeeded.drop_last()) + if succeeded.last() {
            0nat
        } else {
            1nat
        }
    }
}

/// Decides whether a batch goes on after capturing its targets in order
/// (`succeeded[k]` tells whether target `k` was captured). With
/// single-screen names the first failure stops it; with multi-screen names
/// failed screens are skipped and counted. With nothing captured it fails.
/// Otherwise it goes on with the number of failed screens.
pub fn capture_batch_status(use_multi_names: bool, succeeded: &Vec<bool>) -> (r: Result<
    usize,
    CaptureFailure,
>)
    ensures
        match r {
            Ok(failed) => {
                &&& (use_multi_names || first_failure(succeeded@) is None)
                &&& failed == failure_count(succeeded@)
                &&& failure_count(succeeded@) < succeeded@.len()
            },
            Err(CaptureFailure::ScreenFailed(k)) => !use_multi_names && first_failure(succeeded@)
                == Some(k as int),
            Err(CaptureFailure::AllFailed) => (use_multi_names || first_failure(succeeded@) is None)
                && failure_count(succeeded@) == succeeded@.len(),
        },
{
    let mut failed: usize = 0;
    let mut i: usize = 0;
    while i < succeeded.len()
        invariant
            i <= succeeded@.len(),
            failed == failure_count(succeeded@.subrange(0, i as int)),
            failed <= i,
            use_multi_names || first_failure(succeeded@.subrange(0, i as int)) is None,
        decreases succeeded@.len() - i,
    {
        let ghost next = succeeded@.subrange(0, i + 1);
        assert(next.drop_last() =~= succeeded@.subrange(0, i as int));
        if !succeeded[i] {
            if !use_multi_names {
                proof {
                    lemma_first_failure_prefix(succeeded@, i + 1);
                }
                return Err(CaptureFailure::ScreenFailed(i));
            }
            failed = failed + 1;
        }
        i = i + 1;
    }
    assert(succeeded@.subrange(0, succeeded@.len() as int) =~= succeeded@);
    if failed == succeeded.len() {
        return Err(CaptureFailure::AllFailed);
    }
    Ok(failed)
}

/// A first failure within a prefix is the first failure of the whole.
proof fn lemma_first_failure_prefix(s: Seq<bool>, n: int)
    requires
        0 <= n <= s.len(),
        first_failure(s.subrange(0, n)) is Some,
    ensures
        first_failure(s) == first_failure(s.subrange(0, n)),
    decreases s.len(),
{
    if n < s.len() {
        assert(s.drop_last().subrange(0, n) =~= s.subrange(0, n));
        lemma_first_failure_prefix(s.drop_last(), n);
    } else {
        assert(s.subrange(0, n) =~= s);
    }
}

/// One screenshot of a batch to write: the screen, the file name, the path
/// in the batch's directory and the geometry recorded for it.
#[derive(Debug)]
pub struct BatchFile {
    pub screen_index: u32,
    pub file_name: String,
    pub path: String,
    pub geometry: SavedGeometry,
}

/// The geometry recorded for a captured screen: the layout's, else its own
/// image at the origin.
pub open spec fn recorded_geometry(capture: CapturedScreen, geometries: Map<u32, SavedGeometry>) -> SavedGeometry {
    if geometries.contains_key(capture.screen_index) {
        geometries[capture.screen_index]
    } else {
        captured_geometry_of(capture)
    }
}

/// The files of a batch, screen by screen in capture order (see
/// `batch_name` and `recorded_geometry`), and the path of its geometry
/// record when it uses multi-screen names.
pub fn plan_capture_batch(
    output_dir: &str,
    timestamp: &str,
    sequence: u64,
    format: ScreenshotFormat,
    use_multi_names: bool,
    captured: &Vec<CapturedScreen>,
    geometries: &BTreeMap<u32, SavedGeometry>,
) -> (r: (Vec<BatchFile>, Option<String>))
    ensures
        r.0@.len() == captured@.len(),
        forall|k: int|
            0 <= k < r.0@.len() ==> {
                let f = #[trigger] r.0@[k];
                let c = captured@[k];
                &&& f.screen_index == c.screen_index
                &&& f.file_name@ == batch_name(timestamp@, sequence, use_multi_names, format, c.screen_index)
                &&& f.path@ == join_path(output_dir@, f.file_name@)
                &&& f.geometry == recorded_geometry(c, geometries@)
            },
        match r.1 {
            Some(m) => use_multi_names && m@ == join_path(output_dir@, metadata_name_text(timestamp@, sequence)),
            None => !use_multi_names,
        },
{
    let dir = chars_of(output_dir);
    let mut files: Vec<BatchFile> = Vec::new();
    let mut i: usize = 0;
    while i < captured.len()
        invariant
            i <= captured@.len(),
            dir@ == output_dir@,
            files@.len() == i,
            forall|k: int|
                0 <= k < i ==> {
                    let f = #[trigger] files@[k];
                    let c = captured@[k];
                    &&& f.screen_index == c.screen_index
                    &&& f.file_name@ == batch_name(timestamp@, sequence, use_multi_names, format, c.screen_index)
                    &&& f.path@ == join_path(output_dir@, f.file_name@)
                    &&& f.geometry == recorded_geometry(c, geometries@)
                },
        decreases captured@.len() - i,
    {
        let capture = captured[i];
        let index = if use_multi_names {
            Some(capture.screen_index)
        } else {
            None
        };
        let file_name = screenshot_file_name(timestamp, index, sequence, format);
        let path = string_of(&join_chars(&dir, &chars_of(file_name.as_str())));
        let geometry = match geometries.get(&capture.screen_index) {
            Some(g) => *g,
            None => captured_geometry(&capture),
        };
        files.push(BatchFile { screen_index: capture.screen_index, file_name, path, geometry });
        i = i + 1;
    }
    let metadata = if use_multi_names {
        let m = multi_screen_metadata_file_name(timestamp, sequence);
        Some(string_of(&join_chars(&dir, &chars_of(m.as_str()))))
    } else {
        None
    };
    (files, metadata)
}

/// The report of a batch that was written.
pub fn saved_batch_report(
    saved_paths: Vec<String>,
    metadata_path: Option<String>,
    target_screen_count: usize,
    failed_screen_count: usize,
) -> (r: CaptureReport)
    ensures
        r.saved_paths@ == saved_paths@,
        r.previous_paths@.len() == 0,
        r.metadata_path == metadata_path,
        r.target_screen_count == target_screen_count,
        r.failed_screen_count == failed_screen_count,
        !r.skipped_duplicate,
{
    CaptureReport {
        saved_paths,
        previous_paths: Vec::new(),
        metadata_path,
        target_screen_count,
        failed_screen_count,
        skipped_duplicate: false,
    }
}


/// Reservations in one directory only move forward: once sequence `first`
/// was reserved there (and the one after it remembered), the next
/// reservation there, whatever the directory then holds, returns a later
/// sequence.
pub proof fn lemma_reservations_move_forward(
    after_first: Seq<(String, u64)>,
    dir: Seq<char>,
    first: u64,
    names: Seq<Seq<char>>,
    second: u64,
)
    requires
        first < u64::MAX,
        sequence_for_dir(after_first, dir) == Some((first + 1) as u64),
        sequence_start(after_first, dir, names) matches Some(start) && start <= second,
    ensures
        first < second,
{
}


/// The message that reports a capture: the skip when it was a duplicate;
/// otherwise the one saved file, or the count and directory of several
/// (`.` when the report names none); followed by the note on failed
/// screens when some failed.
pub open spec fn report_message_text(language: Language, report: CaptureReport) -> Seq<char> {
    if report.skipped_duplicate {
        skipped_duplicate_text(language)
    } else {
        let main = if report.saved_paths@.len() == 1 {
            saved_capture_prefix_text(language) + " "@ + report.saved_paths@[0]@
        } else {
            saved_screenshots_text(
                language,
                report.saved_paths@.len() as nat,
                match report_dir_of(report) {
                    Some(d) => d,
                    None => "."@,
                },
            )
        };
        if report.failed_screen_count > 0 {
            main + "; "@ + partial_failure_text(
                language,
                report.failed_screen_count as nat,
                report.target_screen_count as nat,
            )
        } else {
            main
        }
    }
}

/// The message that reports a capture (see `report_message_text`).
pub fn capture_report_message(text: &Text, report: &CaptureReport) -> (r: String)
    ensures
        r@ == report_message_text(text.language, *report),
{
    if report.skipped_duplicate {
        return string_of(&chars_of(text.skipped_duplicate_capture()));
    }
    let mut message: Vec<char> = if report.saved_count() == 1 {
        chars_of(text.saved_capture(report.saved_paths[0].as_str()).as_str())
    } else {
        let dir = match report.output_dir() {
            Some(d) => d,
            None => string_of(&chars_of(".")),
        };
        chars_of(text.saved_screenshots(report.saved_count(), dir.as_str()).as_str())
    };
    if report.failed_screen_count > 0 {
        push_str(&mut message, "; ");
        let note = text.partial_capture_failed(report.failed_screen_count, report.target_screen_count);
        push_str(&mut message, note.as_str());
    }
    string_of(&message)
}

} // verus!
