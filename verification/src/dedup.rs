//! Skipping unchanged captures: a batch is a duplicate of the last one when
//! it goes to the same directory with the same screens, geometry and pixel
//! hashes, and the last batch's files are all still on disk.

use vstd::prelude::*;
use crate::capture::{CaptureReport, CaptureState, CapturedScreen, is_permutation};
use crate::geometry::{SavedGeometry, captured_geometry, captured_geometry_of};
use crate::textutil::chars_eq_str;
use image::DynamicImage;
use std::collections::BTreeMap;

verus! {

broadcast use {vstd::std_specs::btree::group_btree_axioms, vstd::laws_cmp::group_laws_cmp};

/// One screen of a batch: its number, saved geometry and pixel hash.
#[derive(Clone, Copy, Debug, PartialEq, Eq, Structural)]
pub struct ScreenFingerprint {
    pub screen_index: u32,
    pub x: i32,
    pub y: i32,
    pub width: u32,
    pub height: u32,
    pub hash: u64,
}

/// The last saved batch, as far as duplicate detection needs it.
#[derive(Clone, Debug)]
pub struct CaptureBatchFingerprint {
    pub output_dir: String,
    pub screens: Vec<ScreenFingerprint>,
    pub paths: Vec<String>,
    pub metadata_path: Option<String>,
}

/// Whether the files of the last batch are all still there: it saved at
/// least one screenshot, each screenshot exists, and so does its geometry
/// record if it has one. `path_exists[k]` says whether `paths[k]` exists.
pub open spec fn files_still_exist(
    previous: CaptureBatchFingerprint,
    path_exists: Seq<bool>,
    metadata_exists: bool,
) -> bool {
    &&& previous.paths@.len() > 0
    &&& forall|k: int| 0 <= k < previous.paths@.len() ==> #[trigger] path_exists[k]
    &&& (previous.metadata_path is Some ==> metadata_exists)
}

/// Decides `files_still_exist` from what the caller found on disk.
pub fn previous_capture_files_exist(
    previous: &CaptureBatchFingerprint,
    path_exists: &Vec<bool>,
    metadata_exists: bool,
) -> (r: bool)
    requires
        path_exists@.len() == previous.paths@.len(),
    ensures
        r == files_still_exist(*previous, path_exists@, metadata_exists),
{
    if previous.paths.len() == 0 {
        return false;
    }
    let mut i: usize = 0;
    while i < path_exists.len()
        invariant
            i <= path_exists@.len(),
            path_exists@.len() == previous.paths@.len(),
            forall|k: int| 0 <= k < i ==> #[trigger] path_exists@[k],
        decreases path_exists@.len() - i,
    {
        if !path_exists[i] {
            assert(!path_exists@[i as int]);
            return false;
        }
        i = i + 1;
    }
    match &previous.metadata_path {
        Some(_) => metadata_exists,
        None => true,
    }
}

/// Whether two lists of screen fingerprints are equal.
fn same_screens(a: &Vec<ScreenFingerprint>, b: &Vec<ScreenFingerprint>) -> (r: bool)
    ensures
        r == (a@ == b@),
{
    if a.len() != b.len() {
        return false;
    }
    let mut i: usize = 0;
    while i < a.len()
        invariant
            a@.len() == b@.len(),
            i <= a@.len(),
            forall|k: int| 0 <= k < i ==> a@[k] == b@[k],
        decreases a@.len() - i,
    {
        if a[i] != b[i] {
            return false;
        }
        i = i + 1;
    }
    assert(a@ =~= b@);
    true
}

/// A copy of a list of strings.
pub fn copy_strings(v: &Vec<String>) -> (r: Vec<String>)
    ensures
        r@ == v@,
{
    let mut r: Vec<String> = Vec::new();
    let mut i: usize = 0;
    while i < v.len()
        invariant
            i <= v@.len(),
            r@ == v@.subrange(0, i as int),
        decreases v@.len() - i,
    {
        r.push(v[i].clone());
        i = i + 1;
        assert(r@ =~= v@.subrange(0, i as int));
    }
    assert(v@.subrange(0, v@.len() as int) =~= v@);
    r
}

/// Whether a batch in `dir` with `screens` repeats the last saved batch
/// `previous`: same directory, same screens, and the earlier files still
/// there (see `files_still_exist`).
pub open spec fn duplicate_due(
    previous: CaptureBatchFingerprint,
    dir: Seq<char>,
    screens: Seq<ScreenFingerprint>,
    path_exists: Seq<bool>,
    metadata_exists: bool,
) -> bool {
    &&& previous.output_dir@ == dir
    &&& previous.screens@ == screens
    &&& files_still_exist(previous, path_exists, metadata_exists)
}

/// Only a batch in the last batch's own directory, with its very screens,
/// can repeat it: a batch written anywhere else, or showing anything else,
/// is never a duplicate; nor is one whose predecessor saved nothing or lost
/// a screenshot or its geometry record. With all of that in place, it is.
pub proof fn lemma_duplicate_needs_same_place(
    previous: CaptureBatchFingerprint,
    dir: Seq<char>,
    screens: Seq<ScreenFingerprint>,
    path_exists: Seq<bool>,
    metadata_exists: bool,
)
    ensures
        previous.output_dir@ != dir ==> !duplicate_due(previous, dir, screens, path_exists, metadata_exists),
        previous.screens@ != screens ==> !duplicate_due(previous, dir, screens, path_exists, metadata_exists),
        previous.paths@.len() == 0 ==> !duplicate_due(previous, dir, screens, path_exists, metadata_exists),
        (exists|k: int| 0 <= k < previous.paths@.len() && !#[trigger] path_exists[k]) ==> !duplicate_due(
            previous,
            dir,
            screens,
            path_exists,
            metadata_exists,
        ),
        previous.metadata_path is Some && !metadata_exists ==> !duplicate_due(
            previous,
            dir,
            screens,
            path_exists,
            metadata_exists,
        ),
        previous.output_dir@ == dir && previous.screens@ == screens && previous.paths@.len() > 0 && (forall|
            k: int,
        | 0 <= k < previous.paths@.len() ==> #[trigger] path_exists[k]) && (previous.metadata_path is Some
            ==> metadata_exists) ==> duplicate_due(previous, dir, screens, path_exists, metadata_exists),
{
}

/// Decides whether a batch repeats the last one. With no last batch, or a
/// last batch in another directory or with other screens, it is new. When
/// they match but the last batch's files are gone (see `files_still_exist`;
/// `path_exists[k]` tells whether its `k`-th screenshot is on disk and
/// `metadata_exists` whether its geometry record is), the last batch is
/// forgotten and the new one is saved. When they match and the files are
/// there, the report of a skipped duplicate is returned.
pub fn duplicate_capture_report(
    state: &mut CaptureState,
    output_dir: &str,
    screens: &Vec<ScreenFingerprint>,
    target_screen_count: usize,
    failed_screen_count: usize,
    path_exists: &Vec<bool>,
    metadata_exists: bool,
) -> (r: Option<CaptureReport>)
    requires
        old(state).last_capture matches Some(p) ==> path_exists@.len() == p.paths@.len(),
    ensures
        final(state).next_sequence_by_dir@ == old(state).next_sequence_by_dir@,
        r is Some ==> (old(state).last_capture matches Some(p) && p.output_dir@ == output_dir@
            && p.screens@ == screens@),
        (old(state).last_capture matches Some(p) && p.output_dir@ != output_dir@) ==> r is None
            && final(state).last_capture == old(state).last_capture,
        match old(state).last_capture {
            Some(previous) => if duplicate_due(
                previous,
                output_dir@,
                screens@,
                path_exists@,
                metadata_exists,
            ) {
                &&& final(state).last_capture == old(state).last_capture
                &&& r matches Some(report) && report.saved_paths@.len() == 0
                    && report.previous_paths@ == previous.paths@ && report.metadata_path
                    == previous.metadata_path && report.target_screen_count
                    == target_screen_count && report.failed_screen_count
                    == failed_screen_count && report.skipped_duplicate
            } else if previous.output_dir@ == output_dir@ && previous.screens@ == screens@ {
                &&& final(state).last_capture is None
                &&& r is None
            } else {
                &&& final(state).last_capture == old(state).last_capture
                &&& r is None
            },
            None => {
                &&& final(state).last_capture is None
                &&& r is None
            },
        },
{
    let matches = match &state.last_capture {
        Some(previous) => chars_eq_str(&crate::textutil::chars_of(previous.output_dir.as_str()), output_dir)
            && same_screens(&previous.screens, screens),
        None => false,
    };
    if !matches {
        return None;
    }
    let still_there = match &state.last_capture {
        Some(previous) => previous_capture_files_exist(previous, path_exists, metadata_exists),
        None => false,
    };
    if !still_there {
        state.last_capture = None;
        return None;
    }
    match &state.last_capture {
        Some(previous) => {
            let previous_paths = copy_strings(&previous.paths);
            let metadata_path = previous.metadata_path.clone();
            Some(
                CaptureReport {
                    saved_paths: Vec::new(),
                    previous_paths,
                    metadata_path,
                    target_screen_count,
                    failed_screen_count,
                    skipped_duplicate: true,
                },
            )
        },
        None => None,
    }
}

/// Remembers `fingerprint` as the last saved batch.
pub fn store_capture_fingerprint(state: &mut CaptureState, fingerprint: CaptureBatchFingerprint)
    ensures
        final(state).last_capture == Some(fingerprint),
        final(state).next_sequence_by_dir@ == old(state).next_sequence_by_dir@,
{
    state.last_capture = Some(fingerprint);
}

/// Forgets the last saved batch.
pub fn clear_capture_fingerprint(state: &mut CaptureState)
    ensures
        final(state).last_capture is None,
        final(state).next_sequence_by_dir@ == old(state).next_sequence_by_dir@,
{
    state.last_capture = None;
}

/// The fingerprint of one captured screen: its saved geometry (from
/// `geometries`, else its whole image at the origin) and its pixel hash.
pub open spec fn fingerprint_of(
    capture: CapturedScreen,
    hash: u64,
    geometries: Map<u32, SavedGeometry>,
) -> ScreenFingerprint {
    let g = if geometries.contains_key(capture.screen_index) {
        geometries[capture.screen_index]
    } else {
        captured_geometry_of(capture)
    };
    ScreenFingerprint {
        screen_index: capture.screen_index,
        x: g.x,
        y: g.y,
        width: g.width,
        height: g.height,
        hash,
    }
}

/// The fingerprints of the captured screens, in capture order.
pub open spec fn fingerprints_of(
    captured: Seq<CapturedScreen>,
    hashes: Seq<u64>,
    geometries: Map<u32, SavedGeometry>,
) -> Seq<ScreenFingerprint> {
    Seq::new(captured.len(), |k: int| fingerprint_of(captured[k], hashes[k], geometries))
}

/// Whether `out` is `input` ordered by screen number through `perm`,
/// stable among equal numbers.
pub open spec fn sorted_by_screen(
    input: Seq<ScreenFingerprint>,
    out: Seq<ScreenFingerprint>,
    perm: Seq<int>,
) -> bool {
    &&& is_permutation(perm, input.len())
    &&& out.len() == input.len()
    &&& forall|k: int| 0 <= k < out.len() ==> #[trigger] out[k] == input[perm[k]]
    &&& forall|a: int, b: int|
        0 <= a < b < out.len() ==> (#[trigger] out[a]).screen_index <= (#[trigger] out[b]).screen_index
    &&& forall|a: int, b: int|
        0 <= a < b < out.len() && (#[trigger] out[a]).screen_index == (
        #[trigger] out[b]).screen_index ==> perm[a] < perm[b]
}

/// A permutation of `0..n` takes every value of `0..n`.
proof fn lemma_permutation_onto(perm: Seq<int>, n: nat, i: int)
    requires
        is_permutation(perm, n),
        0 <= i < n,
    ensures
        exists|k: int| 0 <= k < n && perm[k] == i,
{
    assert(perm.no_duplicates()) by {
        assert forall|a: int, b: int|
            0 <= a < perm.len() && 0 <= b < perm.len() && a != b implies perm[a] != perm[b] by {
            if a > b {
                assert(perm[b] != perm[a]);
            }
        }
    }
    perm.unique_seq_to_set();
    vstd::seq_lib::seq_to_set_is_finite(perm);
    vstd::set_lib::lemma_int_range(0, n as int);
    let range = vstd::set_lib::set_int_range(0, n as int);
    assert(perm.to_set().subset_of(range)) by {
        assert forall|x: int| perm.to_set().contains(x) implies range.contains(x) by {
            let k = choose|k: int| 0 <= k < perm.len() && perm[k] == x;
            assert(0 <= perm[k] < n);
        }
    }
    vstd::set_lib::lemma_subset_equality(perm.to_set(), range);
    assert(range.contains(i));
    assert(perm.to_set().contains(i));
}

/// Whether input position `i` comes before input position `j` in the
/// stable order by screen number.
pub open spec fn screen_order_lt(input: Seq<ScreenFingerprint>, i: int, j: int) -> bool {
    input[i].screen_index < input[j].screen_index || (input[i].screen_index
        == input[j].screen_index && i < j)
}

/// Two stable orderings by screen number agree up to position `k`.
proof fn lemma_sorted_prefix_agrees(
    input: Seq<ScreenFingerprint>,
    out1: Seq<ScreenFingerprint>,
    p1: Seq<int>,
    out2: Seq<ScreenFingerprint>,
    p2: Seq<int>,
    k: int,
)
    requires
        sorted_by_screen(input, out1, p1),
        sorted_by_screen(input, out2, p2),
        0 <= k <= input.len(),
    ensures
        forall|j: int| 0 <= j < k ==> p1[j] == p2[j],
    decreases k,
{
    if k > 0 {
        lemma_sorted_prefix_agrees(input, out1, p1, out2, p2, k - 1);
        let n = input.len();
        let m = k - 1;
        let x = p1[m];
        let y = p2[m];
        assert forall|a: int, b: int| 0 <= a < b < n implies screen_order_lt(input, p1[a], p1[b])
            && screen_order_lt(input, p2[a], p2[b]) by {
            assert(out1[a] == input[p1[a]] && out1[b] == input[p1[b]]);
            assert(out2[a] == input[p2[a]] && out2[b] == input[p2[b]]);
            assert(p1[a] != p1[b]);
            assert(p2[a] != p2[b]);
        }
        if x != y {
            if screen_order_lt(input, x, y) {
                lemma_permutation_onto(p2, n, x);
                let q = choose|q: int| 0 <= q < n && p2[q] == x;
                if q < m {
                    assert(p1[q] == x);
                    assert(p1[q] != p1[m]);
                } else {
                    assert(q != m);
                    assert(screen_order_lt(input, p2[m], p2[q]));
                }
            } else {
                assert(screen_order_lt(input, y, x)) by {
                    assert(0 <= x < n && 0 <= y < n);
                }
                lemma_permutation_onto(p1, n, y);
                let q = choose|q: int| 0 <= q < n && p1[q] == y;
                if q < m {
                    assert(p2[q] == y);
                    assert(p2[q] != p2[m]);
                } else {
                    assert(q != m);
                    assert(screen_order_lt(input, p1[m], p1[q]));
                }
            }
        }
    }
}

/// There is one stable ordering of fingerprints by screen number.
pub proof fn lemma_sorted_by_screen_unique(
    input: Seq<ScreenFingerprint>,
    out1: Seq<ScreenFingerprint>,
    p1: Seq<int>,
    out2: Seq<ScreenFingerprint>,
    p2: Seq<int>,
)
    requires
        sorted_by_screen(input, out1, p1),
        sorted_by_screen(input, out2, p2),
    ensures
        out1 == out2,
{
    lemma_sorted_prefix_agrees(input, out1, p1, out2, p2, input.len() as int);
    assert forall|k: int| 0 <= k < out1.len() implies out1[k] == out2[k] by {
        assert(out1[k] == input[p1[k]]);
        assert(out2[k] == input[p2[k]]);
    }
    assert(out1 =~= out2);
}

/// The fingerprints ordered by screen number, stable among equal numbers.
fn sort_by_screen(input: Vec<ScreenFingerprint>) -> (r: Vec<ScreenFingerprint>)
    ensures
        exists|perm: Seq<int>| #[trigger] sorted_by_screen(input@, r@, perm),
{
    let n = input.len();
    let mut sorted: Vec<ScreenFingerprint> = Vec::new();
    let ghost mut perm: Seq<int> = Seq::empty();
    let mut i: usize = 0;
    while i < n
        invariant
            n == input@.len(),
            i <= n,
            sorted@.len() == i,
            perm.len() == i,
            forall|k: int| 0 <= k < i ==> 0 <= #[trigger] perm[k] < i,
            forall|a: int, b: int| 0 <= a < b < i ==> perm[a] != perm[b],
            forall|k: int| 0 <= k < i ==> #[trigger] sorted@[k] == input@[perm[k]],
            forall|a: int, b: int|
                0 <= a < b < i ==> (#[trigger] sorted@[a]).screen_index
                    <= (#[trigger] sorted@[b]).screen_index,
            forall|a: int, b: int|
                0 <= a < b < i && (#[trigger] sorted@[a]).screen_index == (
                #[trigger] sorted@[b]).screen_index ==> perm[a] < perm[b],
        decreases n - i,
    {
        let item = input[i];
        let mut p: usize = 0;
        while p < sorted.len() && sorted[p].screen_index <= item.screen_index
            invariant
                p <= sorted@.len(),
                forall|k: int| 0 <= k < p ==> (#[trigger] sorted@[k]).screen_index <= item.screen_index,
            decreases sorted@.len() - p,
        {
            p = p + 1;
        }
        proof {
            assert forall|k: int| p <= k < sorted@.len() implies item.screen_index < (
            #[trigger] sorted@[k]).screen_index by {
                assert(sorted@[p as int].screen_index > item.screen_index);
                if k > p {
                    assert(sorted@[p as int].screen_index <= sorted@[k].screen_index);
                }
            }
        }
        let ghost old_sorted = sorted@;
        let ghost old_perm = perm;
        sorted.insert(p, item);
        proof {
            perm = old_perm.insert(p as int, i as int);
            assert forall|k: int| 0 <= k < i + 1 implies #[trigger] sorted@[k] == input@[perm[k]] by {
                if k < p {
                    assert(sorted@[k] == old_sorted[k]);
                } else if k > p {
                    assert(sorted@[k] == old_sorted[k - 1]);
                }
            }
            assert forall|a: int, b: int| 0 <= a < b < i + 1 implies (
            #[trigger] sorted@[a]).screen_index <= (#[trigger] sorted@[b]).screen_index by {
                if a < p && b < p {
                    assert(old_sorted[a].screen_index <= old_sorted[b].screen_index);
                } else if a < p && b > p {
                    assert(old_sorted[a].screen_index <= old_sorted[b - 1].screen_index);
                } else if a > p {
                    assert(old_sorted[a - 1].screen_index <= old_sorted[b - 1].screen_index);
                } else if a == p {
                    assert(item.screen_index < old_sorted[b - 1].screen_index);
                }
            }
            assert forall|a: int, b: int|
                0 <= a < b < i + 1 && (#[trigger] sorted@[a]).screen_index == (
                #[trigger] sorted@[b]).screen_index implies perm[a] < perm[b] by {
                if a < p && b < p {
                    assert(old_sorted[a].screen_index == old_sorted[b].screen_index);
                } else if a < p && b > p {
                    assert(old_sorted[a].screen_index == old_sorted[b - 1].screen_index);
                } else if a > p {
                    assert(old_sorted[a - 1].screen_index == old_sorted[b - 1].screen_index);
                } else if a == p {
                    assert(item.screen_index < old_sorted[b - 1].screen_index);
                }
            }
            assert forall|a: int, b: int| 0 <= a < b < i + 1 implies perm[a] != perm[b] by {
                if a < p && b > p {
                    assert(old_perm[a] != old_perm[b - 1]);
                } else if a > p {
                    assert(old_perm[a - 1] != old_perm[b - 1]);
                }
            }
        }
        i = i + 1;
    }
    assert(sorted_by_screen(input@, sorted@, perm));
    sorted
}

/// The fingerprints of a batch, ordered by screen number (stable among
/// equal numbers): each captured screen's saved geometry and pixel hash,
/// `hashes[k]` being that of `captured[k]`.
pub fn screen_fingerprints(
    captured: &Vec<CapturedScreen>,
    hashes: &Vec<u64>,
    geometries: &BTreeMap<u32, SavedGeometry>,
) -> (r: Vec<ScreenFingerprint>)
    requires
        hashes@.len() == captured@.len(),
    ensures
        exists|perm: Seq<int>|
            #[trigger] sorted_by_screen(fingerprints_of(captured@, hashes@, geometries@), r@, perm),
{
    let mut items: Vec<ScreenFingerprint> = Vec::new();
    let mut i: usize = 0;
    while i < captured.len()
        invariant
            i <= captured@.len(),
            hashes@.len() == captured@.len(),
            items@.len() == i,
            forall|k: int| 0 <= k < i ==> #[trigger] items@[k] == fingerprint_of(
                captured@[k],
                hashes@[k],
                geometries@,
            ),
        decreases captured@.len() - i,
    {
        let capture = captured[i];
        let g = match geometries.get(&capture.screen_index) {
            Some(g) => *g,
            None => captured_geometry(&capture),
        };
        items.push(
            ScreenFingerprint {
                screen_index: capture.screen_index,
                x: g.x,
                y: g.y,
                width: g.width,
                height: g.height,
                hash: hashes[i],
            },
        );
        i = i + 1;
    }
    assert(items@ =~= fingerprints_of(captured@, hashes@, geometries@));
    sort_by_screen(items)
}

/// What the xxh3 hash (64 bits, default seed) gives for `data`.
pub uninterp spec fn xxh3_64_of(data: Seq<u8>) -> u64;

/// Calls `xxhash_rust::xxh3::xxh3_64`, the 64-bit xxh3 hash with the default
/// seed; its value is a function of the bytes alone, named `xxh3_64_of`.
#[verifier::external_body]
fn xxh3_64(data: &Vec<u8>) -> (r: u64)
    ensures
        r == xxh3_64_of(data@),
{
    xxhash_rust::xxh3::xxh3_64(data.as_slice())
}

/// The four bytes of `v`, least significant first.
pub open spec fn le_bytes(v: u32) -> Seq<u8> {
    seq![
        (v % 256) as u8,
        ((v / 256) % 256) as u8,
        ((v / 65536) % 256) as u8,
        ((v / 16777216) % 256) as u8,
    ]
}

/// The hash of an RGBA buffer: xxh3 over the width and height (four bytes
/// each, least significant first) followed by the pixel bytes.
pub fn rgba_raw_hash(width: u32, height: u32, rgba: &Vec<u8>) -> (r: u64)
    ensures
        r == xxh3_64_of(le_bytes(width) + le_bytes(height) + rgba@),
{
    let mut data: Vec<u8> = Vec::new();
    data.push((width % 256) as u8);
    data.push(((width / 256) % 256) as u8);
    data.push(((width / 65536) % 256) as u8);
    data.push(((width / 16777216) % 256) as u8);
    data.push((height % 256) as u8);
    data.push(((height / 256) % 256) as u8);
    data.push(((height / 65536) % 256) as u8);
    data.push(((height / 16777216) % 256) as u8);
    let mut i: usize = 0;
    while i < rgba.len()
        invariant
            i <= rgba@.len(),
            data@ == le_bytes(width) + le_bytes(height) + rgba@.subrange(0, i as int),
        decreases rgba@.len() - i,
    {
        data.push(rgba[i]);
        i = i + 1;
        assert(data@ =~= le_bytes(width) + le_bytes(height) + rgba@.subrange(0, i as int));
    }
    assert(rgba@.subrange(0, rgba@.len() as int) =~= rgba@);
    xxh3_64(&data)
}

#[verifier::external_type_specification]
#[verifier::external_body]
pub struct ExDynamicImage(image::DynamicImage);

/// The width, height and RGBA bytes (row after row) of the RGBA copy of
/// an image that `image::DynamicImage::to_rgba8` makes; a function of the
/// image alone.
pub uninterp spec fn rgba_of(image: DynamicImage) -> (u32, u32, Seq<u8>);

/// Calls `image::DynamicImage::to_rgba8` and hands out the RGBA copy's
/// width, height and pixel bytes (`ImageBuffer::width`, `height`,
/// `into_raw`); they are named `rgba_of` of the image.
#[verifier::external_body]
fn rgba_parts(image: &DynamicImage) -> (r: (u32, u32, Vec<u8>))
    ensures
        (r.0, r.1, r.2@) == rgba_of(*image),
{
    let rgba = image.to_rgba8();
    (rgba.width(), rgba.height(), rgba.into_raw())
}

/// The hash of an image's RGBA pixels with its dimensions (see
/// `rgba_raw_hash` and `rgba_of`).
pub fn rgba_buffer_hash(image: &DynamicImage) -> (r: u64)
    ensures
        r == xxh3_64_of(le_bytes(rgba_of(*image).0) + le_bytes(rgba_of(*image).1) + rgba_of(
            *image,
        ).2),
{
    let (width, height, rgba) = rgba_parts(image);
    rgba_raw_hash(width, height, &rgba)
}


/// A batch that was just stored (see `store_capture_fingerprint`) and whose
/// files are all still there is recognised: it matches its own directory
/// and screens, and its files count as present, so
/// `duplicate_capture_report` reports the next identical batch as a
/// duplicate.
pub proof fn lemma_stored_batch_is_recognised(
    stored: CaptureBatchFingerprint,
    path_exists: Seq<bool>,
    metadata_exists: bool,
)
    requires
        stored.paths@.len() > 0,
        path_exists.len() == stored.paths@.len(),
        forall|k: int| 0 <= k < path_exists.len() ==> #[trigger] path_exists[k],
        stored.metadata_path is Some ==> metadata_exists,
    ensures
        duplicate_due(stored, stored.output_dir@, stored.screens@, path_exists, metadata_exists),
{
}

} // verus!
