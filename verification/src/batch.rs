//! The decisions of one capture request between capturing its screens and
//! writing its files: whether the batch goes on, the layout it records,
//! whether it repeats the last batch, the sequence it takes and the files
//! it writes. The capture hands in what it found as plain values
//! (`CapturedBatch`) and carries out the returned `BatchDecision`.

use vstd::prelude::*;
use crate::capture::{
    BatchFile, CaptureFailure, CaptureReport, CaptureState, CapturedScreen, ScreenPlacement,
    batch_name, capture_batch_status, distinct_dirs, failure_count, first_failure, plan_capture_batch,
    recorded_geometry, reservation_exhausted, reservation_made, reserve_capture_sequence, texts,
    uses_multi_screen_names,
};
use crate::config::{CaptureMode, ScreenshotFormat};
use crate::dedup::{
    CaptureBatchFingerprint, ScreenFingerprint, clear_capture_fingerprint, duplicate_capture_report,
    duplicate_due, files_still_exist, fingerprints_of, lemma_sorted_by_screen_unique,
    screen_fingerprints, sorted_by_screen,
};
use crate::geometry::{
    Axis, GeometryInput, SavedGeometry, checked_scaled_geometries, geometry_input_of,
    geometry_inputs_for_targets, geometry_map, inputs_fit, offsets_fit, single_geometry_map,
    single_screen_geometries,
};
use crate::naming::metadata_name_text;
use crate::pathutil::join_path;
use std::collections::BTreeMap;

verus! {

/// What one capture request found, as plain values.
pub struct CapturedBatch {
    /// The day's folder.
    pub output_dir: String,
    /// The time part of the batch's names.
    pub timestamp: String,
    pub capture_mode: CaptureMode,
    pub format: ScreenshotFormat,
    /// Whether batches that repeat the last one are skipped.
    pub dedup: bool,
    /// The target screens, in order.
    pub targets: Vec<ScreenPlacement>,
    /// Whether each target was captured, for the targets tried, in order.
    pub succeeded: Vec<bool>,
    /// The captured screens, in order.
    pub captured: Vec<CapturedScreen>,
    /// The expected saved size of each target, for one that was not
    /// captured.
    pub estimates: Vec<(u32, u32)>,
    /// The pixel hash of each captured screen.
    pub hashes: Vec<u64>,
    /// Whether each screenshot of the last batch is still on disk.
    pub previous_paths_exist: Vec<bool>,
    /// Whether the last batch's geometry record is still on disk.
    pub previous_metadata_exists: bool,
    /// The names of the entries of the day's folder.
    pub existing_names: Vec<String>,
}

/// A batch to write.
pub struct BatchPlan {
    pub sequence: u64,
    /// The screenshots, screen by screen in capture order.
    pub files: Vec<BatchFile>,
    /// The geometry record, for a batch with multi-screen names.
    pub metadata_path: Option<String>,
    pub target_screen_count: usize,
    pub failed_screen_count: usize,
    /// The batch's fingerprints, to remember once it is written, when
    /// repeated batches are skipped.
    pub fingerprints: Option<Vec<ScreenFingerprint>>,
}

/// What the capture does next.
pub enum BatchDecision {
    /// Nothing: the batch repeats the last one.
    Duplicate(CaptureReport),
    /// Write the batch.
    Write(BatchPlan),
}

/// Why a capture request stops.
#[derive(Clone, Copy, Debug, PartialEq, Eq, Structural)]
pub enum BatchError {
    /// The target at this position failed, in a batch with single-screen
    /// names.
    ScreenFailed(usize),
    /// No target could be captured.
    AllFailed,
    /// No sequence is left in the day's folder.
    SequenceExhausted,
}

/// The layout inputs of the targets (see `geometry_input_of`).
pub open spec fn batch_inputs(
    targets: Seq<ScreenPlacement>,
    captured: Seq<CapturedScreen>,
    estimates: Seq<(u32, u32)>,
) -> Seq<GeometryInput> {
    Seq::new(targets.len(), |k: int| geometry_input_of(targets[k], captured, estimates[k]))
}

/// Whether the layout of `inputs` can be computed (every edge and offset
/// fits in an `i32`).
pub open spec fn layout_fits(inputs: Seq<GeometryInput>) -> bool {
    inputs_fit(inputs) && offsets_fit(inputs, Axis::X) && offsets_fit(inputs, Axis::Y)
}

/// The geometries a batch records: the composed layout for a batch with
/// multi-screen names whose layout fits, else each captured screen's own.
pub open spec fn batch_geometries(
    use_multi_names: bool,
    targets: Seq<ScreenPlacement>,
    captured: Seq<CapturedScreen>,
    estimates: Seq<(u32, u32)>,
) -> Map<u32, SavedGeometry> {
    let inputs = batch_inputs(targets, captured, estimates);
    if use_multi_names && layout_fits(inputs) {
        geometry_map(inputs, inputs)
    } else {
        single_geometry_map(captured)
    }
}

/// The screen numbers of the captured screens, in order.
pub open spec fn captured_numbers(captured: Seq<CapturedScreen>) -> Seq<u32> {
    captured.map_values(|c: CapturedScreen| c.screen_index)
}

/// Whether a batch goes on after its captures (see `capture_batch_status`).
pub open spec fn batch_goes_on(use_multi_names: bool, succeeded: Seq<bool>) -> bool {
    &&& (use_multi_names || first_failure(succeeded) is None)
    &&& failure_count(succeeded) < succeeded.len()
}

/// Whether `fp` is the batch's fingerprints in screen order (see
/// `screen_fingerprints`).
pub open spec fn fingerprint_order(
    captured: Seq<CapturedScreen>,
    hashes: Seq<u64>,
    geometries: Map<u32, SavedGeometry>,
    fp: Seq<ScreenFingerprint>,
) -> bool {
    exists|perm: Seq<int>| #[trigger] sorted_by_screen(fingerprints_of(captured, hashes, geometries), fp, perm)
}

/// Whether a batch with fingerprints `fp` repeats the last batch `last`
/// (see `duplicate_due`).
pub open spec fn repeats_last(
    last: Option<CaptureBatchFingerprint>,
    b: CapturedBatch,
    fp: Seq<ScreenFingerprint>,
) -> bool {
    last matches Some(p) && duplicate_due(
        p,
        b.output_dir@,
        fp,
        b.previous_paths_exist@,
        b.previous_metadata_exists,
    )
}

/// The last batch remembered after a new batch with fingerprints `fp` was
/// found not to repeat it: forgotten when it matches the new batch but its
/// files are gone, kept otherwise.
pub open spec fn last_after_check(
    last: Option<CaptureBatchFingerprint>,
    b: CapturedBatch,
    fp: Seq<ScreenFingerprint>,
) -> Option<CaptureBatchFingerprint> {
    match last {
        Some(p) => if p.output_dir@ == b.output_dir@ && p.screens@ == fp && !files_still_exist(
            p,
            b.previous_paths_exist@,
            b.previous_metadata_exists,
        ) {
            None
        } else {
            Some(p)
        },
        None => None,
    }
}

/// The last batch remembered once a new batch with fingerprints `fp` (when
/// repeats are skipped) was checked: see `last_after_check`; nothing when
/// repeats are not skipped.
pub open spec fn dedup_outcome(
    old_last: Option<CaptureBatchFingerprint>,
    new_last: Option<CaptureBatchFingerprint>,
    b: CapturedBatch,
    geometries: Map<u32, SavedGeometry>,
    fp: Option<Seq<ScreenFingerprint>>,
) -> bool {
    match fp {
        Some(fp) => {
            &&& b.dedup
            &&& fingerprint_order(b.captured@, b.hashes@, geometries, fp)
            &&& !repeats_last(old_last, b, fp)
            &&& new_last == last_after_check(old_last, b, fp)
        },
        None => !b.dedup && new_last is None,
    }
}

/// The screen numbers of the captured screens.
fn numbers_of(captured: &Vec<CapturedScreen>) -> (r: Vec<u32>)
    ensures
        r@ == captured_numbers(captured@),
{
    let mut r: Vec<u32> = Vec::new();
    let mut i: usize = 0;
    while i < captured.len()
        invariant
            i <= captured@.len(),
            r@ == captured_numbers(captured@.subrange(0, i as int)),
        decreases captured@.len() - i,
    {
        r.push(captured[i].screen_index);
        i = i + 1;
        assert(captured_numbers(captured@.subrange(0, i as int)) =~= captured_numbers(
            captured@.subrange(0, i - 1),
        ).push(captured@[i - 1].screen_index));
    }
    assert(captured@.subrange(0, captured@.len() as int) =~= captured@);
    r
}

/// The geometries of a batch (see `batch_geometries`).
fn geometries_for(
    use_multi_names: bool,
    targets: &Vec<ScreenPlacement>,
    captured: &Vec<CapturedScreen>,
    estimates: &Vec<(u32, u32)>,
) -> (r: BTreeMap<u32, SavedGeometry>)
    requires
        estimates@.len() == targets@.len(),
    ensures
        r@ == batch_geometries(use_multi_names, targets@, captured@, estimates@),
{
    if use_multi_names {
        let inputs = geometry_inputs_for_targets(targets, captured, estimates);
        assert(inputs@ =~= batch_inputs(targets@, captured@, estimates@));
        match checked_scaled_geometries(&inputs) {
            Some(g) => g,
            None => single_screen_geometries(captured),
        }
    } else {
        single_screen_geometries(captured)
    }
}

/// Whether the batch gets multi-screen names: `Auto` mode with more than
/// one target.
pub open spec fn batch_multi(b: CapturedBatch) -> bool {
    b.capture_mode == CaptureMode::Auto && b.targets@.len() > 1
}

/// The geometries the batch records (see `batch_geometries`).
pub open spec fn batch_geoms(b: CapturedBatch) -> Map<u32, SavedGeometry> {
    batch_geometries(batch_multi(b), b.targets@, b.captured@, b.estimates@)
}

/// Decides what a capture request does with what it captured. The batch
/// uses multi-screen names in `Auto` mode with more than one target. It
/// stops as `capture_batch_status` says; otherwise its geometries are
/// `batch_geometries`. When repeats are skipped, a batch whose fingerprints
/// (see `fingerprint_order`) repeat the last batch (see `repeats_last`) is
/// reported as a skipped duplicate and nothing changes; otherwise the last
/// batch is kept or forgotten (see `last_after_check`), and it is forgotten
/// when repeats are not skipped. The batch then reserves its sequence (see
/// `reservation_made`, and `reservation_exhausted` for the error) and its
/// files are planned as `plan_capture_batch` states.
pub fn decide_capture_batch(state: &mut CaptureState, b: &CapturedBatch) -> (r: Result<
    BatchDecision,
    BatchError,
>)
    requires
        b.estimates@.len() == b.targets@.len(),
        b.hashes@.len() == b.captured@.len(),
        old(state).last_capture matches Some(p) ==> b.previous_paths_exist@.len() == p.paths@.len(),
    ensures
        distinct_dirs(old(state).next_sequence_by_dir@) ==> distinct_dirs(final(state).next_sequence_by_dir@),
        r matches Err(BatchError::ScreenFailed(k)) ==> {
            &&& !batch_multi(*b)
            &&& first_failure(b.succeeded@) == Some(k as int)
            &&& final(state).last_capture == old(state).last_capture
            &&& final(state).next_sequence_by_dir@ == old(state).next_sequence_by_dir@
        },
        r matches Err(BatchError::AllFailed) ==> {
            &&& batch_multi(*b) || first_failure(b.succeeded@) is None
            &&& failure_count(b.succeeded@) == b.succeeded@.len()
            &&& final(state).last_capture == old(state).last_capture
            &&& final(state).next_sequence_by_dir@ == old(state).next_sequence_by_dir@
        },
        r matches Ok(BatchDecision::Duplicate(report)) ==> {
            &&& batch_goes_on(batch_multi(*b), b.succeeded@)
            &&& b.dedup
            &&& exists|fp: Seq<ScreenFingerprint>|
                #[trigger] fingerprint_order(b.captured@, b.hashes@, batch_geoms(*b), fp)
                    && repeats_last(old(state).last_capture, *b, fp)
            &&& old(state).last_capture matches Some(p) && report.previous_paths@ == p.paths@
                && report.metadata_path == p.metadata_path
            &&& report.saved_paths@.len() == 0
            &&& report.skipped_duplicate
            &&& report.target_screen_count == b.targets@.len()
            &&& report.failed_screen_count == failure_count(b.succeeded@)
            &&& final(state).last_capture == old(state).last_capture
            &&& final(state).next_sequence_by_dir@ == old(state).next_sequence_by_dir@
        },
        r matches Ok(BatchDecision::Write(plan)) ==> {
            &&& batch_goes_on(batch_multi(*b), b.succeeded@)
            &&& plan.target_screen_count == b.targets@.len()
            &&& plan.failed_screen_count == failure_count(b.succeeded@)
            &&& dedup_outcome(
                old(state).last_capture,
                final(state).last_capture,
                *b,
                batch_geoms(*b),
                match plan.fingerprints {
                    Some(fp) => Some(fp@),
                    None => None,
                },
            )
        },
        r matches Ok(BatchDecision::Write(plan)) ==> reservation_made(
            old(state).next_sequence_by_dir@,
            final(state).next_sequence_by_dir@,
            b.output_dir@,
            texts(b.existing_names@),
            b.timestamp@,
            batch_multi(*b),
            b.format,
            captured_numbers(b.captured@),
            plan.sequence,
        ),
        r matches Ok(BatchDecision::Write(plan)) ==> {
            &&& plan.files@.len() == b.captured@.len()
            &&& forall|k: int|
                0 <= k < plan.files@.len() ==> {
                    let f = #[trigger] plan.files@[k];
                    let c = b.captured@[k];
                    &&& f.screen_index == c.screen_index
                    &&& f.file_name@ == batch_name(
                        b.timestamp@,
                        plan.sequence,
                        batch_multi(*b),
                        b.format,
                        c.screen_index,
                    )
                    &&& f.path@ == join_path(b.output_dir@, f.file_name@)
                    &&& f.geometry == recorded_geometry(c, batch_geoms(*b))
                }
            &&& match plan.metadata_path {
                Some(m) => batch_multi(*b) && m@ == join_path(
                    b.output_dir@,
                    metadata_name_text(b.timestamp@, plan.sequence),
                ),
                None => !batch_multi(*b),
            }
        },
        r matches Err(BatchError::SequenceExhausted) ==> {
            &&& batch_goes_on(batch_multi(*b), b.succeeded@)
            &&& final(state).next_sequence_by_dir@ == old(state).next_sequence_by_dir@
            &&& reservation_exhausted(
                old(state).next_sequence_by_dir@,
                b.output_dir@,
                texts(b.existing_names@),
                b.timestamp@,
                batch_multi(*b),
                b.format,
                captured_numbers(b.captured@),
            )
        },
        r matches Err(BatchError::SequenceExhausted) ==> {
            &&& b.dedup ==> exists|fp: Seq<ScreenFingerprint>|
                #[trigger] fingerprint_order(b.captured@, b.hashes@, batch_geoms(*b), fp)
                    && dedup_outcome(
                    old(state).last_capture,
                    final(state).last_capture,
                    *b,
                    batch_geoms(*b),
                    Some(fp),
                )
            &&& !b.dedup ==> final(state).last_capture is None
        },
{
    let ghost old_last = state.last_capture;
    let multi = uses_multi_screen_names(b.capture_mode, b.targets.len());
    let failed = match capture_batch_status(multi, &b.succeeded) {
        Ok(f) => f,
        Err(CaptureFailure::ScreenFailed(k)) => {
            return Err(BatchError::ScreenFailed(k));
        },
        Err(CaptureFailure::AllFailed) => {
            return Err(BatchError::AllFailed);
        },
    };
    let geometries = geometries_for(multi, &b.targets, &b.captured, &b.estimates);
    let ghost geoms = geometries@;
    assert(geoms == batch_geoms(*b));
    let fingerprints = if b.dedup {
        let fp = screen_fingerprints(&b.captured, &b.hashes, &geometries);
        assert(fingerprint_order(b.captured@, b.hashes@, geoms, fp@));
        match duplicate_capture_report(
            state,
            b.output_dir.as_str(),
            &fp,
            b.targets.len(),
            failed,
            &b.previous_paths_exist,
            b.previous_metadata_exists,
        ) {
            Some(report) => {
                assert(fingerprint_order(b.captured@, b.hashes@, geoms, fp@) && repeats_last(
                    old_last,
                    *b,
                    fp@,
                ));
                return Ok(BatchDecision::Duplicate(report));
            },
            None => {},
        }
        assert(!repeats_last(old_last, *b, fp@));
        assert(state.last_capture == last_after_check(old_last, *b, fp@));
        Some(fp)
    } else {
        clear_capture_fingerprint(state);
        None
    };
    let ghost fp_view: Option<Seq<ScreenFingerprint>> = match &fingerprints {
        Some(fp) => Some(fp@),
        None => None,
    };
    assert(dedup_outcome(old_last, state.last_capture, *b, geoms, fp_view));
    let ghost last_checked = state.last_capture;
    let numbers = numbers_of(&b.captured);
    let sequence = match reserve_capture_sequence(
        state,
        b.output_dir.as_str(),
        b.timestamp.as_str(),
        multi,
        b.format,
        &numbers,
        &b.existing_names,
    ) {
        Ok(s) => s,
        Err(_) => {
            proof {
                if b.dedup {
                    let fp = fp_view->0;
                    assert(fingerprint_order(b.captured@, b.hashes@, geoms, fp) && dedup_outcome(
                        old_last,
                        state.last_capture,
                        *b,
                        geoms,
                        Some(fp),
                    ));
                }
            }
            return Err(BatchError::SequenceExhausted);
        },
    };
    let (files, metadata_path) = plan_capture_batch(
        b.output_dir.as_str(),
        b.timestamp.as_str(),
        sequence,
        b.format,
        multi,
        &b.captured,
        &geometries,
    );
    Ok(
        BatchDecision::Write(
            BatchPlan {
                sequence,
                files,
                metadata_path,
                target_screen_count: b.targets.len(),
                failed_screen_count: failed,
                fingerprints,
            },
        ),
    )
}

/// A capture identical to the last batch written (same folder, and
/// fingerprints in the same screen order, which is the only one) repeats it
/// while that batch's files are all on disk: whatever fingerprints the new
/// batch is given, they repeat the stored batch, so with repeats skipped
/// `decide_capture_batch` can neither write it nor run out of sequences
/// for it.
pub proof fn lemma_repeated_batch_is_recognised(
    b: CapturedBatch,
    stored: CaptureBatchFingerprint,
    fp: Seq<ScreenFingerprint>,
)
    requires
        fingerprint_order(b.captured@, b.hashes@, batch_geoms(b), stored.screens@),
        fingerprint_order(b.captured@, b.hashes@, batch_geoms(b), fp),
        stored.output_dir@ == b.output_dir@,
        stored.paths@.len() > 0,
        b.previous_paths_exist@.len() == stored.paths@.len(),
        forall|k: int| 0 <= k < b.previous_paths_exist@.len() ==> #[trigger] b.previous_paths_exist@[k],
        stored.metadata_path is Some ==> b.previous_metadata_exists,
    ensures
        repeats_last(Some(stored), b, fp),
        forall|new_last: Option<CaptureBatchFingerprint>|
            !dedup_outcome(Some(stored), new_last, b, batch_geoms(b), Some(fp)),
{
    let input = fingerprints_of(b.captured@, b.hashes@, batch_geoms(b));
    let p1 = choose|perm: Seq<int>| sorted_by_screen(input, stored.screens@, perm);
    let p2 = choose|perm: Seq<int>| sorted_by_screen(input, fp, perm);
    lemma_sorted_by_screen_unique(input, stored.screens@, p1, fp, p2);
}

} // verus!
