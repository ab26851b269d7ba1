use std::collections::BTreeSet;
use screen_recorder::history::{images_for_mode, inspect_video_source};
use screen_recorder::video::VideoGenerationMode;
use screen_recorder::batch::{decide_capture_batch, BatchDecision, BatchError, CapturedBatch};
use screen_recorder::capture::{CaptureState, CapturedScreen, ScreenPlacement};
use screen_recorder::config::{CaptureMode, ScreenshotFormat};
use screen_recorder::dedup::{store_capture_fingerprint, CaptureBatchFingerprint};

fn placement(index: u32, x: i32, width: u32, height: u32) -> ScreenPlacement {
    ScreenPlacement { index, id: index, x, y: 0, width, height, is_primary: index == 1 }
}

fn batch(mode: CaptureMode, targets: Vec<ScreenPlacement>, succeeded: Vec<bool>, dedup: bool) -> CapturedBatch {
    let captured = targets
        .iter()
        .zip(&succeeded)
        .filter(|(_, ok)| **ok)
        .map(|(t, _)| CapturedScreen { screen_index: t.index, width: t.width, height: t.height })
        .collect::<Vec<_>>();
    CapturedBatch {
        output_dir: "/shots/2026-05-30".to_string(),
        timestamp: "09-00-00.000".to_string(),
        capture_mode: mode,
        format: ScreenshotFormat::Png,
        dedup,
        estimates: targets.iter().map(|t| (t.width, t.height)).collect(),
        hashes: captured.iter().map(|c| c.screen_index as u64 * 7).collect(),
        targets,
        succeeded,
        captured,
        previous_paths_exist: Vec::new(),
        previous_metadata_exists: false,
        existing_names: Vec::new(),
    }
}

fn write_plan(result: Result<BatchDecision, BatchError>) -> screen_recorder::batch::BatchPlan {
    match result {
        Ok(BatchDecision::Write(plan)) => plan,
        _ => panic!("expected a batch to write"),
    }
}

#[test]
fn single_screen_batch_keeps_legacy_names() {
    let mut state = CaptureState::new();
    let b = batch(CaptureMode::Auto, vec![placement(1, 0, 100, 50)], vec![true], false);
    let plan = write_plan(decide_capture_batch(&mut state, &b));
    assert_eq!(plan.sequence, 0);
    assert_eq!(plan.files.len(), 1);
    assert_eq!(plan.files[0].file_name, "09-00-00.000-000000.png");
    assert_eq!(plan.files[0].path, "/shots/2026-05-30/09-00-00.000-000000.png");
    assert!(plan.metadata_path.is_none());
    assert!(plan.fingerprints.is_none());
    assert_eq!((plan.target_screen_count, plan.failed_screen_count), (1, 0));
    let again = write_plan(decide_capture_batch(&mut state, &b));
    assert_eq!(again.sequence, 1);
}

#[test]
fn multi_screen_batch_skips_failed_screen_and_records_layout() {
    let mut state = CaptureState::new();
    let b = batch(
        CaptureMode::Auto,
        vec![placement(1, 0, 100, 50), placement(2, 100, 80, 40), placement(3, 180, 60, 30)],
        vec![true, false, true],
        false,
    );
    let plan = write_plan(decide_capture_batch(&mut state, &b));
    assert_eq!((plan.target_screen_count, plan.failed_screen_count), (3, 1));
    assert_eq!(plan.files.len(), 2);
    assert_eq!(plan.files[0].file_name, "09-00-00.000-screen-01-000000.png");
    assert_eq!(plan.files[1].file_name, "09-00-00.000-screen-03-000000.png");
    assert_eq!(plan.files[1].geometry.x, 180);
    assert_eq!(plan.metadata_path.as_deref(), Some("/shots/2026-05-30/09-00-00.000-000000.screens.json"));
}

#[test]
fn pinned_screen_failure_stops_the_batch() {
    let mut state = CaptureState::new();
    let b = batch(CaptureMode::Screen(2), vec![placement(2, 100, 80, 40)], vec![false], false);
    assert!(matches!(decide_capture_batch(&mut state, &b), Err(BatchError::ScreenFailed(0))));
    assert!(state.next_sequence_by_dir.is_empty());
}

#[test]
fn batch_with_no_capture_fails() {
    let mut state = CaptureState::new();
    let b = batch(CaptureMode::Auto, vec![placement(1, 0, 10, 10), placement(2, 10, 10, 10)], vec![false, false], false);
    assert!(matches!(decide_capture_batch(&mut state, &b), Err(BatchError::AllFailed)));
}

#[test]
fn repeated_batch_is_skipped_while_its_files_remain() {
    let mut state = CaptureState::new();
    let b = batch(CaptureMode::Auto, vec![placement(1, 0, 100, 50)], vec![true], true);
    let plan = write_plan(decide_capture_batch(&mut state, &b));
    let fingerprints = plan.fingerprints.expect("fingerprints");
    let saved = plan.files.iter().map(|f| f.path.clone()).collect::<Vec<_>>();
    store_capture_fingerprint(
        &mut state,
        CaptureBatchFingerprint {
            output_dir: b.output_dir.clone(),
            screens: fingerprints,
            paths: saved.clone(),
            metadata_path: None,
        },
    );
    let mut again = batch(CaptureMode::Auto, vec![placement(1, 0, 100, 50)], vec![true], true);
    again.previous_paths_exist = vec![true];
    match decide_capture_batch(&mut state, &again) {
        Ok(BatchDecision::Duplicate(report)) => {
            assert!(report.skipped_duplicate);
            assert_eq!(report.previous_paths, saved);
            assert!(report.saved_paths.is_empty());
        }
        _ => panic!("expected a skipped duplicate"),
    }
    let mut gone = batch(CaptureMode::Auto, vec![placement(1, 0, 100, 50)], vec![true], true);
    gone.previous_paths_exist = vec![false];
    let plan = write_plan(decide_capture_batch(&mut state, &gone));
    assert_eq!(plan.sequence, 1);
    assert!(state.last_capture.is_none());
}

#[test]
fn sequence_skips_names_already_in_the_folder() {
    let mut state = CaptureState::new();
    let mut b = batch(CaptureMode::Auto, vec![placement(1, 0, 100, 50)], vec![true], false);
    b.existing_names = vec!["08-00-00.000-000004.png".to_string(), "09-00-00.000-000005.png".to_string()];
    let plan = write_plan(decide_capture_batch(&mut state, &b));
    assert_eq!(plan.sequence, 6);
}

#[test]
fn written_batch_names_are_read_back_by_the_history_window() {
    let mut state = CaptureState::new();
    let b = batch(
        CaptureMode::Auto,
        vec![placement(1, 0, 100, 50), placement(2, 100, 80, 40)],
        vec![true, true],
        false,
    );
    let plan = write_plan(decide_capture_batch(&mut state, &b));
    let names = plan.files.iter().map(|f| f.path.clone()).collect::<Vec<_>>();
    let stats = inspect_video_source(&names);
    assert_eq!(stats.image_count, 2);
    assert_eq!(stats.single_compatible_count, 0);
    assert_eq!(stats.screen_indices, BTreeSet::from([1, 2]));
    let second_screen = images_for_mode(names.clone(), VideoGenerationMode::SingleScreen(2));
    assert_eq!(second_screen, vec![names[1].clone()]);
}
