use screen_recorder::capture::{
    assign_screen_indices, assign_screen_indices_to_entries, capture_batch_status,
    plan_capture_batch, reconcile_capture_mode_with_screens, reserve_capture_sequence,
    select_capture_targets, CaptureFailure, CaptureState, CapturedScreen, ScreenPlacement,
    SequenceError,
};
use screen_recorder::config::{CaptureMode, ScreenshotFormat};
use screen_recorder::dedup::{
    clear_capture_fingerprint, duplicate_capture_report, rgba_buffer_hash, rgba_raw_hash,
    screen_fingerprints, store_capture_fingerprint, CaptureBatchFingerprint, ScreenFingerprint,
};
use screen_recorder::geometry::{
    axis_offsets, checked_scaled_geometries, Axis, geometry_inputs_for_targets, scaled_geometries,
    single_screen_geometries, GeometryInput, SavedGeometry,
};
use image::{DynamicImage, RgbaImage};
use std::collections::BTreeMap;

fn screen_info(index: u32, x: i32, y: i32, width: u32, height: u32) -> ScreenPlacement {
    ScreenPlacement { index, id: index, x, y, width, height, is_primary: false }
}

fn names(list: &[&str]) -> Vec<String> {
    list.iter().map(|s| s.to_string()).collect()
}

#[test]
fn screen_indices_put_primary_first_then_position() {
    let mut primary = screen_info(10, 100, 0, 100, 100);
    primary.is_primary = true;
    let infos = assign_screen_indices(vec![
        screen_info(2, 200, 0, 100, 100),
        primary,
        screen_info(1, -100, 0, 100, 100),
    ]);
    assert_eq!(infos[0].id, 10);
    assert_eq!(infos[0].index, 1);
    assert_eq!(infos[1].id, 1);
    assert_eq!(infos[1].index, 2);
    assert_eq!(infos[2].id, 2);
    assert_eq!(infos[2].index, 3);
}

#[test]
fn screen_index_assignment_keeps_entries_attached_to_infos() {
    let mut primary = screen_info(10, 100, 0, 100, 100);
    primary.is_primary = true;
    let entries = assign_screen_indices_to_entries(vec![
        ("right", screen_info(2, 200, 0, 100, 100)),
        ("primary", primary),
        ("left", screen_info(1, -100, 0, 100, 100)),
    ]);
    let labels = entries.iter().map(|(label, info)| (*label, info.id, info.index)).collect::<Vec<_>>();
    assert_eq!(labels, vec![("primary", 10, 1), ("left", 1, 2), ("right", 2, 3)]);
}

#[test]
fn startup_capture_mode_falls_back_when_saved_screen_is_missing() {
    let mut info = screen_info(1, 0, 0, 1280, 720);
    info.id = 10;
    info.is_primary = true;
    let (mode, changed) = reconcile_capture_mode_with_screens(CaptureMode::Screen(2), &vec![info]);
    assert!(changed);
    assert_eq!(mode, CaptureMode::Auto);
}

#[test]
fn startup_capture_mode_keeps_available_saved_screen() {
    let mut info = screen_info(2, 1280, 0, 1920, 1080);
    info.id = 20;
    let (mode, changed) = reconcile_capture_mode_with_screens(CaptureMode::Screen(2), &vec![info]);
    assert!(!changed);
    assert_eq!(mode, CaptureMode::Screen(2));
}

#[test]
fn select_capture_targets_finds_chosen_screen() {
    let screens = vec![screen_info(1, 0, 0, 10, 10), screen_info(2, 10, 0, 10, 10)];
    assert_eq!(select_capture_targets(&screens, CaptureMode::Auto), Some(vec![0, 1]));
    assert_eq!(select_capture_targets(&screens, CaptureMode::Screen(2)), Some(vec![1]));
    assert_eq!(select_capture_targets(&screens, CaptureMode::Screen(3)), None);
}

#[test]
fn reserve_sequence_starts_at_zero_for_empty_dir() {
    let mut state = CaptureState::new();
    let sequence = reserve_capture_sequence(
        &mut state, "/shots/2026-05-30", "01-02-03.004", false, ScreenshotFormat::Png, &vec![1], &Vec::new(),
    ).expect("reserve sequence");
    assert_eq!(sequence, 0);
}

#[test]
fn reserve_sequence_continues_after_existing_single_screen_files() {
    let mut state = CaptureState::new();
    let existing = names(&["01-02-03.004-000041.png", "not-a-capture.png"]);
    let sequence = reserve_capture_sequence(
        &mut state, "/shots/d", "02-03-04.005", false, ScreenshotFormat::Png, &vec![1], &existing,
    ).expect("reserve sequence");
    assert_eq!(sequence, 42);
}

#[test]
fn reserve_sequence_continues_after_existing_multi_screen_files() {
    let mut state = CaptureState::new();
    let existing = names(&["01-02-03.004-screen-02-000010.jpg"]);
    let sequence = reserve_capture_sequence(
        &mut state, "/shots/d", "02-03-04.005", true, ScreenshotFormat::Png, &vec![2], &existing,
    ).expect("reserve sequence");
    assert_eq!(sequence, 11);
}

#[test]
fn reserve_sequence_skips_existing_targets_and_metadata() {
    let mut state = CaptureState { next_sequence_by_dir: vec![("/shots/d".to_string(), 7)], last_capture: None };
    let existing = names(&["01-02-03.004-screen-02-000007.png", "01-02-03.004-000008.screens.json"]);
    let sequence = reserve_capture_sequence(
        &mut state, "/shots/d", "01-02-03.004", true, ScreenshotFormat::Png, &vec![2], &existing,
    ).expect("reserve sequence");
    assert_eq!(sequence, 9);
    let again = reserve_capture_sequence(
        &mut state, "/shots/d", "01-02-03.004", true, ScreenshotFormat::Png, &vec![2], &existing,
    ).expect("reserve next sequence");
    assert_eq!(again, 10);
}

#[test]
fn reserve_sequence_goes_past_six_digits() {
    let mut state = CaptureState::new();
    let existing = names(&["01-02-03.004-999999.png", "01-02-03.004-1000005.png"]);
    let result = reserve_capture_sequence(
        &mut state, "/shots/d", "01-02-03.004", false, ScreenshotFormat::Png, &vec![1], &existing,
    );
    assert_eq!(result, Ok(1000000));
}

#[test]
fn reserve_sequence_fails_at_the_largest_sequence() {
    let mut state = CaptureState { next_sequence_by_dir: vec![("/shots/d".to_string(), u64::MAX)], last_capture: None };
    let result = reserve_capture_sequence(
        &mut state, "/shots/d", "01-02-03.004", false, ScreenshotFormat::Png, &vec![1], &Vec::new(),
    );
    assert_eq!(result, Err(SequenceError::Exhausted));
}

#[test]
fn batch_status_follows_name_mode() {
    assert_eq!(capture_batch_status(false, &vec![true]), Ok(0));
    assert_eq!(capture_batch_status(false, &vec![false]), Err(CaptureFailure::ScreenFailed(0)));
    assert_eq!(capture_batch_status(true, &vec![true, false, true]), Ok(1));
    assert_eq!(capture_batch_status(true, &vec![false, false]), Err(CaptureFailure::AllFailed));
}

#[test]
fn plan_single_screen_batch_keeps_legacy_name() {
    let captured = vec![CapturedScreen { screen_index: 1, width: 4, height: 3 }];
    let geometries = BTreeMap::from([(1, SavedGeometry { x: 0, y: 0, width: 4, height: 3 })]);
    let (files, metadata) = plan_capture_batch("/shots/d", "01-02-03.004", 7, ScreenshotFormat::Png, false, &captured, &geometries);
    assert_eq!(files.len(), 1);
    assert_eq!(files[0].path, "/shots/d/01-02-03.004-000007.png");
    assert!(metadata.is_none());
}

#[test]
fn plan_multi_screen_batch_names_screens_and_metadata() {
    let captured = vec![CapturedScreen { screen_index: 2, width: 20, height: 10 }];
    let geometries = BTreeMap::from([(2, SavedGeometry { x: 200, y: 0, width: 20, height: 10 })]);
    let (files, metadata) = plan_capture_batch("/shots/d", "01-02-03.004", 9, ScreenshotFormat::Png, true, &captured, &geometries);
    assert_eq!(files[0].file_name, "01-02-03.004-screen-02-000009.png");
    assert_eq!(files[0].path, "/shots/d/01-02-03.004-screen-02-000009.png");
    assert_eq!(files[0].geometry.x, 200);
    assert_eq!(metadata, Some("/shots/d/01-02-03.004-000009.screens.json".to_string()));
}

#[test]
fn multi_screen_geometry_uses_saved_pixel_offsets() {
    let inputs = vec![
        GeometryInput { screen_index: 1, x: 0, y: 0, width: 1470, height: 956, saved_width: 2940, saved_height: 1912 },
        GeometryInput { screen_index: 2, x: 1470, y: 0, width: 1920, height: 1080, saved_width: 1920, saved_height: 1080 },
    ];
    let geometries = scaled_geometries(&inputs);
    assert_eq!(geometries[&1].x, 0);
    assert_eq!(geometries[&1].width, 2940);
    assert_eq!(geometries[&2].x, 2940);
    assert_eq!(geometries[&2].width, 1920);
}

#[test]
fn geometry_rounds_stretches_to_nearest_pixel() {
    let inputs = vec![
        GeometryInput { screen_index: 1, x: 0, y: 0, width: 3, height: 2, saved_width: 4, saved_height: 2 },
        GeometryInput { screen_index: 2, x: 3, y: 0, width: 2, height: 2, saved_width: 2, saved_height: 2 },
    ];
    let geometries = checked_scaled_geometries(&inputs).expect("fits");
    assert_eq!(geometries[&2].x, 4);
    assert_eq!(geometries[&1].y, 0);
}

#[test]
fn geometry_refuses_edges_beyond_i32() {
    let inputs = vec![GeometryInput { screen_index: 1, x: i32::MAX, y: 0, width: 10, height: 1, saved_width: 10, saved_height: 1 }];
    assert!(checked_scaled_geometries(&inputs).is_none());
}

#[test]
fn geometry_inputs_use_captured_or_estimated_sizes() {
    let targets = vec![screen_info(1, 0, 0, 100, 50), screen_info(2, 100, 0, 0, 50)];
    let captured = vec![CapturedScreen { screen_index: 1, width: 200, height: 100 }];
    let inputs = geometry_inputs_for_targets(&targets, &captured, &vec![(1, 1), (30, 40)]);
    assert_eq!(inputs[0].saved_width, 200);
    assert_eq!(inputs[1].saved_width, 30);
    assert_eq!(inputs[1].width, 1);
    let single = single_screen_geometries(&captured);
    assert_eq!(single[&1], SavedGeometry { x: 0, y: 0, width: 200, height: 100 });
}

fn fingerprint(hash: u64) -> ScreenFingerprint {
    ScreenFingerprint { screen_index: 1, x: 0, y: 0, width: 10, height: 10, hash }
}

#[test]
fn duplicate_report_matches_same_screens_with_files_present() {
    let mut state = CaptureState::new();
    store_capture_fingerprint(&mut state, CaptureBatchFingerprint {
        output_dir: "/shots/d".to_string(),
        screens: vec![fingerprint(42)],
        paths: vec!["/shots/d/screen.png".to_string()],
        metadata_path: None,
    });
    let report = duplicate_capture_report(&mut state, "/shots/d", &vec![fingerprint(42)], 1, 0, &vec![true], false).expect("duplicate");
    assert!(report.skipped_duplicate);
    assert!(report.saved_paths.is_empty());
    assert_eq!(report.previous_paths, vec!["/shots/d/screen.png".to_string()]);
}

#[test]
fn duplicate_report_ignores_missing_files_and_other_pixels() {
    let mut state = CaptureState::new();
    store_capture_fingerprint(&mut state, CaptureBatchFingerprint {
        output_dir: "/shots/d".to_string(),
        screens: vec![fingerprint(42)],
        paths: vec!["/shots/d/screen.png".to_string()],
        metadata_path: Some("/shots/d/x.screens.json".to_string()),
    });
    assert!(duplicate_capture_report(&mut state, "/shots/d", &vec![fingerprint(43)], 1, 0, &vec![true], true).is_none());
    assert!(state.last_capture.is_some());
    assert!(duplicate_capture_report(&mut state, "/shots/d", &vec![fingerprint(42)], 1, 0, &vec![true], false).is_none());
    assert!(state.last_capture.is_none());
    clear_capture_fingerprint(&mut state);
    assert!(duplicate_capture_report(&mut state, "/shots/d", &vec![fingerprint(42)], 1, 0, &Vec::new(), true).is_none());
}

#[test]
fn fingerprints_are_ordered_by_screen() {
    let captured = vec![
        CapturedScreen { screen_index: 3, width: 5, height: 5 },
        CapturedScreen { screen_index: 1, width: 7, height: 7 },
    ];
    let geometries = BTreeMap::from([(3, SavedGeometry { x: 70, y: 0, width: 5, height: 5 })]);
    let prints = screen_fingerprints(&captured, &vec![30, 10], &geometries);
    assert_eq!(prints[0].screen_index, 1);
    assert_eq!(prints[0].width, 7);
    assert_eq!(prints[0].hash, 10);
    assert_eq!(prints[1].x, 70);
}

#[test]
fn rgba_buffer_hash_matches_identical_rgba_images() {
    let image = DynamicImage::ImageRgba8(RgbaImage::from_raw(2, 1, vec![1, 2, 3, 4, 5, 6, 7, 8]).expect("image"));
    let same = image.clone();
    assert_eq!(rgba_buffer_hash(&image), rgba_buffer_hash(&same));
}

#[test]
fn rgba_buffer_hash_changes_when_pixels_change() {
    let image = DynamicImage::ImageRgba8(RgbaImage::from_raw(1, 1, vec![1, 2, 3, 4]).expect("image"));
    let changed = DynamicImage::ImageRgba8(RgbaImage::from_raw(1, 1, vec![1, 2, 3, 5]).expect("image"));
    assert_ne!(rgba_buffer_hash(&image), rgba_buffer_hash(&changed));
}

#[test]
fn rgba_buffer_hash_includes_dimensions() {
    let pixels = vec![1, 2, 3, 4, 5, 6, 7, 8];
    let tall = DynamicImage::ImageRgba8(RgbaImage::from_raw(1, 2, pixels.clone()).expect("image"));
    let wide = DynamicImage::ImageRgba8(RgbaImage::from_raw(2, 1, pixels).expect("image"));
    assert_ne!(rgba_buffer_hash(&tall), rgba_buffer_hash(&wide));
}

#[test]
fn rgba_raw_hash_matches_streamed_xxh3() {
    let mut hasher = xxhash_rust::xxh3::Xxh3::new();
    hasher.update(&2u32.to_le_bytes());
    hasher.update(&1u32.to_le_bytes());
    hasher.update(&[9, 8, 7, 6, 5, 4, 3, 2]);
    assert_eq!(rgba_raw_hash(2, 1, &vec![9, 8, 7, 6, 5, 4, 3, 2]), hasher.digest());
}

#[test]
fn composed_layout_keeps_screen_order() {
    let inputs = vec![
        GeometryInput { screen_index: 3, x: 2000, y: -300, width: 800, height: 600, saved_width: 1600, saved_height: 1200 },
        GeometryInput { screen_index: 1, x: 0, y: 0, width: 1000, height: 700, saved_width: 1000, saved_height: 700 },
        GeometryInput { screen_index: 2, x: 1000, y: 100, width: 1000, height: 700, saved_width: 2000, saved_height: 1400 },
    ];
    let geometries = scaled_geometries(&inputs);
    assert!(geometries[&1].x <= geometries[&2].x && geometries[&2].x <= geometries[&3].x);
    assert!(geometries[&3].y <= geometries[&1].y && geometries[&1].y <= geometries[&2].y);
    assert_eq!(geometries[&3].y, 0);
    assert_eq!(geometries[&1].x, 0);
}

#[test]
fn rgba_buffer_hash_is_the_raw_hash_of_the_rgba_copy() {
    let rgb = DynamicImage::ImageRgb8(image::RgbImage::from_raw(2, 1, vec![10, 20, 30, 40, 50, 60]).expect("image"));
    assert_eq!(rgba_buffer_hash(&rgb), rgba_raw_hash(2, 1, &vec![10, 20, 30, 255, 40, 50, 60, 255]));
}

#[test]
fn axis_offsets_start_at_zero_on_the_leftmost_edge() {
    let inputs = vec![
        GeometryInput { screen_index: 1, x: -1920, y: 0, width: 1920, height: 1080, saved_width: 3840, saved_height: 2160 },
        GeometryInput { screen_index: 2, x: 0, y: 0, width: 1470, height: 956, saved_width: 1470, saved_height: 956 },
    ];
    let offsets = axis_offsets(&inputs, Axis::X);
    let keys: Vec<i32> = offsets.keys().copied().collect();
    assert_eq!(keys, vec![-1920, 0, 1470]);
    assert_eq!(offsets[&-1920], 0);
    assert_eq!(offsets[&0], 3840);
    assert_eq!(offsets[&1470], 5310);
}
