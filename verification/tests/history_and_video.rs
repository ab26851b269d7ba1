use std::collections::BTreeSet;
use screen_recorder::history::images_for_mode;
use screen_recorder::video::sort_paths;
use screen_recorder::config::{Language, ScreenshotFormat, VideoCodec};
use screen_recorder::history::{
    inspect_video_source, output_path_for_mode, sanitize_file_stem, GenerateEvent, HistoryApp,
    SourceStatus, VideoSource,
};
use screen_recorder::video::{
    choose_video_images, ffmpeg_arguments, frame_file_name, frame_plan, VideoError,
    VideoGenerationMode, VideoGenerationProgress,
};

fn source_with_screens(id: u64, screens: &[u32], selected: bool) -> VideoSource {
    VideoSource {
        id,
        label: format!("source-{id}"),
        input_dir: format!("input-{id}"),
        output_path: format!("video-{id}.mp4"),
        image_count: screens.len(),
        single_compatible_count: 0,
        screen_indices: screens.iter().copied().collect(),
        selected,
        external: false,
        status: SourceStatus::Ready,
    }
}

#[test]
fn sanitize_file_stem_replaces_path_unfriendly_characters() {
    assert_eq!(sanitize_file_stem("Project Demo Folder"), "Project_Demo_Folder");
    assert_eq!(sanitize_file_stem("///"), "imported-folder");
}

#[test]
fn sanitize_file_stem_trims_underscores() {
    assert_eq!(sanitize_file_stem("_a b_"), "a_b");
    assert_eq!(sanitize_file_stem("日报-1"), "-1");
}

#[test]
fn output_path_for_single_screen_mode_adds_screen_suffix() {
    let output = output_path_for_mode("/tmp/2026-05-30.mp4", VideoGenerationMode::SingleScreen(2));
    assert_eq!(output, "/tmp/2026-05-30-screen-02.mp4");
    assert_eq!(
        output_path_for_mode("/tmp/2026-05-30.mp4", VideoGenerationMode::MultiScreen),
        "/tmp/2026-05-30.mp4"
    );
}

#[test]
fn inspect_video_source_finds_screen_indices_and_single_compatible_images() {
    let names = vec![
        "14-03-22.184-screen-02-000512.png".to_string(),
        "14-03-22.184-screen-01-000512.png".to_string(),
        "14-03-23.184-000513.png".to_string(),
        "external.jpg".to_string(),
        "notes.txt".to_string(),
    ];
    let stats = inspect_video_source(&names);
    assert_eq!(stats.image_count, 4);
    assert_eq!(stats.single_compatible_count, 2);
    assert_eq!(stats.screen_indices, BTreeSet::from([1, 2]));
}

#[test]
fn generation_mode_change_clears_incompatible_selected_sources() {
    let mut app = HistoryApp::new(Language::ZhCn);
    app.sources = vec![source_with_screens(1, &[1], true), source_with_screens(2, &[2], true)];
    app.set_generation_mode(VideoGenerationMode::SingleScreen(1));
    assert!(app.sources[0].selected);
    assert!(app.sources[0].can_generate_for_mode(app.generation_mode));
    assert!(!app.sources[1].selected);
    assert!(matches!(app.sources[1].status, SourceStatus::ModeUnavailable));
}

#[test]
fn selected_jobs_use_current_generation_mode_and_output_path() {
    let mut app = HistoryApp::new(Language::ZhCn);
    app.generation_mode = VideoGenerationMode::SingleScreen(2);
    app.sources = vec![source_with_screens(7, &[2], true)];
    let jobs = app.selected_jobs();
    assert_eq!(jobs.len(), 1);
    assert_eq!(jobs[0].mode, VideoGenerationMode::SingleScreen(2));
    assert_eq!(jobs[0].output_path, "video-7-screen-02.mp4");
}

#[test]
fn generation_run_updates_statuses_and_summary() {
    let mut app = HistoryApp::new(Language::En);
    app.sources = vec![source_with_screens(1, &[1], true), source_with_screens(2, &[1], true)];
    let jobs = app.begin_generation();
    assert_eq!(jobs.len(), 2);
    assert!(app.generating);
    assert!(matches!(app.sources[0].status, SourceStatus::Generating { progress: None }));
    assert!(app.handle_event(GenerateEvent::Progress(1, VideoGenerationProgress::Encoding)));
    assert_eq!(app.status_message, "source-1: Encoding video");
    assert!(app.handle_event(GenerateEvent::Finished(1, Ok((5, 0)))));
    assert!(app.handle_event(GenerateEvent::Finished(2, Err("boom".to_string()))));
    assert!(!app.handle_event(GenerateEvent::AllDone));
    assert!(!app.generating);
    assert_eq!(app.batch_status_message(), app.status_message);
    assert!(app.status_message.contains(": 1"));
}

#[test]
fn nothing_selected_starts_no_run() {
    let mut app = HistoryApp::new(Language::En);
    app.sources = vec![source_with_screens(1, &[1], false)];
    assert!(app.begin_generation().is_empty());
    assert!(!app.generating);
}

#[test]
fn missing_screen_mode_falls_back_to_all_screens() {
    let mut app = HistoryApp::new(Language::ZhCn);
    app.sources = vec![source_with_screens(1, &[1], false)];
    app.generation_mode = VideoGenerationMode::SingleScreen(3);
    app.ensure_generation_mode_available();
    assert_eq!(app.generation_mode, VideoGenerationMode::MultiScreen);
    app.sources.push(source_with_screens(2, &[1, 4], false));
    assert_eq!(app.available_screen_indices(), vec![1, 4]);
}

#[test]
fn choose_video_images_keeps_screenshots_in_path_order() {
    let images = vec![
        "/d/b.png".to_string(),
        "/d/notes.txt".to_string(),
        "/d/a.jpg".to_string(),
    ];
    let (frames, format) = choose_video_images(images, ScreenshotFormat::Png).expect("frames");
    assert_eq!(frames, vec!["/d/a.jpg".to_string(), "/d/b.png".to_string()]);
    assert_eq!(format, ScreenshotFormat::Png);
    assert_eq!(choose_video_images(vec!["/d/x.txt".to_string()], ScreenshotFormat::Png), Err(VideoError::NoImages));
}

#[test]
fn frames_are_numbered_in_six_digits() {
    assert_eq!(frame_file_name(7, ScreenshotFormat::Jpg), "frame_000007.jpg");
    let plan = frame_plan(&vec!["/d/a.jpg".to_string(), "/d/b.png".to_string()], ScreenshotFormat::Png);
    assert_eq!(plan[0], ("frame_000000.png".to_string(), false));
    assert_eq!(plan[1], ("frame_000001.png".to_string(), true));
}

#[test]
fn ffmpeg_arguments_follow_codec() {
    let args = ffmpeg_arguments(0, VideoCodec::H265, "w/frame_%06d.png", "w/output.mp4");
    assert_eq!(args[2], "1");
    assert_eq!(args[8], "libx265");
    assert!(args.contains(&"hvc1".to_string()));
    assert_eq!(args.last().unwrap(), "w/output.mp4");
    let plain = ffmpeg_arguments(12, VideoCodec::H264, "p", "o");
    assert_eq!(plain.len(), 16);
}

#[test]
fn images_for_single_screen_mode_keep_that_screen_and_plain_names() {
    let names = vec![
        "/d/09-00-00.000-screen-01-000001.png".to_string(),
        "/d/09-00-00.000-screen-02-000001.png".to_string(),
        "/d/09-00-00.000-000002.png".to_string(),
        "/d/holiday.png".to_string(),
        "/d/notes.txt".to_string(),
    ];
    let single = images_for_mode(names.clone(), VideoGenerationMode::SingleScreen(2));
    assert_eq!(
        single,
        vec![
            "/d/09-00-00.000-screen-02-000001.png".to_string(),
            "/d/09-00-00.000-000002.png".to_string(),
            "/d/holiday.png".to_string(),
            "/d/notes.txt".to_string(),
        ]
    );
    assert_eq!(images_for_mode(names.clone(), VideoGenerationMode::MultiScreen), names);
}

#[test]
fn paths_sort_component_by_component() {
    let sorted = sort_paths(vec!["/a-b/x".to_string(), "/a/z".to_string(), "/a/y".to_string()]);
    assert_eq!(sorted, vec!["/a/y".to_string(), "/a/z".to_string(), "/a-b/x".to_string()]);
}

#[test]
fn sanitize_file_stem_is_stable_and_never_longer() {
    for value in ["Project Demo Folder", "///", "_a b_", "日报-1", "a__b", "x", "", "---"] {
        let once = sanitize_file_stem(value);
        assert_eq!(sanitize_file_stem(&once), once);
        assert!(once == "imported-folder" || once.chars().count() <= value.chars().count());
    }
}
