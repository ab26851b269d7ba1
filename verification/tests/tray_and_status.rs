use screen_recorder::about::AboutApp;
use screen_recorder::capture::{capture_report_message, CaptureReport};
use screen_recorder::config::{CaptureMode, Language};
use screen_recorder::fonts::{cjk_font_candidates, TargetOs};
use screen_recorder::history::external_video_path;
use screen_recorder::i18n::Text;
use screen_recorder::paths::AppPaths;
use screen_recorder::schedule::{tick_in_range, CaptureSchedule};
use screen_recorder::status::{AppEvent, LastCapture, TrayStatus};
use screen_recorder::temp::TempFileCleanup;
use screen_recorder::tray::{
    about_label, capture_source_item_label, capture_source_menu_label, command_for_menu_id,
    interval_item_label, refresh_sources_label, interval_menu_label, running_menu_label,
    tray_icon_rgba, AppCommand, TrayMenuIds, ICON_SIZE,
};
use screen_recorder::workdirs::{workdir_availability_label, WorkdirAvailability};

fn menu_ids() -> TrayMenuIds {
    TrayMenuIds {
        capture_now: "capture".to_string(),
        start_pause: "toggle".to_string(),
        interval_items: vec![
            (10, "i10".to_string()),
            (30, "i30".to_string()),
            (60, "i60".to_string()),
            (120, "i120".to_string()),
        ],
        capture_source_items: vec![
            (CaptureMode::Auto, "auto".to_string()),
            (CaptureMode::Screen(2), "screen2".to_string()),
        ],
        refresh_capture_sources: "refresh".to_string(),
        generate_video: "video".to_string(),
        history_videos: "history".to_string(),
        open_output_dir: "open".to_string(),
        language_items: vec![(Language::ZhCn, "zh".to_string()), (Language::En, "en".to_string())],
        about: "about".to_string(),
        quit: "quit".to_string(),
    }
}

fn report(saved: &[&str], failed: usize, target: usize, skipped: bool) -> CaptureReport {
    CaptureReport {
        saved_paths: saved.iter().map(|p| p.to_string()).collect(),
        previous_paths: Vec::new(),
        metadata_path: None,
        target_screen_count: target,
        failed_screen_count: failed,
        skipped_duplicate: skipped,
    }
}

#[test]
fn menu_ids_map_to_commands() {
    let ids = menu_ids();
    assert_eq!(command_for_menu_id("capture", &ids), Some(AppCommand::CaptureNow));
    assert_eq!(command_for_menu_id("toggle", &ids), Some(AppCommand::ToggleRunning));
    assert_eq!(command_for_menu_id("i60", &ids), Some(AppCommand::SetInterval(60)));
    assert_eq!(command_for_menu_id("i120", &ids), Some(AppCommand::SetInterval(120)));
    assert_eq!(command_for_menu_id("video", &ids), Some(AppCommand::GenerateTodayVideo));
    assert_eq!(command_for_menu_id("open", &ids), Some(AppCommand::OpenOutputDir));
    assert_eq!(command_for_menu_id("quit", &ids), Some(AppCommand::Quit));
    assert_eq!(command_for_menu_id("auto", &ids), Some(AppCommand::SetCaptureMode(CaptureMode::Auto)));
    assert_eq!(command_for_menu_id("screen2", &ids), Some(AppCommand::SetCaptureMode(CaptureMode::Screen(2))));
    assert_eq!(command_for_menu_id("refresh", &ids), Some(AppCommand::RefreshCaptureSources));
    assert_eq!(command_for_menu_id("history", &ids), Some(AppCommand::OpenHistoryVideos));
    assert_eq!(command_for_menu_id("en", &ids), Some(AppCommand::SetLanguage(Language::En)));
    assert_eq!(command_for_menu_id("about", &ids), Some(AppCommand::OpenAbout));
    assert_eq!(command_for_menu_id("other", &ids), None);
}

#[test]
fn capture_source_and_about_labels_follow_language() {
    assert_eq!(capture_source_item_label(Language::En, CaptureMode::Auto), "Auto (all screens)");
    assert_eq!(capture_source_item_label(Language::ZhCn, CaptureMode::Screen(2)), "屏幕 02");
    assert_eq!(capture_source_menu_label(Language::En, CaptureMode::Screen(3)), "🖥️ Capture Source: Screen 03");
    assert_eq!(refresh_sources_label(Language::En), "Refresh Screens");
    assert_eq!(about_label(Language::ZhCn), "ℹ️ 关于");
}

#[test]
fn tray_labels_follow_state() {
    assert_eq!(running_menu_label(true), "⏸ 暂停");
    assert_eq!(running_menu_label(false), "▶ 开始");
    assert_eq!(interval_menu_label(30), "⏱ 间隔 当前：30s");
    assert_eq!(interval_item_label(120), "120s");
}

#[test]
fn tray_icon_draws_a_camera() {
    let icon = tray_icon_rgba();
    let size = ICON_SIZE as usize;
    assert_eq!(icon.len(), size * size * 4);
    let pixel = |x: usize, y: usize| -> Vec<u8> { icon[(y * size + x) * 4..(y * size + x) * 4 + 4].to_vec() };
    let white = vec![255, 255, 255, 255];
    let clear = vec![0, 0, 0, 0];
    assert_eq!(pixel(0, 0), clear);
    assert_eq!(pixel(6, 8), white);
    assert_eq!(pixel(10, 12), clear);
    assert_eq!(pixel(13, 6), white);
    assert_eq!(pixel(16, 16), white);
    assert_eq!(pixel(31, 31), clear);
}

#[test]
fn schedule_captures_once_per_interval() {
    let mut schedule = CaptureSchedule::new(30, 0);
    assert!(schedule.tick(0, true, Some(30)));
    assert_eq!(schedule.next_capture_ms, 30_000);
    assert!(!schedule.tick(1_000, true, Some(30)));
    assert!(!schedule.tick(29_999, true, Some(30)));
    assert!(schedule.tick(30_000, true, Some(30)));
    assert_eq!(schedule.next_capture_ms, 60_000);
}

#[test]
fn schedule_resumes_with_an_immediate_capture() {
    let mut schedule = CaptureSchedule::new(30, 0);
    assert!(schedule.tick(0, true, Some(30)));
    assert!(!schedule.tick(5_000, false, Some(30)));
    assert_eq!(schedule.next_capture_ms, 5_000);
    assert!(schedule.tick(6_000, true, Some(30)));
}

#[test]
fn schedule_restarts_wait_when_interval_changes() {
    let mut schedule = CaptureSchedule::new(30, 0);
    assert!(schedule.tick(0, true, Some(30)));
    assert!(!schedule.tick(33_000, true, Some(60)));
    assert_eq!(schedule.last_interval, 60);
    assert_eq!(schedule.next_capture_ms, 93_000);
    assert!(schedule.tick(93_000, true, Some(60)));
}

#[test]
fn schedule_falls_back_to_default_without_config() {
    let mut schedule = CaptureSchedule::new(60, 0);
    assert!(!schedule.tick(40_000, true, None));
    assert_eq!(schedule.last_interval, 30);
    assert_eq!(schedule.next_capture_ms, 70_000);
}

#[test]
fn status_counts_saved_screenshots_and_notifies() {
    let mut status = TrayStatus::new();
    let note = status.handle_event(
        AppEvent::CaptureSucceeded { report: report(&["/tmp/a.png"], 0, 1, false), notify: true },
        Language::En,
    );
    let note = note.expect("notification");
    assert_eq!(note.title, "Screenshot Saved");
    assert_eq!(note.message, "Saved /tmp/a.png");
    assert_eq!(status.screenshot_count, 1);
    let note = status.handle_event(
        AppEvent::CaptureSucceeded {
            report: report(&["/d/x.png", "/d/y.png"], 0, 2, false),
            notify: false,
        },
        Language::En,
    );
    assert!(note.is_none());
    assert_eq!(status.screenshot_count, 3);
}

#[test]
fn status_failure_keeps_count_and_shows_reason() {
    let mut status = TrayStatus::new();
    let note = status
        .handle_event(
            AppEvent::CaptureFailed { message: "boom".to_string(), notify: true },
            Language::En,
        )
        .expect("notification");
    assert_eq!(note.title, "Screenshot Failed");
    assert_eq!(note.message, "boom");
    assert_eq!(status.screenshot_count, 0);
    assert!(matches!(status.last_capture, Some(LastCapture::Failed(_))));
    assert_eq!(status.last_capture_message(Language::En).as_deref(), Some("Failed: boom"));
    let tooltip = status.tooltip(Language::En, true, 30);
    assert_eq!(tooltip, Text::new(Language::En).status_tooltip(true, 30, 0, Some("Failed: boom")));
    assert!(tooltip.ends_with("Failed: boom"));
}

#[test]
fn status_without_captures_has_no_latest_message() {
    let status = TrayStatus::new();
    assert_eq!(status.last_capture_message(Language::ZhCn), None);
    assert_eq!(status.tooltip(Language::ZhCn, false, 10), Text::new(Language::ZhCn).status_tooltip(false, 10, 0, None));
}

#[test]
fn capture_report_message_covers_each_outcome() {
    let text = Text::new(Language::En);
    assert_eq!(capture_report_message(&text, &report(&["/d/a.png"], 0, 1, false)), "Saved /d/a.png");
    let skipped = capture_report_message(&text, &report(&[], 0, 1, true));
    assert_eq!(skipped, text.skipped_duplicate_capture());
    let several = capture_report_message(&text, &report(&["/d/a.png", "/d/b.png"], 1, 3, false));
    assert_eq!(
        several,
        format!("{}; {}", text.saved_screenshots(2, "/d"), text.partial_capture_failed(1, 3))
    );
}

#[test]
fn external_video_path_avoids_existing_file() {
    assert_eq!(external_video_path("/v", "My Folder!", "20240101-101010", false), "/v/My_Folder.mp4");
    assert_eq!(
        external_video_path("/v", "My Folder!", "20240101-101010", true),
        "/v/My_Folder-20240101-101010.mp4"
    );
    assert_eq!(external_video_path("/v/", "???", "t", false), "/v/imported-folder.mp4");
}

#[test]
fn workdir_availability_labels_in_both_languages() {
    let en = Text::new(Language::En);
    let zh = Text::new(Language::ZhCn);
    assert_eq!(workdir_availability_label(&en, WorkdirAvailability::Trashed), "In trash");
    assert_eq!(workdir_availability_label(&zh, WorkdirAvailability::Missing), "不存在");
}

#[test]
fn font_candidates_per_system() {
    let mac = cjk_font_candidates(TargetOs::MacOs);
    assert_eq!(mac.len(), 3);
    assert_eq!(mac[0], "/System/Library/Fonts/STHeiti Medium.ttc");
    let windows = cjk_font_candidates(TargetOs::Windows);
    assert_eq!(windows[0], "C:\\Windows\\Fonts\\msyh.ttc");
}

#[test]
fn about_window_shows_display_paths() {
    let paths = AppPaths::from_control_and_root(
        r"\\?\C:\Control".to_string(),
        r"\\?\C:\Data".to_string(),
    );
    let about = AboutApp::new(paths, Language::En);
    assert_eq!(about.text().language, Language::En);
    assert!(about.status_message.is_empty());
    let (root, config) = about.shown_locations();
    assert_eq!(root, r"C:\Data");
    assert_eq!(config, r"C:\Data/config.json");
}

#[test]
fn temp_file_cleanup_until_disarmed() {
    let mut cleanup = TempFileCleanup::new("/tmp/x.tmp".to_string());
    assert!(cleanup.should_remove());
    cleanup.disarm();
    assert!(!cleanup.should_remove());
}

#[test]
fn schedule_range_check_guards_the_clock() {
    assert!(tick_in_range(0, true, Some(30)));
    assert!(tick_in_range(u64::MAX, false, Some(30)));
    assert!(!tick_in_range(u64::MAX - 10, true, Some(30)));
    assert!(!tick_in_range(0, true, Some(u64::MAX)));
    assert!(!tick_in_range(u64::MAX - 10, true, None));
}
