use screen_recorder::pathutil::{file_name_chars, parent_chars};
use screen_recorder::naming::screenshot_format_for_path;
use screen_recorder::config::ScreenshotFormat;
use screen_recorder::logging::{rotate_logs, rotated_log_path, should_rotate_log, RotationStep, MAX_LOG_BYTES};
use screen_recorder::paths::{display_path, format_path_for_display, AppPaths};
use screen_recorder::platform::{
    backup_path, escape_applescript_string, escape_powershell_single_quoted, screen_locked,
    session_flags_indicate_locked, WTS_SESSIONSTATE_LOCK, WTS_SESSIONSTATE_UNKNOWN,
    WTS_SESSIONSTATE_UNLOCK,
};
use screen_recorder::single_instance::{lock_file_contents, parse_lock_pid, InstanceKind};

#[test]
fn display_path_strips_windows_verbatim_drive_prefix() {
    assert_eq!(
        format_path_for_display(r"\\?\C:\Users\hang\ScreenRecorder"),
        r"C:\Users\hang\ScreenRecorder"
    );
}

#[test]
fn display_path_strips_windows_verbatim_unc_prefix() {
    assert_eq!(
        format_path_for_display(r"\\?\UNC\server\share\ScreenRecorder"),
        r"\\server\share\ScreenRecorder"
    );
}

#[test]
fn display_path_keeps_plain_paths() {
    assert_eq!(display_path("/Users/hang/ScreenRecorder"), "/Users/hang/ScreenRecorder");
}

#[test]
fn from_control_and_root_places_work_subdirectories_under_root() {
    let paths = AppPaths::from_control_and_root("/ctl".to_string(), "/data/root".to_string());
    assert_eq!(paths.screenshots, "/data/root/screenshots");
    assert_eq!(paths.videos, "/data/root/videos");
    assert_eq!(paths.config, "/data/root/config.json");
    assert_eq!(paths.screenshots_dir_for_date("2026-05-30"), "/data/root/screenshots/2026-05-30");
    assert_eq!(paths.video_path_for_date("2026-05-30"), "/data/root/videos/2026-05-30.mp4");
}

#[test]
fn session_flags_treat_lock_as_locked() {
    assert!(session_flags_indicate_locked(WTS_SESSIONSTATE_LOCK));
}

#[test]
fn session_flags_treat_unlock_as_unlocked() {
    assert!(!session_flags_indicate_locked(WTS_SESSIONSTATE_UNLOCK));
}

#[test]
fn session_flags_treat_unknown_as_locked() {
    assert!(session_flags_indicate_locked(WTS_SESSIONSTATE_UNKNOWN));
}

#[test]
fn session_flags_treat_unexpected_value_as_locked() {
    assert!(session_flags_indicate_locked(42));
}

#[test]
fn unreadable_session_counts_as_locked() {
    assert!(screen_locked(None));
    assert!(!screen_locked(Some(WTS_SESSIONSTATE_UNLOCK)));
}

#[test]
fn escapes_notification_text() {
    assert_eq!(escape_applescript_string("a\\b\"c\nd"), "a\\\\b\\\"c\\nd");
    assert_eq!(escape_powershell_single_quoted("it's"), "it''s");
}

#[test]
fn backup_path_sits_beside_the_file() {
    assert_eq!(backup_path("/data/config.json"), "/data/config.json.bak");
    assert_eq!(backup_path("config.json"), "config.json.bak");
}

#[test]
fn should_rotate_log_only_when_file_exceeds_limit() {
    assert!(!should_rotate_log(None));
    assert!(!should_rotate_log(Some(MAX_LOG_BYTES)));
    assert!(should_rotate_log(Some(MAX_LOG_BYTES + 1)));
}

#[test]
fn rotation_moves_each_log_back() {
    assert!(rotate_logs("/logs", Some(10)).is_empty());
    let steps = rotate_logs("/logs", Some(MAX_LOG_BYTES + 1));
    assert_eq!(steps.len(), 4);
    match &steps[0] {
        RotationStep::RemoveIfPresent(p) => assert_eq!(p, "/logs/app.log.3"),
        other => panic!("unexpected step {:?}", other),
    }
    match &steps[3] {
        RotationStep::Rename(a, b) => {
            assert_eq!(a, "/logs/app.log");
            assert_eq!(b, "/logs/app.log.1");
        }
        other => panic!("unexpected step {:?}", other),
    }
    assert_eq!(rotated_log_path("/logs", 2), "/logs/app.log.2");
}

#[test]
fn lock_files_name_their_owner() {
    assert_eq!(InstanceKind::History.lock_file_name(), "screen-recorder-history.lock");
    assert_eq!(parse_lock_pid("pid=4242\n"), Some(4242));
    assert_eq!(parse_lock_pid("owner\npid= 17 \n"), Some(17));
    assert_eq!(parse_lock_pid("pid=abc\npid=5\n"), None);
    assert_eq!(parse_lock_pid(""), None);
}

#[test]
fn lock_file_contents_read_back_as_owner() {
    assert_eq!(lock_file_contents(4242), "pid=4242\n");
    assert_eq!(parse_lock_pid(&lock_file_contents(0)), Some(0));
    assert_eq!(parse_lock_pid(&lock_file_contents(u32::MAX)), Some(u32::MAX));
}

fn chars(s: &str) -> Vec<char> {
    s.chars().collect()
}

fn text(v: Option<Vec<char>>) -> Option<String> {
    v.map(|c| c.into_iter().collect())
}

#[test]
fn path_names_and_parents_follow_std_components() {
    for path in [
        "x/shot.png/", "a/b/", "a/./b", "a/b/.", "./a", "a", ".", "..", "a/..", "/", "/a", "//a",
        "", "a//b//", ".//.", "/.",
    ] {
        let p = std::path::Path::new(path);
        let name = p.file_name().map(|n| n.to_str().unwrap().to_string());
        let parent = p.parent().map(|n| n.to_str().unwrap().to_string());
        assert_eq!(text(file_name_chars(&chars(path))), name, "name of {path:?}");
        assert_eq!(text(parent_chars(&chars(path))), parent, "parent of {path:?}");
    }
    assert_eq!(text(file_name_chars(&chars("x/shot.png/"))), Some("shot.png".to_string()));
    assert_eq!(text(parent_chars(&chars("a/b/"))), Some("a".to_string()));
}

#[test]
fn a_trailing_separator_does_not_hide_the_format() {
    assert_eq!(screenshot_format_for_path("x/shot.png/"), Some(ScreenshotFormat::Png));
}
