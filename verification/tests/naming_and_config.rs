use screen_recorder::config::{CaptureMode, Language, ScreenshotFormat, VideoCodec};
use screen_recorder::i18n::{bundle_for_language, Text};
use screen_recorder::naming::{
    metadata_path_for_screenshot, multi_screen_metadata_file_name, parse_screenshot_file_name,
    screenshot_file_name, screenshot_format_for_path, ScreenshotName,
};
use std::collections::HashSet;

#[test]
fn screenshot_format_for_path_accepts_supported_extensions() {
    assert_eq!(screenshot_format_for_path("screen.PNG"), Some(ScreenshotFormat::Png));
    assert_eq!(screenshot_format_for_path("screen.jpg"), Some(ScreenshotFormat::Jpg));
    assert_eq!(screenshot_format_for_path("screen.JPEG"), Some(ScreenshotFormat::Jpg));
}

#[test]
fn screenshot_format_for_path_rejects_unknown_extensions() {
    assert_eq!(screenshot_format_for_path("screen.gif"), None);
    assert_eq!(screenshot_format_for_path("screen"), None);
}

#[test]
fn single_screenshot_file_name_keeps_existing_format() {
    assert_eq!(
        screenshot_file_name("14-03-22.184", None, 512, ScreenshotFormat::Png),
        "14-03-22.184-000512.png"
    );
}

#[test]
fn multi_screen_screenshot_file_name_uses_screen_index() {
    assert_eq!(
        screenshot_file_name("14-03-22.184", Some(2), 512, ScreenshotFormat::Jpg),
        "14-03-22.184-screen-02-000512.jpg"
    );
}

#[test]
fn multi_screen_metadata_file_name_uses_batch_sequence() {
    assert_eq!(
        multi_screen_metadata_file_name("14-03-22.184", 512),
        "14-03-22.184-000512.screens.json"
    );
}

#[test]
fn parse_screenshot_file_name_accepts_legacy_single_screen() {
    assert_eq!(
        parse_screenshot_file_name("14-03-22.184-000512.png"),
        Some(ScreenshotName::Single { timestamp: "14-03-22.184".to_string(), sequence: 512 })
    );
}

#[test]
fn parse_screenshot_file_name_accepts_multi_screen() {
    assert_eq!(
        parse_screenshot_file_name("14-03-22.184-screen-02-000512.jpg"),
        Some(ScreenshotName::MultiScreen {
            timestamp: "14-03-22.184".to_string(),
            screen_index: 2,
            sequence: 512,
        })
    );
}

#[test]
fn parse_screenshot_file_name_rejects_nonstandard_names() {
    assert_eq!(parse_screenshot_file_name("external.png"), None);
    assert_eq!(parse_screenshot_file_name("14-03-22.184-screen-00-000512.png"), None);
    assert_eq!(parse_screenshot_file_name("14-03-22.184-screen-1-000512.png"), None);
    assert_eq!(parse_screenshot_file_name("14-03-22.184-screen-01-000512-extra.png"), None);
}

#[test]
fn metadata_path_for_screenshot_uses_matching_batch() {
    assert_eq!(
        metadata_path_for_screenshot("/tmp/14-03-22.184-screen-02-000512.png"),
        Some("/tmp/14-03-22.184-000512.screens.json".to_string())
    );
}

#[test]
fn parse_screenshot_file_name_reads_back_written_names() {
    let single = screenshot_file_name("09-10-11.012", None, 3, ScreenshotFormat::Jpg);
    assert_eq!(
        parse_screenshot_file_name(&single),
        Some(ScreenshotName::Single { timestamp: "09-10-11.012".to_string(), sequence: 3 })
    );
    let multi = screenshot_file_name("09-10-11.012", Some(7), 999999, ScreenshotFormat::Png);
    assert_eq!(
        parse_screenshot_file_name(&multi),
        Some(ScreenshotName::MultiScreen {
            timestamp: "09-10-11.012".to_string(),
            screen_index: 7,
            sequence: 999999,
        })
    );
}

#[test]
fn metadata_path_for_single_screen_name_uses_its_batch() {
    assert_eq!(
        metadata_path_for_screenshot("/tmp/14-03-22.184-000512.png"),
        Some("/tmp/14-03-22.184-000512.screens.json".to_string())
    );
    assert_eq!(metadata_path_for_screenshot("/tmp/notes.png"), None);
}

#[test]
fn capture_mode_parses_known_values() {
    assert_eq!(CaptureMode::from_config("auto"), CaptureMode::Auto);
    assert_eq!(CaptureMode::from_config("screen-01"), CaptureMode::Screen(1));
    assert_eq!(CaptureMode::from_config("screen-2"), CaptureMode::Screen(2));
    assert_eq!(CaptureMode::from_config("screen-00"), CaptureMode::Auto);
    assert_eq!(CaptureMode::from_config("unknown"), CaptureMode::Auto);
    assert_eq!(CaptureMode::Screen(12).config_value(), "screen-12");
}

#[test]
fn capture_mode_value_reads_back() {
    assert_eq!(CaptureMode::from_config(&CaptureMode::Screen(3).config_value()), CaptureMode::Screen(3));
    assert_eq!(CaptureMode::from_config(&CaptureMode::Auto.config_value()), CaptureMode::Auto);
}

#[test]
fn screenshot_format_parses_known_values() {
    assert_eq!(ScreenshotFormat::from_config("jpg"), ScreenshotFormat::Jpg);
    assert_eq!(ScreenshotFormat::from_config("JPEG"), ScreenshotFormat::Jpg);
    assert_eq!(ScreenshotFormat::from_config("png"), ScreenshotFormat::Png);
    assert_eq!(ScreenshotFormat::from_config("unknown"), ScreenshotFormat::Png);
}

#[test]
fn video_codec_parses_known_values() {
    assert_eq!(VideoCodec::from_config("h265"), VideoCodec::H265);
    assert_eq!(VideoCodec::from_config("hevc"), VideoCodec::H265);
    assert_eq!(VideoCodec::from_config("libx265"), VideoCodec::H265);
    assert_eq!(VideoCodec::from_config("h264"), VideoCodec::H264);
    assert_eq!(VideoCodec::from_config("unknown"), VideoCodec::H264);
}

#[test]
fn language_parses_known_values() {
    assert_eq!(Language::from_config("zh-CN"), Language::ZhCn);
    assert_eq!(Language::from_config("zh"), Language::ZhCn);
    assert_eq!(Language::from_config("en"), Language::En);
    assert_eq!(Language::from_config("unknown"), Language::ZhCn);
}

#[test]
fn language_metadata_is_complete() {
    for language in Language::ALL {
        assert!(!language.config_value().is_empty());
        assert!(!language.menu_label().is_empty());
        assert!(language.config_aliases().contains(&language.config_value()));
    }
}

#[test]
fn config_language_config_values_are_unique() {
    for (index, language) in Language::ALL.iter().enumerate() {
        for other in &Language::ALL[index + 1..] {
            assert_ne!(language.config_value(), other.config_value());
        }
    }
}

#[test]
fn every_language_has_metadata_and_bundle() {
    for language in Language::ALL.iter() {
        assert!(!language.config_value().is_empty());
        assert!(!language.menu_label().is_empty());
        assert!(!bundle_for_language(*language).capture_now.is_empty());
        assert!(!bundle_for_language(*language).screen_capture_permission_body.is_empty());
    }
}

#[test]
fn i18n_language_config_values_are_unique() {
    let mut values = HashSet::new();
    for language in Language::ALL {
        assert!(values.insert(language.config_value()));
    }
}

#[test]
fn status_tooltip_uses_chinese_text() {
    let tooltip = Text::new(Language::ZhCn).status_tooltip(true, 30, 2, Some("已保存 screen.png"));
    assert!(tooltip.contains("状态: 运行中"));
    assert!(tooltip.contains("间隔: 30s"));
    assert!(tooltip.contains("本次截图: 2"));
    assert!(tooltip.contains("最近: 已保存 screen.png"));
}

#[test]
fn status_tooltip_uses_english_text() {
    let tooltip = Text::new(Language::En).status_tooltip(false, 60, 3, Some("Saved screen.png"));
    assert!(tooltip.contains("Status: Paused"));
    assert!(tooltip.contains("Interval: 60s"));
    assert!(tooltip.contains("Screenshots this session: 3"));
    assert!(tooltip.contains("Latest: Saved screen.png"));
}

#[test]
fn status_tooltip_without_capture_shows_placeholder() {
    let tooltip = Text::new(Language::ZhCn).status_tooltip(false, 10, 0, None);
    assert!(tooltip.contains("状态: 已暂停"));
    assert!(tooltip.contains("最近: 暂无截图"));
}

#[test]
fn status_tooltip_includes_runtime_state() {
    let tooltip = screen_recorder::tray::status_tooltip(true, 30, 2, Some("已保存 screen.png"));
    assert!(tooltip.contains("状态: 运行中"));
    assert!(tooltip.contains("间隔: 30s"));
    assert!(tooltip.contains("本次截图: 2"));
    assert!(tooltip.contains("最近: 已保存 screen.png"));
}

#[test]
fn every_alias_reads_back_as_its_language_in_any_case() {
    for language in Language::ALL {
        for alias in language.config_aliases() {
            assert_eq!(Language::from_config(alias), language);
            assert_eq!(Language::from_config(&alias.to_ascii_uppercase()), language);
        }
    }
    assert_eq!(Language::from_config("ZH-CN"), Language::ZhCn);
    assert_eq!(Language::from_config(" EN_US "), Language::En);
}

#[test]
fn config_text_reads_as_its_trimmed_lowercase_form() {
    for text in ["  SCREEN-02 ", "Auto", "\tJPEG\n", " HEVC", "En-Us", "screen-x", ""] {
        let key = text.trim().to_ascii_lowercase();
        assert_eq!(CaptureMode::from_config(text), CaptureMode::from_config(&key));
        assert_eq!(Language::from_config(text), Language::from_config(&key));
        assert_eq!(ScreenshotFormat::from_config(text), ScreenshotFormat::from_config(&key));
        assert_eq!(VideoCodec::from_config(text), VideoCodec::from_config(&key));
    }
    assert_eq!(CaptureMode::from_config("  SCREEN-02 "), CaptureMode::Screen(2));
}

#[test]
fn written_extension_is_recognised_as_its_format() {
    for format in [ScreenshotFormat::Png, ScreenshotFormat::Jpg] {
        let name = format!("x.{}", format.extension());
        assert_eq!(screenshot_format_for_path(&name), Some(format));
        assert_eq!(ScreenshotFormat::from_config(format.extension()), format);
    }
}

#[test]
fn every_interface_text_is_non_empty() {
    for language in Language::ALL {
        let b = bundle_for_language(language);
        for text in [
            b.capture_now, b.start, b.pause, b.interval_menu_prefix, b.generate_today_video,
            b.open_output_dir, b.language_menu, b.quit, b.status_running, b.status_paused,
            b.no_screenshots, b.screen_capture_permission_title, b.screen_capture_permission_body,
        ] {
            assert!(!text.is_empty());
        }
    }
    assert_eq!(Text::new(Language::En).capture_now(), "📷 Capture Now");
    assert_eq!(Text::new(Language::ZhCn).capture_now(), "📷 截一张");
}
