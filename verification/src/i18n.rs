//! The interface texts in each supported language, and the messages built
//! from them: menu labels, tray tooltip, notifications and the history
//! window's labels.

use vstd::prelude::*;
use crate::config::{language_aliases, language_label, Language};
use crate::textutil::{decimal, push_decimal, push_str, string_of, zero_pad};

verus! {

/// The application's display name.
pub const APP_NAME: &'static str = "Screen Recorder";

/// The texts of one language.
pub struct TextBundle {
    pub capture_now: &'static str,
    pub start: &'static str,
    pub pause: &'static str,
    pub interval_menu_prefix: &'static str,
    pub generate_today_video: &'static str,
    pub open_output_dir: &'static str,
    pub language_menu: &'static str,
    pub quit: &'static str,
    pub status_running: &'static str,
    pub status_paused: &'static str,
    pub no_screenshots: &'static str,
    pub tooltip_status_label: &'static str,
    pub tooltip_interval_label: &'static str,
    pub tooltip_count_label: &'static str,
    pub tooltip_latest_label: &'static str,
    pub saved_capture_prefix: &'static str,
    pub failed_capture_prefix: &'static str,
    pub saved_to_prefix: &'static str,
    pub capture_success_title: &'static str,
    pub capture_failed_title: &'static str,
    pub output_dir_failed_title: &'static str,
    pub history_videos: &'static str,
    pub refresh: &'static str,
    pub add_folder: &'static str,
    pub generate_selected: &'static str,
    pub cancel: &'static str,
    pub cancelling: &'static str,
    pub open_videos_folder: &'static str,
    pub date_or_folder: &'static str,
    pub images: &'static str,
    pub video: &'static str,
    pub status: &'static str,
    pub ready: &'static str,
    pub unavailable: &'static str,
    pub failed: &'static str,
    pub no_available_images: &'static str,
    pub exists_label: &'static str,
    pub missing: &'static str,
    pub generating: &'static str,
    pub done: &'static str,
    pub scanning: &'static str,
    pub processing_frames_prefix: &'static str,
    pub encoding: &'static str,
    pub finishing: &'static str,
    pub selected_count_prefix: &'static str,
    pub selected_count_suffix: &'static str,
    pub frames_label: &'static str,
    pub skipped_label: &'static str,
    pub output: &'static str,
    pub selected_folders: &'static str,
    pub no_selection: &'static str,
    pub video_generating_title: &'static str,
    pub video_generating_body: &'static str,
    pub video_success_title: &'static str,
    pub video_failed_title: &'static str,
    pub about_failed_title: &'static str,
    pub config_read_failed_prefix: &'static str,
    pub background_task_failed_title: &'static str,
    pub screen_capture_permission_title: &'static str,
    pub screen_capture_permission_body: &'static str,
}

/// The `capture now` text of each language.
pub open spec fn capture_now_text(language: Language) -> Seq<char> {
    match language {
        Language::ZhCn => "📷 截一张"@,
        Language::En => "📷 Capture Now"@,
    }
}

/// The `start` text of each language.
pub open spec fn start_text(language: Language) -> Seq<char> {
    match language {
        Language::ZhCn => "▶ 开始"@,
        Language::En => "▶ Start"@,
    }
}

/// The `pause` text of each language.
pub open spec fn pause_text(language: Language) -> Seq<char> {
    match language {
        Language::ZhCn => "⏸ 暂停"@,
        Language::En => "⏸ Pause"@,
    }
}

/// The `interval menu prefix` text of each language.
pub open spec fn interval_menu_prefix_text(language: Language) -> Seq<char> {
    match language {
        Language::ZhCn => "⏱ 间隔 当前："@,
        Language::En => "⏱ Interval: "@,
    }
}

/// The `generate today video` text of each language.
pub open spec fn generate_today_video_text(language: Language) -> Seq<char> {
    match language {
        Language::ZhCn => "🎬 生成今日视频"@,
        Language::En => "🎬 Generate Today's Video"@,
    }
}

/// The `open output dir` text of each language.
pub open spec fn open_output_dir_text(language: Language) -> Seq<char> {
    match language {
        Language::ZhCn => "📁 打开保存目录"@,
        Language::En => "📁 Open Save Folder"@,
    }
}

/// The `language menu` text of each language.
pub open spec fn language_menu_text(language: Language) -> Seq<char> {
    match language {
        Language::ZhCn => "🌐 语言"@,
        Language::En => "🌐 Language"@,
    }
}

/// The `quit` text of each language.
pub open spec fn quit_text(language: Language) -> Seq<char> {
    match language {
        Language::ZhCn => "❌ 退出"@,
        Language::En => "❌ Quit"@,
    }
}

/// The `status running` text of each language.
pub open spec fn status_running_text(language: Language) -> Seq<char> {
    match language {
        Language::ZhCn => "运行中"@,
        Language::En => "Running"@,
    }
}

/// The `status paused` text of each language.
pub open spec fn status_paused_text(language: Language) -> Seq<char> {
    match language {
        Language::ZhCn => "已暂停"@,
        Language::En => "Paused"@,
    }
}

/// The `no screenshots` text of each language.
pub open spec fn no_screenshots_text(language: Language) -> Seq<char> {
    match language {
        Language::ZhCn => "暂无截图"@,
        Language::En => "No screenshots yet"@,
    }
}

/// The `tooltip status label` text of each language.
pub open spec fn tooltip_status_label_text(language: Language) -> Seq<char> {
    match language {
        Language::ZhCn => "状态"@,
        Language::En => "Status"@,
    }
}

/// The `tooltip interval label` text of each language.
pub open spec fn tooltip_interval_label_text(language: Language) -> Seq<char> {
    match language {
        Language::ZhCn => "间隔"@,
        Language::En => "Interval"@,
    }
}

/// The `tooltip count label` text of each language.
pub open spec fn tooltip_count_label_text(language: Language) -> Seq<char> {
    match language {
        Language::ZhCn => "本次截图"@,
        Language::En => "Screenshots this session"@,
    }
}

/// The `tooltip latest label` text of each language.
pub open spec fn tooltip_latest_label_text(language: Language) -> Seq<char> {
    match language {
        Language::ZhCn => "最近"@,
        Language::En => "Latest"@,
    }
}

/// The `saved capture prefix` text of each language.
pub open spec fn saved_capture_prefix_text(language: Language) -> Seq<char> {
    match language {
        Language::ZhCn => "已保存"@,
        Language::En => "Saved"@,
    }
}

/// The `failed capture prefix` text of each language.
pub open spec fn failed_capture_prefix_text(language: Language) -> Seq<char> {
    match language {
        Language::ZhCn => "失败"@,
        Language::En => "Failed"@,
    }
}

/// The `saved to prefix` text of each language.
pub open spec fn saved_to_prefix_text(language: Language) -> Seq<char> {
    match language {
        Language::ZhCn => "已保存到"@,
        Language::En => "Saved to"@,
    }
}

/// The `capture success title` text of each language.
pub open spec fn capture_success_title_text(language: Language) -> Seq<char> {
    match language {
        Language::ZhCn => "截图成功"@,
        Language::En => "Screenshot Saved"@,
    }
}

/// The `capture failed title` text of each language.
pub open spec fn capture_failed_title_text(language: Language) -> Seq<char> {
    match language {
        Language::ZhCn => "截图失败"@,
        Language::En => "Screenshot Failed"@,
    }
}

/// The `output dir failed title` text of each language.
pub open spec fn output_dir_failed_title_text(language: Language) -> Seq<char> {
    match language {
        Language::ZhCn => "打开保存目录失败"@,
        Language::En => "Failed to Open Save Folder"@,
    }
}

/// The `history videos` text of each language.
pub open spec fn history_videos_text(language: Language) -> Seq<char> {
    match language {
        Language::ZhCn => "历史视频"@,
        Language::En => "History Videos"@,
    }
}

/// The `refresh` text of each language.
pub open spec fn refresh_text(language: Language) -> Seq<char> {
    match language {
        Language::ZhCn => "刷新"@,
        Language::En => "Refresh"@,
    }
}

/// The `add folder` text of each language.
pub open spec fn add_folder_text(language: Language) -> Seq<char> {
    match language {
        Language::ZhCn => "添加文件夹"@,
        Language::En => "Add Folder"@,
    }
}

/// The `generate selected` text of each language.
pub open spec fn generate_selected_text(language: Language) -> Seq<char> {
    match language {
        Language::ZhCn => "生成选中项"@,
        Language::En => "Generate Selected"@,
    }
}

/// The `cancel` text of each language.
pub open spec fn cancel_text(language: Language) -> Seq<char> {
    match language {
        Language::ZhCn => "取消"@,
        Language::En => "Cancel"@,
    }
}

/// The `cancelling` text of each language.
pub open spec fn cancelling_text(language: Language) -> Seq<char> {
    match language {
        Language::ZhCn => "正在取消..."@,
        Language::En => "Cancelling..."@,
    }
}

/// The `open videos folder` text of each language.
pub open spec fn open_videos_folder_text(language: Language) -> Seq<char> {
    match language {
        Language::ZhCn => "打开视频目录"@,
        Language::En => "Open Videos Folder"@,
    }
}

/// The `date or folder` text of each language.
pub open spec fn date_or_folder_text(language: Language) -> Seq<char> {
    match language {
        Language::ZhCn => "日期 / 文件夹"@,
        Language::En => "Date / Folder"@,
    }
}

/// The `images` text of each language.
pub open spec fn images_text(language: Language) -> Seq<char> {
    match language {
        Language::ZhCn => "图片"@,
        Language::En => "Images"@,
    }
}

/// The `video` text of each language.
pub open spec fn video_text(language: Language) -> Seq<char> {
    match language {
        Language::ZhCn => "视频"@,
        Language::En => "Video"@,
    }
}

/// The `status` text of each language.
pub open spec fn status_text(language: Language) -> Seq<char> {
    match language {
        Language::ZhCn => "状态"@,
        Language::En => "Status"@,
    }
}

/// The `ready` text of each language.
pub open spec fn ready_text(language: Language) -> Seq<char> {
    match language {
        Language::ZhCn => "就绪"@,
        Language::En => "Ready"@,
    }
}

/// The `unavailable` text of each language.
pub open spec fn unavailable_text(language: Language) -> Seq<char> {
    match language {
        Language::ZhCn => "不可用"@,
        Language::En => "Unavailable"@,
    }
}

/// The `failed` text of each language.
pub open spec fn failed_text(language: Language) -> Seq<char> {
    match language {
        Language::ZhCn => "失败"@,
        Language::En => "Failed"@,
    }
}

/// The `no available images` text of each language.
pub open spec fn no_available_images_text(language: Language) -> Seq<char> {
    match language {
        Language::ZhCn => "无可用图片"@,
        Language::En => "No available images"@,
    }
}

/// The `exists` text of each language.
pub open spec fn exists_label_text(language: Language) -> Seq<char> {
    match language {
        Language::ZhCn => "已存在"@,
        Language::En => "Exists"@,
    }
}

/// The `missing` text of each language.
pub open spec fn missing_text(language: Language) -> Seq<char> {
    match language {
        Language::ZhCn => "未生成"@,
        Language::En => "Missing"@,
    }
}

/// The `generating` text of each language.
pub open spec fn generating_text(language: Language) -> Seq<char> {
    match language {
        Language::ZhCn => "生成中"@,
        Language::En => "Generating"@,
    }
}

/// The `done` text of each language.
pub open spec fn done_text(language: Language) -> Seq<char> {
    match language {
        Language::ZhCn => "完成"@,
        Language::En => "Done"@,
    }
}

/// The `scanning` text of each language.
pub open spec fn scanning_text(language: Language) -> Seq<char> {
    match language {
        Language::ZhCn => "扫描图片"@,
        Language::En => "Scanning images"@,
    }
}

/// The `processing frames prefix` text of each language.
pub open spec fn processing_frames_prefix_text(language: Language) -> Seq<char> {
    match language {
        Language::ZhCn => "处理帧"@,
        Language::En => "Processing frames"@,
    }
}

/// The `encoding` text of each language.
pub open spec fn encoding_text(language: Language) -> Seq<char> {
    match language {
        Language::ZhCn => "编码视频"@,
        Language::En => "Encoding video"@,
    }
}

/// The `finishing` text of each language.
pub open spec fn finishing_text(language: Language) -> Seq<char> {
    match language {
        Language::ZhCn => "写入视频"@,
        Language::En => "Writing video"@,
    }
}

/// The `selected count prefix` text of each language.
pub open spec fn selected_count_prefix_text(language: Language) -> Seq<char> {
    match language {
        Language::ZhCn => "已选 "@,
        Language::En => ""@,
    }
}

/// The `selected count suffix` text of each language.
pub open spec fn selected_count_suffix_text(language: Language) -> Seq<char> {
    match language {
        Language::ZhCn => " 项"@,
        Language::En => " selected"@,
    }
}

/// The `frames label` text of each language.
pub open spec fn frames_label_text(language: Language) -> Seq<char> {
    match language {
        Language::ZhCn => "帧"@,
        Language::En => "frames"@,
    }
}

/// The `skipped label` text of each language.
pub open spec fn skipped_label_text(language: Language) -> Seq<char> {
    match language {
        Language::ZhCn => "跳过"@,
        Language::En => "skipped"@,
    }
}

/// The `output` text of each language.
pub open spec fn output_text(language: Language) -> Seq<char> {
    match language {
        Language::ZhCn => "输出"@,
        Language::En => "Output"@,
    }
}

/// The `selected folders` text of each language.
pub open spec fn selected_folders_text(language: Language) -> Seq<char> {
    match language {
        Language::ZhCn => "选中文件夹"@,
        Language::En => "Selected Folders"@,
    }
}

/// The `no selection` text of each language.
pub open spec fn no_selection_text(language: Language) -> Seq<char> {
    match language {
        Language::ZhCn => "未选择"@,
        Language::En => "No selection"@,
    }
}

/// The `video generating title` text of each language.
pub open spec fn video_generating_title_text(language: Language) -> Seq<char> {
    match language {
        Language::ZhCn => "视频生成中"@,
        Language::En => "Video Generation Running"@,
    }
}

/// The `video generating body` text of each language.
pub open spec fn video_generating_body_text(language: Language) -> Seq<char> {
    match language {
        Language::ZhCn => "已有视频生成任务正在运行。"@,
        Language::En => "A video generation task is already running."@,
    }
}

/// The `video success title` text of each language.
pub open spec fn video_success_title_text(language: Language) -> Seq<char> {
    match language {
        Language::ZhCn => "视频生成成功"@,
        Language::En => "Video Generated"@,
    }
}

/// The `about failed title` text of each language.
pub open spec fn about_failed_title_text(language: Language) -> Seq<char> {
    match language {
        Language::ZhCn => "无法打开关于窗口"@,
        Language::En => "Could Not Open About"@,
    }
}

/// The `video failed title` text of each language.
pub open spec fn video_failed_title_text(language: Language) -> Seq<char> {
    match language {
        Language::ZhCn => "视频生成失败"@,
        Language::En => "Video Generation Failed"@,
    }
}

/// The `config read failed prefix` text of each language.
pub open spec fn config_read_failed_prefix_text(language: Language) -> Seq<char> {
    match language {
        Language::ZhCn => "读取配置失败"@,
        Language::En => "Failed to read config"@,
    }
}

/// The `background task failed title` text of each language.
pub open spec fn background_task_failed_title_text(language: Language) -> Seq<char> {
    match language {
        Language::ZhCn => "后台任务异常退出"@,
        Language::En => "Background Task Failed"@,
    }
}

/// The `screen capture permission title` text of each language.
pub open spec fn screen_capture_permission_title_text(language: Language) -> Seq<char> {
    match language {
        Language::ZhCn => "截屏权限不足"@,
        Language::En => "Screen Recording Permission Required"@,
    }
}

/// The `screen capture permission body` text of each language.
pub open spec fn screen_capture_permission_body_text(language: Language) -> Seq<char> {
    match language {
        Language::ZhCn => "无法读取屏幕内容，请在系统设置中允许屏幕录制权限。"@,
        Language::En => "Unable to read the screen. Please allow screen recording permission in System Settings."@,
    }
}

/// Every interface text of every language is non-empty, but for the
/// English prefix of the selected-count line, which is empty by design
/// (the count comes first there); the language itself has a non-empty
/// stored name and menu label.
pub proof fn lemma_texts_non_empty(language: Language)
    ensures
        language_aliases(language)[0].len() > 0,
        language_label(language).len() > 0,
        capture_now_text(language).len() > 0,
        start_text(language).len() > 0,
        pause_text(language).len() > 0,
        interval_menu_prefix_text(language).len() > 0,
        generate_today_video_text(language).len() > 0,
        open_output_dir_text(language).len() > 0,
        language_menu_text(language).len() > 0,
        quit_text(language).len() > 0,
        status_running_text(language).len() > 0,
        status_paused_text(language).len() > 0,
        no_screenshots_text(language).len() > 0,
        tooltip_status_label_text(language).len() > 0,
        tooltip_interval_label_text(language).len() > 0,
        tooltip_count_label_text(language).len() > 0,
        tooltip_latest_label_text(language).len() > 0,
        saved_capture_prefix_text(language).len() > 0,
        failed_capture_prefix_text(language).len() > 0,
        saved_to_prefix_text(language).len() > 0,
        capture_success_title_text(language).len() > 0,
        capture_failed_title_text(language).len() > 0,
        output_dir_failed_title_text(language).len() > 0,
        history_videos_text(language).len() > 0,
        refresh_text(language).len() > 0,
        add_folder_text(language).len() > 0,
        generate_selected_text(language).len() > 0,
        cancel_text(language).len() > 0,
        cancelling_text(language).len() > 0,
        open_videos_folder_text(language).len() > 0,
        date_or_folder_text(language).len() > 0,
        images_text(language).len() > 0,
        video_text(language).len() > 0,
        status_text(language).len() > 0,
        ready_text(language).len() > 0,
        unavailable_text(language).len() > 0,
        failed_text(language).len() > 0,
        no_available_images_text(language).len() > 0,
        exists_label_text(language).len() > 0,
        missing_text(language).len() > 0,
        generating_text(language).len() > 0,
        done_text(language).len() > 0,
        scanning_text(language).len() > 0,
        processing_frames_prefix_text(language).len() > 0,
        encoding_text(language).len() > 0,
        finishing_text(language).len() > 0,
        selected_count_suffix_text(language).len() > 0,
        frames_label_text(language).len() > 0,
        skipped_label_text(language).len() > 0,
        output_text(language).len() > 0,
        selected_folders_text(language).len() > 0,
        no_selection_text(language).len() > 0,
        video_generating_title_text(language).len() > 0,
        video_generating_body_text(language).len() > 0,
        video_success_title_text(language).len() > 0,
        video_failed_title_text(language).len() > 0,
        about_failed_title_text(language).len() > 0,
        config_read_failed_prefix_text(language).len() > 0,
        background_task_failed_title_text(language).len() > 0,
        screen_capture_permission_title_text(language).len() > 0,
        screen_capture_permission_body_text(language).len() > 0,
        current_mode_unavailable_text(language).len() > 0,
        generation_mode_text(language).len() > 0,
        multi_screen_generation_mode_text(language).len() > 0,
        screen_word_text(language).len() > 0,
        skipped_duplicate_text(language).len() > 0,
        selected_count_prefix_text(Language::ZhCn).len() > 0,
{
    reveal_strlit("📷 截一张");
    reveal_strlit("📷 Capture Now");
    reveal_strlit("▶ 开始");
    reveal_strlit("▶ Start");
    reveal_strlit("⏸ 暂停");
    reveal_strlit("⏸ Pause");
    reveal_strlit("⏱ 间隔 当前：");
    reveal_strlit("⏱ Interval: ");
    reveal_strlit("🎬 生成今日视频");
    reveal_strlit("🎬 Generate Today's Video");
    reveal_strlit("📁 打开保存目录");
    reveal_strlit("📁 Open Save Folder");
    reveal_strlit("🌐 语言");
    reveal_strlit("🌐 Language");
    reveal_strlit("❌ 退出");
    reveal_strlit("❌ Quit");
    reveal_strlit("运行中");
    reveal_strlit("Running");
    reveal_strlit("已暂停");
    reveal_strlit("Paused");
    reveal_strlit("暂无截图");
    reveal_strlit("No screenshots yet");
    reveal_strlit("状态");
    reveal_strlit("Status");
    reveal_strlit("间隔");
    reveal_strlit("Interval");
    reveal_strlit("本次截图");
    reveal_strlit("Screenshots this session");
    reveal_strlit("最近");
    reveal_strlit("Latest");
    reveal_strlit("已保存");
    reveal_strlit("Saved");
    reveal_strlit("失败");
    reveal_strlit("Failed");
    reveal_strlit("已保存到");
    reveal_strlit("Saved to");
    reveal_strlit("截图成功");
    reveal_strlit("Screenshot Saved");
    reveal_strlit("截图失败");
    reveal_strlit("Screenshot Failed");
    reveal_strlit("打开保存目录失败");
    reveal_strlit("Failed to Open Save Folder");
    reveal_strlit("历史视频");
    reveal_strlit("History Videos");
    reveal_strlit("刷新");
    reveal_strlit("Refresh");
    reveal_strlit("添加文件夹");
    reveal_strlit("Add Folder");
    reveal_strlit("生成选中项");
    reveal_strlit("Generate Selected");
    reveal_strlit("取消");
    reveal_strlit("Cancel");
    reveal_strlit("正在取消...");
    reveal_strlit("Cancelling...");
    reveal_strlit("打开视频目录");
    reveal_strlit("Open Videos Folder");
    reveal_strlit("日期 / 文件夹");
    reveal_strlit("Date / Folder");
    reveal_strlit("图片");
    reveal_strlit("Images");
    reveal_strlit("视频");
    reveal_strlit("Video");
    reveal_strlit("就绪");
    reveal_strlit("Ready");
    reveal_strlit("不可用");
    reveal_strlit("Unavailable");
    reveal_strlit("无可用图片");
    reveal_strlit("No available images");
    reveal_strlit("已存在");
    reveal_strlit("Exists");
    reveal_strlit("未生成");
    reveal_strlit("Missing");
    reveal_strlit("生成中");
    reveal_strlit("Generating");
    reveal_strlit("完成");
    reveal_strlit("Done");
    reveal_strlit("扫描图片");
    reveal_strlit("Scanning images");
    reveal_strlit("处理帧");
    reveal_strlit("Processing frames");
    reveal_strlit("编码视频");
    reveal_strlit("Encoding video");
    reveal_strlit("写入视频");
    reveal_strlit("Writing video");
    reveal_strlit(" 项");
    reveal_strlit(" selected");
    reveal_strlit("帧");
    reveal_strlit("frames");
    reveal_strlit("跳过");
    reveal_strlit("skipped");
    reveal_strlit("输出");
    reveal_strlit("Output");
    reveal_strlit("选中文件夹");
    reveal_strlit("Selected Folders");
    reveal_strlit("未选择");
    reveal_strlit("No selection");
    reveal_strlit("视频生成中");
    reveal_strlit("Video Generation Running");
    reveal_strlit("已有视频生成任务正在运行。");
    reveal_strlit("A video generation task is already running.");
    reveal_strlit("视频生成成功");
    reveal_strlit("Video Generated");
    reveal_strlit("视频生成失败");
    reveal_strlit("无法打开关于窗口");
    reveal_strlit("Could Not Open About");
    reveal_strlit("Video Generation Failed");
    reveal_strlit("读取配置失败");
    reveal_strlit("Failed to read config");
    reveal_strlit("后台任务异常退出");
    reveal_strlit("Background Task Failed");
    reveal_strlit("截屏权限不足");
    reveal_strlit("Screen Recording Permission Required");
    reveal_strlit("无法读取屏幕内容，请在系统设置中允许屏幕录制权限。");
    reveal_strlit("Unable to read the screen. Please allow screen recording permission in System Settings.");
    reveal_strlit("当前模式没有可用截图");
    reveal_strlit("No images for the current mode");
    reveal_strlit("生成模式");
    reveal_strlit("Generation mode");
    reveal_strlit("多屏合成");
    reveal_strlit("All screens");
    reveal_strlit("屏幕 ");
    reveal_strlit("Screen ");
    reveal_strlit("画面未变化，已跳过本次截图");
    reveal_strlit("Screen unchanged, capture skipped");
    reveal_strlit("已选 ");
    reveal_strlit("中文");
    reveal_strlit("English");
    reveal_strlit("zh-CN");
    reveal_strlit("en");
}

/// The texts of `language`.
pub fn bundle_for_language(language: Language) -> (r: TextBundle)
    ensures
        r.capture_now@ == capture_now_text(language),
        r.start@ == start_text(language),
        r.pause@ == pause_text(language),
        r.interval_menu_prefix@ == interval_menu_prefix_text(language),
        r.generate_today_video@ == generate_today_video_text(language),
        r.open_output_dir@ == open_output_dir_text(language),
        r.language_menu@ == language_menu_text(language),
        r.quit@ == quit_text(language),
        r.status_running@ == status_running_text(language),
        r.status_paused@ == status_paused_text(language),
        r.no_screenshots@ == no_screenshots_text(language),
        r.tooltip_status_label@ == tooltip_status_label_text(language),
        r.tooltip_interval_label@ == tooltip_interval_label_text(language),
        r.tooltip_count_label@ == tooltip_count_label_text(language),
        r.tooltip_latest_label@ == tooltip_latest_label_text(language),
        r.saved_capture_prefix@ == saved_capture_prefix_text(language),
        r.failed_capture_prefix@ == failed_capture_prefix_text(language),
        r.saved_to_prefix@ == saved_to_prefix_text(language),
        r.capture_success_title@ == capture_success_title_text(language),
        r.capture_failed_title@ == capture_failed_title_text(language),
        r.output_dir_failed_title@ == output_dir_failed_title_text(language),
        r.history_videos@ == history_videos_text(language),
        r.refresh@ == refresh_text(language),
        r.add_folder@ == add_folder_text(language),
        r.generate_selected@ == generate_selected_text(language),
        r.cancel@ == cancel_text(language),
        r.cancelling@ == cancelling_text(language),
        r.open_videos_folder@ == open_videos_folder_text(language),
        r.date_or_folder@ == date_or_folder_text(language),
        r.images@ == images_text(language),
        r.video@ == video_text(language),
        r.status@ == status_text(language),
        r.ready@ == ready_text(language),
        r.unavailable@ == unavailable_text(language),
        r.failed@ == failed_text(language),
        r.no_available_images@ == no_available_images_text(language),
        r.exists_label@ == exists_label_text(language),
        r.missing@ == missing_text(language),
        r.generating@ == generating_text(language),
        r.done@ == done_text(language),
        r.scanning@ == scanning_text(language),
        r.processing_frames_prefix@ == processing_frames_prefix_text(language),
        r.encoding@ == encoding_text(language),
        r.finishing@ == finishing_text(language),
        r.selected_count_prefix@ == selected_count_prefix_text(language),
        r.selected_count_suffix@ == selected_count_suffix_text(language),
        r.frames_label@ == frames_label_text(language),
        r.skipped_label@ == skipped_label_text(language),
        r.output@ == output_text(language),
        r.selected_folders@ == selected_folders_text(language),
        r.no_selection@ == no_selection_text(language),
        r.video_generating_title@ == video_generating_title_text(language),
        r.video_generating_body@ == video_generating_body_text(language),
        r.video_success_title@ == video_success_title_text(language),
        r.video_failed_title@ == video_failed_title_text(language),
        r.about_failed_title@ == about_failed_title_text(language),
        r.config_read_failed_prefix@ == config_read_failed_prefix_text(language),
        r.background_task_failed_title@ == background_task_failed_title_text(language),
        r.screen_capture_permission_title@ == screen_capture_permission_title_text(language),
        r.screen_capture_permission_body@ == screen_capture_permission_body_text(language),
{
    match language {
        Language::ZhCn => TextBundle {
            capture_now: "📷 截一张",
            start: "▶ 开始",
            pause: "⏸ 暂停",
            interval_menu_prefix: "⏱ 间隔 当前：",
            generate_today_video: "🎬 生成今日视频",
            open_output_dir: "📁 打开保存目录",
            language_menu: "🌐 语言",
            quit: "❌ 退出",
            status_running: "运行中",
            status_paused: "已暂停",
            no_screenshots: "暂无截图",
            tooltip_status_label: "状态",
            tooltip_interval_label: "间隔",
            tooltip_count_label: "本次截图",
            tooltip_latest_label: "最近",
            saved_capture_prefix: "已保存",
            failed_capture_prefix: "失败",
            saved_to_prefix: "已保存到",
            capture_success_title: "截图成功",
            capture_failed_title: "截图失败",
            output_dir_failed_title: "打开保存目录失败",
            history_videos: "历史视频",
            refresh: "刷新",
            add_folder: "添加文件夹",
            generate_selected: "生成选中项",
            cancel: "取消",
            cancelling: "正在取消...",
            open_videos_folder: "打开视频目录",
            date_or_folder: "日期 / 文件夹",
            images: "图片",
            video: "视频",
            status: "状态",
            ready: "就绪",
            unavailable: "不可用",
            failed: "失败",
            no_available_images: "无可用图片",
            exists_label: "已存在",
            missing: "未生成",
            generating: "生成中",
            done: "完成",
            scanning: "扫描图片",
            processing_frames_prefix: "处理帧",
            encoding: "编码视频",
            finishing: "写入视频",
            selected_count_prefix: "已选 ",
            selected_count_suffix: " 项",
            frames_label: "帧",
            skipped_label: "跳过",
            output: "输出",
            selected_folders: "选中文件夹",
            no_selection: "未选择",
            video_generating_title: "视频生成中",
            video_generating_body: "已有视频生成任务正在运行。",
            video_success_title: "视频生成成功",
            video_failed_title: "视频生成失败",
            about_failed_title: "无法打开关于窗口",
            config_read_failed_prefix: "读取配置失败",
            background_task_failed_title: "后台任务异常退出",
            screen_capture_permission_title: "截屏权限不足",
            screen_capture_permission_body: "无法读取屏幕内容，请在系统设置中允许屏幕录制权限。",
        },
        Language::En => TextBundle {
            capture_now: "📷 Capture Now",
            start: "▶ Start",
            pause: "⏸ Pause",
            interval_menu_prefix: "⏱ Interval: ",
            generate_today_video: "🎬 Generate Today's Video",
            open_output_dir: "📁 Open Save Folder",
            language_menu: "🌐 Language",
            quit: "❌ Quit",
            status_running: "Running",
            status_paused: "Paused",
            no_screenshots: "No screenshots yet",
            tooltip_status_label: "Status",
            tooltip_interval_label: "Interval",
            tooltip_count_label: "Screenshots this session",
            tooltip_latest_label: "Latest",
            saved_capture_prefix: "Saved",
            failed_capture_prefix: "Failed",
            saved_to_prefix: "Saved to",
            capture_success_title: "Screenshot Saved",
            capture_failed_title: "Screenshot Failed",
            output_dir_failed_title: "Failed to Open Save Folder",
            history_videos: "History Videos",
            refresh: "Refresh",
            add_folder: "Add Folder",
            generate_selected: "Generate Selected",
            cancel: "Cancel",
            cancelling: "Cancelling...",
            open_videos_folder: "Open Videos Folder",
            date_or_folder: "Date / Folder",
            images: "Images",
            video: "Video",
            status: "Status",
            ready: "Ready",
            unavailable: "Unavailable",
            failed: "Failed",
            no_available_images: "No available images",
            exists_label: "Exists",
            missing: "Missing",
            generating: "Generating",
            done: "Done",
            scanning: "Scanning images",
            processing_frames_prefix: "Processing frames",
            encoding: "Encoding video",
            finishing: "Writing video",
            selected_count_prefix: "",
            selected_count_suffix: " selected",
            frames_label: "frames",
            skipped_label: "skipped",
            output: "Output",
            selected_folders: "Selected Folders",
            no_selection: "No selection",
            video_generating_title: "Video Generation Running",
            video_generating_body: "A video generation task is already running.",
            video_success_title: "Video Generated",
            video_failed_title: "Video Generation Failed",
            about_failed_title: "Could Not Open About",
            config_read_failed_prefix: "Failed to read config",
            background_task_failed_title: "Background Task Failed",
            screen_capture_permission_title: "Screen Recording Permission Required",
            screen_capture_permission_body: "Unable to read the screen. Please allow screen recording permission in System Settings.",
        },
    }
}

/// The texts of the interface in one language.
pub struct Text {
    pub language: Language,
}

/// Appends a value in plain decimal.
fn push_count(out: &mut Vec<char>, n: u64)
    ensures
        final(out)@ == old(out)@ + decimal(n as nat),
{
    push_decimal(out, n, 0);
}

impl Text {
    /// The texts of `language`.
    pub fn new(language: Language) -> (r: Self)
        ensures
            r.language == language,
    {
        Text { language }
    }

    /// The `capture now` text.
    pub fn capture_now(&self) -> (r: &'static str)
        ensures
            r@ == capture_now_text(self.language),
    {
        bundle_for_language(self.language).capture_now
    }

    /// The `start` text.
    pub fn start(&self) -> (r: &'static str)
        ensures
            r@ == start_text(self.language),
    {
        bundle_for_language(self.language).start
    }

    /// The `pause` text.
    pub fn pause(&self) -> (r: &'static str)
        ensures
            r@ == pause_text(self.language),
    {
        bundle_for_language(self.language).pause
    }

    /// The `generate today video` text.
    pub fn generate_today_video(&self) -> (r: &'static str)
        ensures
            r@ == generate_today_video_text(self.language),
    {
        bundle_for_language(self.language).generate_today_video
    }

    /// The `open output dir` text.
    pub fn open_output_dir(&self) -> (r: &'static str)
        ensures
            r@ == open_output_dir_text(self.language),
    {
        bundle_for_language(self.language).open_output_dir
    }

    /// The `language menu` text.
    pub fn language_menu(&self) -> (r: &'static str)
        ensures
            r@ == language_menu_text(self.language),
    {
        bundle_for_language(self.language).language_menu
    }

    /// The `quit` text.
    pub fn quit(&self) -> (r: &'static str)
        ensures
            r@ == quit_text(self.language),
    {
        bundle_for_language(self.language).quit
    }

    /// The `capture success title` text.
    pub fn capture_success_title(&self) -> (r: &'static str)
        ensures
            r@ == capture_success_title_text(self.language),
    {
        bundle_for_language(self.language).capture_success_title
    }

    /// The `capture failed title` text.
    pub fn capture_failed_title(&self) -> (r: &'static str)
        ensures
            r@ == capture_failed_title_text(self.language),
    {
        bundle_for_language(self.language).capture_failed_title
    }

    /// The `output dir failed title` text.
    pub fn output_dir_failed_title(&self) -> (r: &'static str)
        ensures
            r@ == output_dir_failed_title_text(self.language),
    {
        bundle_for_language(self.language).output_dir_failed_title
    }

    /// The `history videos` text.
    pub fn history_videos(&self) -> (r: &'static str)
        ensures
            r@ == history_videos_text(self.language),
    {
        bundle_for_language(self.language).history_videos
    }

    /// The `refresh` text.
    pub fn refresh(&self) -> (r: &'static str)
        ensures
            r@ == refresh_text(self.language),
    {
        bundle_for_language(self.language).refresh
    }

    /// The `add folder` text.
    pub fn add_folder(&self) -> (r: &'static str)
        ensures
            r@ == add_folder_text(self.language),
    {
        bundle_for_language(self.language).add_folder
    }

    /// The `generate selected` text.
    pub fn generate_selected(&self) -> (r: &'static str)
        ensures
            r@ == generate_selected_text(self.language),
    {
        bundle_for_language(self.language).generate_selected
    }

    /// The `cancel` text.
    pub fn cancel(&self) -> (r: &'static str)
        ensures
            r@ == cancel_text(self.language),
    {
        bundle_for_language(self.language).cancel
    }

    /// The `cancelling` text.
    pub fn cancelling(&self) -> (r: &'static str)
        ensures
            r@ == cancelling_text(self.language),
    {
        bundle_for_language(self.language).cancelling
    }

    /// The `open videos folder` text.
    pub fn open_videos_folder(&self) -> (r: &'static str)
        ensures
            r@ == open_videos_folder_text(self.language),
    {
        bundle_for_language(self.language).open_videos_folder
    }

    /// The `date or folder` text.
    pub fn date_or_folder(&self) -> (r: &'static str)
        ensures
            r@ == date_or_folder_text(self.language),
    {
        bundle_for_language(self.language).date_or_folder
    }

    /// The `images` text.
    pub fn images(&self) -> (r: &'static str)
        ensures
            r@ == images_text(self.language),
    {
        bundle_for_language(self.language).images
    }

    /// The `video` text.
    pub fn video(&self) -> (r: &'static str)
        ensures
            r@ == video_text(self.language),
    {
        bundle_for_language(self.language).video
    }

    /// The `status` text.
    pub fn status(&self) -> (r: &'static str)
        ensures
            r@ == status_text(self.language),
    {
        bundle_for_language(self.language).status
    }

    /// The `ready` text.
    pub fn ready(&self) -> (r: &'static str)
        ensures
            r@ == ready_text(self.language),
    {
        bundle_for_language(self.language).ready
    }

    /// The `unavailable` text.
    pub fn unavailable(&self) -> (r: &'static str)
        ensures
            r@ == unavailable_text(self.language),
    {
        bundle_for_language(self.language).unavailable
    }

    /// The `failed` text.
    pub fn failed(&self) -> (r: &'static str)
        ensures
            r@ == failed_text(self.language),
    {
        bundle_for_language(self.language).failed
    }

    /// The `no available images` text.
    pub fn no_available_images(&self) -> (r: &'static str)
        ensures
            r@ == no_available_images_text(self.language),
    {
        bundle_for_language(self.language).no_available_images
    }

    /// The `exists` text.
    pub fn exists_label(&self) -> (r: &'static str)
        ensures
            r@ == exists_label_text(self.language),
    {
        bundle_for_language(self.language).exists_label
    }

    /// The `missing` text.
    pub fn missing(&self) -> (r: &'static str)
        ensures
            r@ == missing_text(self.language),
    {
        bundle_for_language(self.language).missing
    }

    /// The `generating` text.
    pub fn generating(&self) -> (r: &'static str)
        ensures
            r@ == generating_text(self.language),
    {
        bundle_for_language(self.language).generating
    }

    /// The `done` text.
    pub fn done_label(&self) -> (r: &'static str)
        ensures
            r@ == done_text(self.language),
    {
        bundle_for_language(self.language).done
    }

    /// The `scanning` text.
    pub fn scanning(&self) -> (r: &'static str)
        ensures
            r@ == scanning_text(self.language),
    {
        bundle_for_language(self.language).scanning
    }

    /// The `encoding` text.
    pub fn encoding(&self) -> (r: &'static str)
        ensures
            r@ == encoding_text(self.language),
    {
        bundle_for_language(self.language).encoding
    }

    /// The `finishing` text.
    pub fn finishing(&self) -> (r: &'static str)
        ensures
            r@ == finishing_text(self.language),
    {
        bundle_for_language(self.language).finishing
    }

    /// The `output` text.
    pub fn output(&self) -> (r: &'static str)
        ensures
            r@ == output_text(self.language),
    {
        bundle_for_language(self.language).output
    }

    /// The `selected folders` text.
    pub fn selected_folders(&self) -> (r: &'static str)
        ensures
            r@ == selected_folders_text(self.language),
    {
        bundle_for_language(self.language).selected_folders
    }

    /// The `no selection` text.
    pub fn no_selection(&self) -> (r: &'static str)
        ensures
            r@ == no_selection_text(self.language),
    {
        bundle_for_language(self.language).no_selection
    }

    /// The `video generating title` text.
    pub fn video_generating_title(&self) -> (r: &'static str)
        ensures
            r@ == video_generating_title_text(self.language),
    {
        bundle_for_language(self.language).video_generating_title
    }

    /// The `video generating body` text.
    pub fn video_generating_body(&self) -> (r: &'static str)
        ensures
            r@ == video_generating_body_text(self.language),
    {
        bundle_for_language(self.language).video_generating_body
    }

    /// The `video success title` text.
    pub fn video_success_title(&self) -> (r: &'static str)
        ensures
            r@ == video_success_title_text(self.language),
    {
        bundle_for_language(self.language).video_success_title
    }

    /// The `about failed title` text.
    pub fn about_failed_title(&self) -> (r: &'static str)
        ensures
            r@ == about_failed_title_text(self.language),
    {
        bundle_for_language(self.language).about_failed_title
    }

    /// The `video failed title` text.
    pub fn video_failed_title(&self) -> (r: &'static str)
        ensures
            r@ == video_failed_title_text(self.language),
    {
        bundle_for_language(self.language).video_failed_title
    }

    /// The `background task failed title` text.
    pub fn background_task_failed_title(&self) -> (r: &'static str)
        ensures
            r@ == background_task_failed_title_text(self.language),
    {
        bundle_for_language(self.language).background_task_failed_title
    }

    /// The `screen capture permission title` text.
    pub fn screen_capture_permission_title(&self) -> (r: &'static str)
        ensures
            r@ == screen_capture_permission_title_text(self.language),
    {
        bundle_for_language(self.language).screen_capture_permission_title
    }

    /// The `screen capture permission body` text.
    pub fn screen_capture_permission_body(&self) -> (r: &'static str)
        ensures
            r@ == screen_capture_permission_body_text(self.language),
    {
        bundle_for_language(self.language).screen_capture_permission_body
    }

    /// The interval submenu title: the prefix and the interval in seconds.
    pub fn interval_menu(&self, seconds: u64) -> (r: String)
        ensures
            r@ == interval_menu_prefix_text(self.language) + decimal(seconds as nat) + "s"@,
    {
        let mut out: Vec<char> = Vec::new();
        push_str(&mut out, bundle_for_language(self.language).interval_menu_prefix);
        push_count(&mut out, seconds);
        push_str(&mut out, "s");
        string_of(&out)
    }

    /// The tray tooltip: the application name, then one line each for the
    /// running state, the interval, the number of screenshots taken in this
    /// session and the latest capture (or a placeholder).
    pub fn status_tooltip(
        &self,
        is_running: bool,
        interval: u64,
        screenshot_count: u64,
        last_capture: Option<&str>,
    ) -> (r: String)
        ensures
            r@ == tooltip_text(self.language, is_running, interval, screenshot_count,
                match last_capture {
                    Some(s) => Some(s@),
                    None => None,
                }),
    {
        let b = bundle_for_language(self.language);
        let status = if is_running {
            b.status_running
        } else {
            b.status_paused
        };
        let latest = match last_capture {
            Some(s) => s,
            None => b.no_screenshots,
        };
        let mut out: Vec<char> = Vec::new();
        push_str(&mut out, APP_NAME);
        push_str(&mut out, "\n");
        push_str(&mut out, b.tooltip_status_label);
        push_str(&mut out, ": ");
        push_str(&mut out, status);
        push_str(&mut out, "\n");
        push_str(&mut out, b.tooltip_interval_label);
        push_str(&mut out, ": ");
        push_count(&mut out, interval);
        push_str(&mut out, "s\n");
        push_str(&mut out, b.tooltip_count_label);
        push_str(&mut out, ": ");
        push_count(&mut out, screenshot_count);
        push_str(&mut out, "\n");
        push_str(&mut out, b.tooltip_latest_label);
        push_str(&mut out, ": ");
        push_str(&mut out, latest);
        string_of(&out)
    }

    /// The message for one saved screenshot: the prefix, a space, the path.
    pub fn saved_capture(&self, path: &str) -> (r: String)
        ensures
            r@ == saved_capture_prefix_text(self.language) + " "@ + path@,
    {
        let mut out: Vec<char> = Vec::new();
        push_str(&mut out, bundle_for_language(self.language).saved_capture_prefix);
        push_str(&mut out, " ");
        push_str(&mut out, path);
        string_of(&out)
    }

    /// The message for a failed capture: the prefix, a colon, the reason.
    pub fn failed_capture(&self, message: &str) -> (r: String)
        ensures
            r@ == failed_capture_prefix_text(self.language) + ": "@ + message@,
    {
        let mut out: Vec<char> = Vec::new();
        push_str(&mut out, bundle_for_language(self.language).failed_capture_prefix);
        push_str(&mut out, ": ");
        push_str(&mut out, message);
        string_of(&out)
    }

    /// The message naming where a file was saved.
    pub fn saved_to(&self, path: &str) -> (r: String)
        ensures
            r@ == saved_to_prefix_text(self.language) + ": "@ + path@,
    {
        let mut out: Vec<char> = Vec::new();
        push_str(&mut out, bundle_for_language(self.language).saved_to_prefix);
        push_str(&mut out, ": ");
        push_str(&mut out, path);
        string_of(&out)
    }

    /// The progress label for frame preparation: `current/total`.
    pub fn preparing_frames(&self, current: usize, total: usize) -> (r: String)
        ensures
            r@ == preparing_frames_text(self.language, current as nat, total as nat),
    {
        let mut out: Vec<char> = Vec::new();
        push_str(&mut out, bundle_for_language(self.language).processing_frames_prefix);
        push_str(&mut out, " ");
        push_count(&mut out, current as u64);
        push_str(&mut out, "/");
        push_count(&mut out, total as u64);
        string_of(&out)
    }

    /// The number of selected folders, with its prefix and suffix.
    pub fn selected_count(&self, count: usize) -> (r: String)
        ensures
            r@ == selected_count_prefix_text(self.language) + decimal(count as nat)
                + selected_count_suffix_text(self.language),
    {
        let b = bundle_for_language(self.language);
        let mut out: Vec<char> = Vec::new();
        push_str(&mut out, b.selected_count_prefix);
        push_count(&mut out, count as u64);
        push_str(&mut out, b.selected_count_suffix);
        string_of(&out)
    }

    /// The summary of a finished video: frames written and images skipped.
    pub fn generation_done_status(&self, frame_count: usize, skipped: usize) -> (r: String)
        ensures
            r@ == generation_done_text(self.language, frame_count as nat, skipped as nat),
    {
        let b = bundle_for_language(self.language);
        let mut out: Vec<char> = Vec::new();
        push_str(&mut out, b.done);
        push_str(&mut out, ": ");
        push_count(&mut out, frame_count as u64);
        push_str(&mut out, " ");
        push_str(&mut out, b.frames_label);
        push_str(&mut out, ", ");
        push_str(&mut out, b.skipped_label);
        push_str(&mut out, " ");
        push_count(&mut out, skipped as u64);
        string_of(&out)
    }

    /// The message for a configuration that could not be read, given the
    /// error's text.
    pub fn config_read_failed(&self, error: &str) -> (r: String)
        ensures
            r@ == config_read_failed_prefix_text(self.language) + ": "@ + error@,
    {
        let mut out: Vec<char> = Vec::new();
        push_str(&mut out, bundle_for_language(self.language).config_read_failed_prefix);
        push_str(&mut out, ": ");
        push_str(&mut out, error);
        string_of(&out)
    }
}

/// The tray tooltip of `status_tooltip`.
pub open spec fn tooltip_text(
    language: Language,
    is_running: bool,
    interval: u64,
    screenshot_count: u64,
    last_capture: Option<Seq<char>>,
) -> Seq<char> {
    let status = if is_running {
        status_running_text(language)
    } else {
        status_paused_text(language)
    };
    let latest = match last_capture {
        Some(s) => s,
        None => no_screenshots_text(language),
    };
    APP_NAME@ + "\n"@ + tooltip_status_label_text(language) + ": "@ + status + "\n"@
        + tooltip_interval_label_text(language) + ": "@ + decimal(interval as nat) + "s\n"@
        + tooltip_count_label_text(language) + ": "@ + decimal(screenshot_count as nat) + "\n"@
        + tooltip_latest_label_text(language) + ": "@ + latest
}

/// The progress text while frames are prepared: `current` of `total`.
pub open spec fn preparing_frames_text(language: Language, current: nat, total: nat) -> Seq<char> {
    processing_frames_prefix_text(language) + " "@ + decimal(current) + "/"@ + decimal(total)
}

/// The status text of a finished generation: frames written and images
/// skipped.
pub open spec fn generation_done_text(language: Language, frame_count: nat, skipped: nat) -> Seq<
    char,
> {
    done_text(language) + ": "@ + decimal(frame_count) + " "@ + frames_label_text(language) + ", "@
        + skipped_label_text(language) + " "@ + decimal(skipped)
}

/// The `unavailable in the current mode` text of each language.
pub open spec fn current_mode_unavailable_text(language: Language) -> Seq<char> {
    match language {
        Language::ZhCn => "当前模式没有可用截图"@,
        Language::En => "No images for the current mode"@,
    }
}

/// The `generation mode` label of each language.
pub open spec fn generation_mode_text(language: Language) -> Seq<char> {
    match language {
        Language::ZhCn => "生成模式"@,
        Language::En => "Generation mode"@,
    }
}

/// The name of the multi-screen generation mode in each language.
pub open spec fn multi_screen_generation_mode_text(language: Language) -> Seq<char> {
    match language {
        Language::ZhCn => "多屏合成"@,
        Language::En => "All screens"@,
    }
}

/// The word before a screen number in each language.
pub open spec fn screen_word_text(language: Language) -> Seq<char> {
    match language {
        Language::ZhCn => "屏幕 "@,
        Language::En => "Screen "@,
    }
}

impl Text {
    /// The `unavailable in the current mode` text.
    pub fn current_mode_unavailable(&self) -> (r: &'static str)
        ensures
            r@ == current_mode_unavailable_text(self.language),
    {
        match self.language {
            Language::ZhCn => "当前模式没有可用截图",
            Language::En => "No images for the current mode",
        }
    }

    /// The `generation mode` label.
    pub fn generation_mode(&self) -> (r: &'static str)
        ensures
            r@ == generation_mode_text(self.language),
    {
        match self.language {
            Language::ZhCn => "生成模式",
            Language::En => "Generation mode",
        }
    }

    /// The name of the multi-screen generation mode.
    pub fn multi_screen_generation_mode(&self) -> (r: &'static str)
        ensures
            r@ == multi_screen_generation_mode_text(self.language),
    {
        match self.language {
            Language::ZhCn => "多屏合成",
            Language::En => "All screens",
        }
    }

    /// The name of the generation mode of one screen: the screen word and
    /// its number in two digits at least.
    pub fn generation_screen_mode(&self, index: u32) -> (r: String)
        ensures
            r@ == screen_word_text(self.language) + zero_pad(decimal(index as nat), 2),
    {
        let mut out: Vec<char> = Vec::new();
        match self.language {
            Language::ZhCn => push_str(&mut out, "屏幕 "),
            Language::En => push_str(&mut out, "Screen "),
        }
        push_decimal(&mut out, index as u64, 2);
        string_of(&out)
    }
}


/// The message for a capture skipped because nothing changed.
pub open spec fn skipped_duplicate_text(language: Language) -> Seq<char> {
    match language {
        Language::ZhCn => "画面未变化，已跳过本次截图"@,
        Language::En => "Screen unchanged, capture skipped"@,
    }
}

/// The message for a batch of several screenshots saved in `dir`.
pub open spec fn saved_screenshots_text(language: Language, count: nat, dir: Seq<char>) -> Seq<char> {
    match language {
        Language::ZhCn => "已保存 "@ + decimal(count) + " 张截图到 "@ + dir,
        Language::En => "Saved "@ + decimal(count) + " screenshots to "@ + dir,
    }
}

/// The note for a batch in which some screens failed.
pub open spec fn partial_failure_text(language: Language, failed: nat, target: nat) -> Seq<char> {
    match language {
        Language::ZhCn => decimal(failed) + "/"@ + decimal(target) + " 个屏幕截屏失败"@,
        Language::En => decimal(failed) + " of "@ + decimal(target) + " screens failed"@,
    }
}

impl Text {
    /// The message for a capture skipped because nothing changed.
    pub fn skipped_duplicate_capture(&self) -> (r: &'static str)
        ensures
            r@ == skipped_duplicate_text(self.language),
    {
        match self.language {
            Language::ZhCn => "画面未变化，已跳过本次截图",
            Language::En => "Screen unchanged, capture skipped",
        }
    }

    /// The message for a batch of `count` screenshots saved in `dir`.
    pub fn saved_screenshots(&self, count: usize, dir: &str) -> (r: String)
        ensures
            r@ == saved_screenshots_text(self.language, count as nat, dir@),
    {
        let mut out: Vec<char> = Vec::new();
        match self.language {
            Language::ZhCn => {
                push_str(&mut out, "已保存 ");
                push_decimal(&mut out, count as u64, 0);
                push_str(&mut out, " 张截图到 ");
            },
            Language::En => {
                push_str(&mut out, "Saved ");
                push_decimal(&mut out, count as u64, 0);
                push_str(&mut out, " screenshots to ");
            },
        }
        push_str(&mut out, dir);
        string_of(&out)
    }

    /// The note for a batch in which `failed` of `target` screens failed.
    pub fn partial_capture_failed(&self, failed: usize, target: usize) -> (r: String)
        ensures
            r@ == partial_failure_text(self.language, failed as nat, target as nat),
    {
        let mut out: Vec<char> = Vec::new();
        push_decimal(&mut out, failed as u64, 0);
        match self.language {
            Language::ZhCn => {
                push_str(&mut out, "/");
                push_decimal(&mut out, target as u64, 0);
                push_str(&mut out, " 个屏幕截屏失败");
            },
            Language::En => {
                push_str(&mut out, " of ");
                push_decimal(&mut out, target as u64, 0);
                push_str(&mut out, " screens failed");
            },
        }
        string_of(&out)
    }
}

} // verus!
