//! The tray: its commands, its labels, its tooltip and its icon.

use vstd::prelude::*;
use crate::config::{CaptureMode, Language};
use crate::i18n::{Text, screen_word_text, tooltip_text};
use crate::textutil::{chars_eq, chars_of, decimal, push_decimal, push_str, string_of, zero_pad};
use crate::raster::{col_of, filled, row_of};

verus! {

/// What the user can ask of the tray.
#[derive(Clone, Copy, Debug, PartialEq, Eq, Structural)]
pub enum AppCommand {
    CaptureNow,
    ToggleRunning,
    SetInterval(u64),
    SetCaptureMode(CaptureMode),
    RefreshCaptureSources,
    GenerateTodayVideo,
    OpenHistoryVideos,
    OpenOutputDir,
    SetLanguage(Language),
    OpenAbout,
    Quit,
}

/// The tray's tooltip (in Chinese): see `tooltip_text`.
pub fn status_tooltip(
    is_running: bool,
    interval: u64,
    screenshot_count: u64,
    last_capture: Option<&str>,
) -> (r: String)
    ensures
        r@ == tooltip_text(
            Language::ZhCn,
            is_running,
            interval,
            screenshot_count,
            match last_capture {
                Some(s) => Some(s@),
                None => None,
            },
        ),
{
    Text::new(Language::ZhCn).status_tooltip(is_running, interval, screenshot_count, last_capture)
}

/// The label of the start/pause item.
pub open spec fn running_label_text(is_running: bool) -> Seq<char> {
    if is_running {
        "⏸ 暂停"@
    } else {
        "▶ 开始"@
    }
}

/// The label of the start/pause item: pause while running, start while
/// paused.
pub fn running_menu_label(is_running: bool) -> (r: &'static str)
    ensures
        r@ == running_label_text(is_running),
{
    if is_running {
        "⏸ 暂停"
    } else {
        "▶ 开始"
    }
}

/// The label of the interval submenu, showing the current interval.
pub fn interval_menu_label(seconds: u64) -> (r: String)
    ensures
        r@ == "⏱ 间隔 当前："@ + decimal(seconds as nat) + "s"@,
{
    let mut out: Vec<char> = Vec::new();
    push_str(&mut out, "⏱ 间隔 当前：");
    push_decimal(&mut out, seconds, 0);
    push_str(&mut out, "s");
    string_of(&out)
}

/// The label of one interval item.
pub fn interval_item_label(seconds: u64) -> (r: String)
    ensures
        r@ == decimal(seconds as nat) + "s"@,
{
    let mut out: Vec<char> = Vec::new();
    push_decimal(&mut out, seconds, 0);
    push_str(&mut out, "s");
    string_of(&out)
}

/// The identifiers of the tray menu's items, as the menu reports them in
/// its click events.
pub struct TrayMenuIds {
    pub capture_now: String,
    pub start_pause: String,
    /// Each offered interval, in seconds, with its item's identifier.
    pub interval_items: Vec<(u64, String)>,
    /// Each offered capture source with its item's identifier.
    pub capture_source_items: Vec<(CaptureMode, String)>,
    pub refresh_capture_sources: String,
    pub generate_video: String,
    pub history_videos: String,
    pub open_output_dir: String,
    /// Each language with its item's identifier.
    pub language_items: Vec<(Language, String)>,
    pub about: String,
    pub quit: String,
}

/// The value of the first item in `items` whose identifier is `id`.
pub open spec fn value_for_id<T>(items: Seq<(T, String)>, id: Seq<char>) -> Option<T>
    decreases items.len(),
{
    if items.len() == 0 {
        None
    } else if items[0].1@ == id {
        Some(items[0].0)
    } else {
        value_for_id(items.drop_first(), id)
    }
}

/// The command that a click on the item `id` asks for: the items in menu
/// order, the first match winning; `None` for an item the menu does not
/// know.
pub open spec fn command_for_id(id: Seq<char>, ids: TrayMenuIds) -> Option<AppCommand> {
    if id == ids.capture_now@ {
        Some(AppCommand::CaptureNow)
    } else if id == ids.start_pause@ {
        Some(AppCommand::ToggleRunning)
    } else if value_for_id(ids.interval_items@, id) is Some {
        Some(AppCommand::SetInterval(value_for_id(ids.interval_items@, id)->0))
    } else if value_for_id(ids.capture_source_items@, id) is Some {
        Some(AppCommand::SetCaptureMode(value_for_id(ids.capture_source_items@, id)->0))
    } else if id == ids.refresh_capture_sources@ {
        Some(AppCommand::RefreshCaptureSources)
    } else if id == ids.generate_video@ {
        Some(AppCommand::GenerateTodayVideo)
    } else if id == ids.history_videos@ {
        Some(AppCommand::OpenHistoryVideos)
    } else if id == ids.open_output_dir@ {
        Some(AppCommand::OpenOutputDir)
    } else if value_for_id(ids.language_items@, id) is Some {
        Some(AppCommand::SetLanguage(value_for_id(ids.language_items@, id)->0))
    } else if id == ids.about@ {
        Some(AppCommand::OpenAbout)
    } else if id == ids.quit@ {
        Some(AppCommand::Quit)
    } else {
        None
    }
}

/// Whether the string `a` has the characters `b`.
fn same_id(a: &String, b: &Vec<char>) -> (r: bool)
    ensures
        r == (a@ == b@),
{
    let av = chars_of(a.as_str());
    chars_eq(&av, b)
}

/// Decides `value_for_id`.
fn find_value<T: Copy>(items: &Vec<(T, String)>, id: &Vec<char>) -> (r: Option<T>)
    ensures
        r == value_for_id(items@, id@),
{
    let mut i: usize = 0;
    assert(items@.subrange(0, items@.len() as int) =~= items@);
    while i < items.len()
        invariant
            i <= items@.len(),
            value_for_id(items@, id@) == value_for_id(
                items@.subrange(i as int, items@.len() as int),
                id@,
            ),
        decreases items.len() - i,
    {
        let ghost rest = items@.subrange(i as int, items@.len() as int);
        assert(rest[0] == items@[i as int]);
        assert(rest.drop_first() =~= items@.subrange(i + 1, items@.len() as int));
        if same_id(&items[i].1, id) {
            return Some(items[i].0);
        }
        i = i + 1;
    }
    assert(items@.subrange(i as int, items@.len() as int).len() == 0);
    None
}

/// The command for a click on the menu item `id`: see `command_for_id`.
pub fn command_for_menu_id(id: &str, ids: &TrayMenuIds) -> (r: Option<AppCommand>)
    ensures
        r == command_for_id(id@, *ids),
{
    let idv = chars_of(id);
    if same_id(&ids.capture_now, &idv) {
        return Some(AppCommand::CaptureNow);
    }
    if same_id(&ids.start_pause, &idv) {
        return Some(AppCommand::ToggleRunning);
    }
    if let Some(seconds) = find_value(&ids.interval_items, &idv) {
        return Some(AppCommand::SetInterval(seconds));
    }
    if let Some(mode) = find_value(&ids.capture_source_items, &idv) {
        return Some(AppCommand::SetCaptureMode(mode));
    }
    if same_id(&ids.refresh_capture_sources, &idv) {
        return Some(AppCommand::RefreshCaptureSources);
    }
    if same_id(&ids.generate_video, &idv) {
        return Some(AppCommand::GenerateTodayVideo);
    }
    if same_id(&ids.history_videos, &idv) {
        return Some(AppCommand::OpenHistoryVideos);
    }
    if same_id(&ids.open_output_dir, &idv) {
        return Some(AppCommand::OpenOutputDir);
    }
    if let Some(language) = find_value(&ids.language_items, &idv) {
        return Some(AppCommand::SetLanguage(language));
    }
    if same_id(&ids.about, &idv) {
        return Some(AppCommand::OpenAbout);
    }
    if same_id(&ids.quit, &idv) {
        return Some(AppCommand::Quit);
    }
    None
}

/// The label of a capture source: all screens, or one screen by number.
pub open spec fn capture_source_text(language: Language, mode: CaptureMode) -> Seq<char> {
    match mode {
        CaptureMode::Auto => match language {
            Language::ZhCn => "自动（全部屏幕）"@,
            Language::En => "Auto (all screens)"@,
        },
        CaptureMode::Screen(index) => screen_word_text(language) + zero_pad(decimal(index as nat), 2),
    }
}

/// The label of a capture source item (see `capture_source_text`).
pub fn capture_source_item_label(language: Language, mode: CaptureMode) -> (r: String)
    ensures
        r@ == capture_source_text(language, mode),
{
    match mode {
        CaptureMode::Auto => match language {
            Language::ZhCn => string_of(&chars_of("自动（全部屏幕）")),
            Language::En => string_of(&chars_of("Auto (all screens)")),
        },
        CaptureMode::Screen(index) => Text::new(language).generation_screen_mode(index),
    }
}

/// The label of the capture source submenu, naming the current source.
pub open spec fn capture_source_menu_text(language: Language, mode: CaptureMode) -> Seq<char> {
    let prefix = match language {
        Language::ZhCn => "🖥️ 截屏范围："@,
        Language::En => "🖥️ Capture Source: "@,
    };
    prefix + capture_source_text(language, mode)
}

/// The label of the capture source submenu (see `capture_source_menu_text`).
pub fn capture_source_menu_label(language: Language, mode: CaptureMode) -> (r: String)
    ensures
        r@ == capture_source_menu_text(language, mode),
{
    let mut out: Vec<char> = Vec::new();
    match language {
        Language::ZhCn => push_str(&mut out, "🖥️ 截屏范围："),
        Language::En => push_str(&mut out, "🖥️ Capture Source: "),
    }
    let item = capture_source_item_label(language, mode);
    push_str(&mut out, item.as_str());
    string_of(&out)
}

/// The label of the item that reads the screens again.
pub open spec fn refresh_sources_text(language: Language) -> Seq<char> {
    match language {
        Language::ZhCn => "刷新屏幕列表"@,
        Language::En => "Refresh Screens"@,
    }
}

/// The label of the item that reads the screens again.
pub fn refresh_sources_label(language: Language) -> (r: &'static str)
    ensures
        r@ == refresh_sources_text(language),
{
    match language {
        Language::ZhCn => "刷新屏幕列表",
        Language::En => "Refresh Screens",
    }
}

/// The label of the item that opens the about window.
pub open spec fn about_text(language: Language) -> Seq<char> {
    match language {
        Language::ZhCn => "ℹ️ 关于"@,
        Language::En => "ℹ️ About"@,
    }
}

/// The label of the item that opens the about window.
pub fn about_label(language: Language) -> (r: &'static str)
    ensures
        r@ == about_text(language),
{
    match language {
        Language::ZhCn => "ℹ️ 关于",
        Language::En => "ℹ️ About",
    }
}

/// The side of the tray icon, in pixels.
pub const ICON_SIZE: u32 = 32;

/// The colour of one pixel of the tray icon: a white camera body with a
/// transparent window, a white viewfinder on top and a white lens in the
/// middle (later parts drawn over earlier ones).
pub open spec fn icon_pixel(x: int, y: int) -> Seq<u8> {
    let white = seq![255u8, 255u8, 255u8, 255u8];
    let clear = seq![0u8, 0u8, 0u8, 0u8];
    let dx = x - 16;
    let dy = y - 16;
    if 12 <= y < 20 && 12 <= x < 20 && dx * dx + dy * dy <= 16 {
        white
    } else if 5 <= y < 9 && 11 <= x < 21 {
        white
    } else if 10 <= y < 22 && 8 <= x < 24 {
        clear
    } else if 7 <= y < 25 && 5 <= x < 27 {
        white
    } else {
        clear
    }
}

/// Writes `color` into pixel (`x`, `y`) of an RGBA buffer `width` pixels
/// wide.
pub fn put_pixel(rgba: &mut Vec<u8>, width: u32, x: u32, y: u32, color: [u8; 4])
    requires
        x < width,
        (y * width + x) * 4 + 4 <= old(rgba)@.len(),
        (y * width + x) * 4 <= u32::MAX,
    ensures
        final(rgba)@.len() == old(rgba)@.len(),
        forall|k: int|
            0 <= k < final(rgba)@.len() ==> #[trigger] final(rgba)@[k] == if (y * width + x) * 4 <= k
                < (y * width + x) * 4 + 4 {
                color@[k - (y * width + x) * 4]
            } else {
                old(rgba)@[k]
            },
{
    assert(y * width <= u32::MAX) by (nonlinear_arith)
        requires
            (y * width + x) * 4 <= u32::MAX,
            x >= 0,
    ;
    let index = ((y * width + x) * 4) as usize;
    rgba.set(index, color[0]);
    rgba.set(index + 1, color[1]);
    rgba.set(index + 2, color[2]);
    rgba.set(index + 3, color[3]);
}


/// The tray icon's pixels, RGBA, row after row, `ICON_SIZE` pixels square:
/// see `icon_pixel`.
pub fn tray_icon_rgba() -> (r: Vec<u8>)
    ensures
        r@.len() == 32 * 32 * 4,
        forall|k: int|
            0 <= k < r@.len() ==> #[trigger] r@[k] == icon_pixel(col_of(k, 32, 4), row_of(k, 32, 4))[k
                % 4],
{
    let white: Vec<u8> = vec![255, 255, 255, 255];
    let clear: Vec<u8> = vec![0, 0, 0, 0];
    let mut icon = filled(ICON_SIZE, ICON_SIZE, 4, &clear);
    icon.paint_rect(5, 7, 22, 18, &white);
    icon.paint_rect(8, 10, 16, 12, &clear);
    icon.paint_rect(11, 5, 10, 4, &white);
    icon.paint_disc(16, 16, 16, 12, 20, 12, 20, &white);
    proof {
        assert forall|k: int| 0 <= k < icon.data@.len() implies #[trigger] icon.data@[k] == icon_pixel(
            col_of(k, 32, 4),
            row_of(k, 32, 4),
        )[k % 4] by {
            assert(0 <= k % 4 < 4);
        }
    }
    icon.data
}

} // verus!
