//! What the tray remembers of past captures (how many screenshots were
//! saved, how the latest capture ended) and what it shows and announces of
//! them. The event loop hands each capture outcome to
//! `TrayStatus::handle_event` and shows the notification it returns.

use vstd::prelude::*;
use crate::capture::{CaptureReport, capture_report_message, report_message_text};
use crate::config::Language;
use crate::i18n::{
    Text, capture_failed_title_text, capture_success_title_text, failed_capture_prefix_text,
    tooltip_text,
};
use crate::textutil::{chars_of, string_of};

verus! {

/// How the latest capture ended.
pub enum LastCapture {
    Saved(CaptureReport),
    Failed(String),
}

/// The outcome of one capture, as the capture threads report it, with
/// whether the user asked to be told.
pub enum AppEvent {
    CaptureSucceeded { report: CaptureReport, notify: bool },
    CaptureFailed { message: String, notify: bool },
}

/// A desktop notification to show.
pub struct Notification {
    pub title: String,
    pub message: String,
}

/// The tray's record of past captures.
pub struct TrayStatus {
    /// Screenshots saved since the program started.
    pub screenshot_count: u64,
    /// How the latest capture ended, if there was one.
    pub last_capture: Option<LastCapture>,
}

/// The line that describes how the latest capture ended.
pub open spec fn last_capture_text(language: Language, last: LastCapture) -> Seq<char> {
    match last {
        LastCapture::Saved(report) => report_message_text(language, report),
        LastCapture::Failed(message) => failed_capture_prefix_text(language) + ": "@ + message@,
    }
}

/// The count after an event: saved screenshots add to it.
pub open spec fn count_after(count: u64, event: AppEvent) -> int {
    match event {
        AppEvent::CaptureSucceeded { report, .. } => count + report.saved_paths@.len(),
        AppEvent::CaptureFailed { .. } => count as int,
    }
}

/// The notification an event asks for, as (title, message), when the user
/// asked to be told.
pub open spec fn notification_text(language: Language, event: AppEvent) -> Option<
    (Seq<char>, Seq<char>),
> {
    match event {
        AppEvent::CaptureSucceeded { report, notify } => if notify {
            Some((capture_success_title_text(language), report_message_text(language, report)))
        } else {
            None
        },
        AppEvent::CaptureFailed { message, notify } => if notify {
            Some((capture_failed_title_text(language), message@))
        } else {
            None
        },
    }
}

impl TrayStatus {
    /// Nothing captured yet.
    pub fn new() -> (r: Self)
        ensures
            r.screenshot_count == 0,
            r.last_capture is None,
    {
        TrayStatus { screenshot_count: 0, last_capture: None }
    }

    /// Records a capture outcome: the saved screenshots are counted, the
    /// outcome becomes the latest one, and a notification in `language` is
    /// returned when the user asked to be told.
    pub fn handle_event(&mut self, event: AppEvent, language: Language) -> (n: Option<Notification>)
        requires
            count_after(old(self).screenshot_count, event) <= u64::MAX,
        ensures
            final(self).screenshot_count == count_after(old(self).screenshot_count, event),
            final(self).last_capture == Some(
                match event {
                    AppEvent::CaptureSucceeded { report, .. } => LastCapture::Saved(report),
                    AppEvent::CaptureFailed { message, .. } => LastCapture::Failed(message),
                },
            ),
            match n {
                Some(n) => notification_text(language, event) == Some((n.title@, n.message@)),
                None => notification_text(language, event) is None,
            },
    {
        let text = Text::new(language);
        match event {
            AppEvent::CaptureSucceeded { report, notify } => {
                self.screenshot_count = self.screenshot_count + report.saved_count() as u64;
                let note = if notify {
                    let title = string_of(&chars_of(text.capture_success_title()));
                    let message = capture_report_message(&text, &report);
                    Some(Notification { title, message })
                } else {
                    None
                };
                self.last_capture = Some(LastCapture::Saved(report));
                note
            },
            AppEvent::CaptureFailed { message, notify } => {
                let note = if notify {
                    let title = string_of(&chars_of(text.capture_failed_title()));
                    let body = string_of(&chars_of(message.as_str()));
                    Some(Notification { title, message: body })
                } else {
                    None
                };
                self.last_capture = Some(LastCapture::Failed(message));
                note
            },
        }
    }

    /// The line describing the latest capture, if there was one: see
    /// `last_capture_text`.
    pub fn last_capture_message(&self, language: Language) -> (r: Option<String>)
        ensures
            match r {
                Some(m) => self.last_capture matches Some(last) && m@ == last_capture_text(
                    language,
                    last,
                ),
                None => self.last_capture is None,
            },
    {
        let text = Text::new(language);
        match &self.last_capture {
            Some(LastCapture::Saved(report)) => Some(capture_report_message(&text, report)),
            Some(LastCapture::Failed(message)) => Some(text.failed_capture(message.as_str())),
            None => None,
        }
    }

    /// The tray tooltip for this record: see `tooltip_text`.
    pub fn tooltip(&self, language: Language, is_running: bool, interval: u64) -> (r: String)
        ensures
            r@ == tooltip_text(
                language,
                is_running,
                interval,
                self.screenshot_count,
                match self.last_capture {
                    Some(last) => Some(last_capture_text(language, last)),
                    None => None,
                },
            ),
    {
        let latest = self.last_capture_message(language);
        let text = Text::new(language);
        match &latest {
            Some(m) => text.status_tooltip(is_running, interval, self.screenshot_count, Some(m.as_str())),
            None => text.status_tooltip(is_running, interval, self.screenshot_count, None),
        }
    }
}

} // verus!
