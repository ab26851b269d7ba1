//! Verified core of a tray screen recorder: file naming, configuration
//! values, the decisions of a capture (targets, layout, duplicates,
//! sequences), the capture timer, the tray's commands and status, the
//! history window's rules, working-directory records, log rotation and the
//! user-facing texts.

pub mod textutil;
pub mod config;
pub mod pathutil;
pub mod naming;
pub mod i18n;
pub mod capture;
pub mod dedup;
pub mod geometry;
pub mod video;
pub mod indexset;
pub mod history;
pub mod workdirs;
pub mod paths;
pub mod logging;
pub mod platform;
pub mod single_instance;
pub mod tray;
pub mod temp;
pub mod fonts;
pub mod tasks;
pub mod about;
pub mod raster;
pub mod simulate;
pub mod schedule;
pub mod status;
pub mod batch;
