//! Simulated multi-screen captures for trying out video composition: which
//! screens each batch has, and the test pattern drawn on each screen.

use vstd::prelude::*;
use crate::config::ScreenshotFormat;
use crate::naming::screenshot_file_name;
use crate::raster::{Raster, col_of, filled, in_box, min_u32, raster_wf, row_of};
use crate::textutil::{decimal, push_decimal, push_str, string_of, zero_pad};

verus! {

/// The timestamp of simulated batch `sequence`: `14-03-`, the second
/// (twenty plus the sequence, two digits at least), a dot and the
/// milliseconds (ten times the sequence, three digits at least).
pub open spec fn simulated_timestamp_text(sequence: u64) -> Seq<char> {
    "14-03-"@ + zero_pad(decimal((20 + sequence) as nat), 2) + "."@ + zero_pad(
        decimal((sequence * 10) as nat),
        3,
    )
}

/// The timestamp of simulated batch `sequence` (see
/// `simulated_timestamp_text`).
pub fn simulated_timestamp(sequence: u64) -> (r: String)
    requires
        sequence * 10 <= u64::MAX,
    ensures
        r@ == simulated_timestamp_text(sequence),
{
    let mut out: Vec<char> = Vec::new();
    push_str(&mut out, "14-03-");
    push_decimal(&mut out, 20 + sequence, 2);
    push_str(&mut out, ".");
    push_decimal(&mut out, sequence * 10, 3);
    string_of(&out)
}

/// One screen of a simulated batch: its number, file name and place.
#[derive(Debug)]
pub struct SimulatedScreen {
    pub screen_index: u32,
    pub file_name: String,
    pub x: i32,
    pub y: i32,
    pub width: u32,
    pub height: u32,
}

/// The screens of simulated batch `sequence`: screen one (1280 by 720 at
/// the origin) always, screen two (900 by 600 at (1280, 60)) except in
/// batch four, each named as a multi-screen PNG of the batch.
pub fn simulated_batch(sequence: u64) -> (r: (String, Vec<SimulatedScreen>))
    requires
        sequence * 10 <= u64::MAX,
    ensures
        r.0@ == simulated_timestamp_text(sequence),
        r.1@.len() == if sequence == 4 {
            1int
        } else {
            2int
        },
        r.1@[0].screen_index == 1 && r.1@[0].x == 0 && r.1@[0].y == 0 && r.1@[0].width == 1280
            && r.1@[0].height == 720,
        r.1@[0].file_name@ == crate::naming::screenshot_name_text(
            simulated_timestamp_text(sequence),
            Some(1u32),
            sequence,
            ScreenshotFormat::Png,
        ),
        sequence != 4 ==> r.1@[1].screen_index == 2 && r.1@[1].x == 1280 && r.1@[1].y == 60
            && r.1@[1].width == 900 && r.1@[1].height == 600 && r.1@[1].file_name@
            == crate::naming::screenshot_name_text(
            simulated_timestamp_text(sequence),
            Some(2u32),
            sequence,
            ScreenshotFormat::Png,
        ),
{
    let timestamp = simulated_timestamp(sequence);
    let mut screens: Vec<SimulatedScreen> = Vec::new();
    screens.push(
        SimulatedScreen {
            screen_index: 1,
            file_name: screenshot_file_name(timestamp.as_str(), Some(1), sequence, ScreenshotFormat::Png),
            x: 0,
            y: 0,
            width: 1280,
            height: 720,
        },
    );
    if sequence != 4 {
        screens.push(
            SimulatedScreen {
                screen_index: 2,
                file_name: screenshot_file_name(
                    timestamp.as_str(),
                    Some(2),
                    sequence,
                    ScreenshotFormat::Png,
                ),
                x: 1280,
                y: 60,
                width: 900,
                height: 600,
            },
        );
    }
    (timestamp, screens)
}

/// `a - b`, or zero, and then at least one.
pub open spec fn room(a: int, b: int) -> int {
    if a - b < 1 {
        1
    } else {
        a - b
    }
}

/// The test pattern of an RGB simulated screen: filled with `color`, a
/// white grid every 120 pixels, and a yellow 160 by 120 box whose left
/// edge moves with the sequence and whose top depends on the screen.
pub fn rgb_test_pattern(width: u32, height: u32, color: [u8; 3], sequence: u64, screen_index: u32) -> (r: Raster)
    requires
        width > 0,
        height > 0,
        width * height * 3 <= usize::MAX,
        sequence * 97 <= u32::MAX,
        80 + screen_index * 30 + 120 <= u32::MAX,
    ensures
        raster_wf(r),
        r.width == width && r.height == height && r.channels == 3,
        forall|k: int|
            0 <= k < r.data@.len() ==> {
                let px = col_of(k, width as int, 3);
                let py = row_of(k, width as int, 3);
                let left = (sequence * 97) % room(width as int, 160);
                let top = 80 + screen_index * 30;
                #[trigger] r.data@[k] == if in_box(
                    px,
                    py,
                    left,
                    min_u32(left + 160, width as int),
                    top,
                    min_u32(top + 120, height as int),
                ) {
                    seq![245u8, 202u8, 92u8][k % 3]
                } else if px % 120 == 0 || py % 120 == 0 {
                    255u8
                } else {
                    color@[k % 3]
                }
            },
{
    let base: Vec<u8> = vec![color[0], color[1], color[2]];
    let mut image = filled(width, height, 3, &base);
    let white: Vec<u8> = vec![255, 255, 255];
    image.paint_grid(120, &white);
    let span = if width > 160 {
        width - 160
    } else {
        1
    };
    let left = ((sequence as u32) * 97) % span;
    let yellow: Vec<u8> = vec![245, 202, 92];
    image.paint_rect(left, 80 + screen_index * 30, 160, 120, &yellow);
    image
}

/// The test pattern of an RGBA simulated screen: filled with `color` at
/// alpha 220, a translucent white grid every 100 pixels, and a translucent
/// green 220 by 140 box whose top moves with the sequence and whose left
/// edge depends on the screen.
pub fn rgba_test_pattern(width: u32, height: u32, color: [u8; 3], sequence: u64, screen_index: u32) -> (r: Raster)
    requires
        width > 0,
        height > 0,
        width * height * 4 <= usize::MAX,
        sequence * 71 <= u32::MAX,
        100 + screen_index * 20 + 220 <= u32::MAX,
    ensures
        raster_wf(r),
        r.width == width && r.height == height && r.channels == 4,
        forall|k: int|
            0 <= k < r.data@.len() ==> {
                let px = col_of(k, width as int, 4);
                let py = row_of(k, width as int, 4);
                let left = 100 + screen_index * 20;
                let top = (sequence * 71) % room(height as int, 140);
                #[trigger] r.data@[k] == if in_box(
                    px,
                    py,
                    left,
                    min_u32(left + 220, width as int),
                    top,
                    min_u32(top + 140, height as int),
                ) {
                    seq![86u8, 185u8, 132u8, 190u8][k % 4]
                } else if px % 100 == 0 || py % 100 == 0 {
                    seq![255u8, 255u8, 255u8, 180u8][k % 4]
                } else {
                    seq![color[0], color[1], color[2], 220u8][k % 4]
                }
            },
{
    let base: Vec<u8> = vec![color[0], color[1], color[2], 220];
    let mut image = filled(width, height, 4, &base);
    let grid: Vec<u8> = vec![255, 255, 255, 180];
    image.paint_grid(100, &grid);
    let span = if height > 140 {
        height - 140
    } else {
        1
    };
    let top = ((sequence as u32) * 71) % span;
    let green: Vec<u8> = vec![86, 185, 132, 190];
    image.paint_rect(100 + screen_index * 20, top, 220, 140, &green);
    image
}

} // verus!
