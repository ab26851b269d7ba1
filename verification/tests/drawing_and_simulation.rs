use screen_recorder::platform::{ffmpeg_candidates, notification_applescript, notification_powershell};
use screen_recorder::raster::{filled, Raster};
use screen_recorder::simulate::{rgb_test_pattern, rgba_test_pattern, simulated_batch, simulated_timestamp};

fn pixel(image: &Raster, x: u32, y: u32) -> Vec<u8> {
    let c = image.channels as usize;
    let i = ((y * image.width + x) as usize) * c;
    image.data[i..i + c].to_vec()
}

#[test]
fn filled_image_has_one_colour() {
    let image = filled(3, 2, 3, &vec![1, 2, 3]);
    assert_eq!(image.data, vec![1, 2, 3, 1, 2, 3, 1, 2, 3, 1, 2, 3, 1, 2, 3, 1, 2, 3]);
}

#[test]
fn paint_rect_is_clipped_to_the_image() {
    let mut image = filled(4, 3, 1, &vec![0]);
    image.paint_rect(2, 1, 10, 10, &vec![9]);
    assert_eq!(image.data, vec![0, 0, 0, 0, 0, 0, 9, 9, 0, 0, 9, 9]);
}

#[test]
fn paint_grid_marks_rows_and_columns() {
    let mut image = filled(5, 5, 1, &vec![0]);
    image.paint_grid(2, &vec![1]);
    assert_eq!(
        image.data,
        vec![1, 1, 1, 1, 1, 1, 0, 1, 0, 1, 1, 1, 1, 1, 1, 1, 0, 1, 0, 1, 1, 1, 1, 1, 1]
    );
}

#[test]
fn put_pixel_changes_one_pixel() {
    let mut image = filled(2, 2, 2, &vec![0, 0]);
    image.put_pixel(1, 1, &vec![7, 8]);
    assert_eq!(image.data, vec![0, 0, 0, 0, 0, 0, 7, 8]);
}

#[test]
fn simulated_batches_name_their_screens() {
    assert_eq!(simulated_timestamp(1), "14-03-21.010");
    let (timestamp, screens) = simulated_batch(1);
    assert_eq!(timestamp, "14-03-21.010");
    assert_eq!(screens.len(), 2);
    assert_eq!(screens[0].file_name, "14-03-21.010-screen-01-000001.png");
    assert_eq!((screens[1].x, screens[1].y, screens[1].width, screens[1].height), (1280, 60, 900, 600));
    let (_, fourth) = simulated_batch(4);
    assert_eq!(fourth.len(), 1);
}

#[test]
fn rgb_pattern_has_grid_and_moving_box() {
    let image = rgb_test_pattern(1280, 720, [42, 113, 204], 1, 1);
    assert_eq!((image.width, image.height, image.channels), (1280, 720, 3));
    assert_eq!(pixel(&image, 1, 1), vec![42, 113, 204]);
    assert_eq!(pixel(&image, 120, 5), vec![255, 255, 255]);
    assert_eq!(pixel(&image, 100, 115), vec![245, 202, 92]);
    assert_eq!(pixel(&image, 120, 115), vec![245, 202, 92]);
    assert_eq!(pixel(&image, 96, 115), vec![42, 113, 204]);
}

#[test]
fn rgba_pattern_has_grid_and_moving_box() {
    let image = rgba_test_pattern(900, 600, [213, 83, 74], 2, 2);
    assert_eq!(image.channels, 4);
    assert_eq!(pixel(&image, 1, 1), vec![213, 83, 74, 220]);
    assert_eq!(pixel(&image, 100, 5), vec![255, 255, 255, 180]);
    assert_eq!(pixel(&image, 150, 150), vec![86, 185, 132, 190]);
    assert_eq!(pixel(&image, 150, 141), vec![213, 83, 74, 220]);
}

#[test]
fn notification_scripts_escape_their_text() {
    assert_eq!(
        notification_applescript("T\"", "a\\b\nc"),
        "display notification \"a\\\\b\\nc\" with title \"Screen Recorder\" subtitle \"T\\\"\""
    );
    assert_eq!(
        notification_powershell("It's", "don't"),
        "Add-Type -AssemblyName System.Windows.Forms; [System.Windows.Forms.MessageBox]::Show('don''t', 'Screen Recorder - It''s') | Out-Null"
    );
}

#[test]
fn ffmpeg_is_looked_for_beside_the_executable_first() {
    let found = ffmpeg_candidates("/app/bin", "ffmpeg", &vec!["../Resources/ffmpeg", "ffmpeg/ffmpeg"]);
    assert_eq!(found, vec!["/app/bin/ffmpeg", "/app/bin/../Resources/ffmpeg", "/app/bin/ffmpeg/ffmpeg"]);
}
