use ogedit::goto::Point;
use ogedit::statusbar::{
    file_check_tick, filename_label, location_label, newline_change_message, newline_label, tab_width_message,
};

#[test]
fn status_labels() {
    assert_eq!(newline_label(true), "CRLF");
    assert_eq!(newline_label(false), "LF");
    assert_eq!(newline_change_message(true), "NEWLINE_CHANGE: CRLF -> LF");
    assert_eq!(newline_change_message(false), "NEWLINE_CHANGE: LF -> CRLF");
    assert_eq!(location_label(Point { x: 4, y: 41 }), "42:5");
    assert_eq!(filename_label("a.txt", 1), "a.txt");
    assert_eq!(filename_label("a.txt", 0), "a.txt");
    assert_eq!(filename_label("a.txt", 3), "a.txt + 2");
    assert_eq!(tab_width_message(4, 2), "TAB_WIDTH: 4 -> 2");
}

#[test]
fn file_checked_every_sixty_frames() {
    let mut counter: u32 = 0;
    let mut checks = Vec::new();
    for frame in 1..=180 {
        if file_check_tick(&mut counter) {
            checks.push(frame);
        }
    }
    assert_eq!(checks, vec![60, 120, 180]);
    assert_eq!(counter, 0);
}
