use code_terminal::escape::{filter_dangerous_escapes, strip_bell};

#[test]
fn column_mode_switch_is_removed() {
    assert_eq!(filter_dangerous_escapes("ab\x1b[?3hcd"), "abcd");
    assert_eq!(filter_dangerous_escapes("ab\x1b[?3lcd"), "abcd");
}

#[test]
fn reverse_video_is_removed() {
    assert_eq!(filter_dangerous_escapes("x\x1b[?5hy"), "xy");
}

#[test]
fn resize_request_is_removed() {
    assert_eq!(filter_dangerous_escapes("x\x1b[8;40;120ty"), "xy");
}

#[test]
fn safe_csi_passes_unchanged() {
    assert_eq!(filter_dangerous_escapes("\x1b[31mred\x1b[0m"), "\x1b[31mred\x1b[0m");
    assert_eq!(filter_dangerous_escapes("\x1b[?25h"), "\x1b[?25h");
}

#[test]
fn bell_outside_osc_is_removed() {
    assert_eq!(filter_dangerous_escapes("a\x07b"), "ab");
}

#[test]
fn title_osc_is_kept_and_terminated_with_bel() {
    assert_eq!(filter_dangerous_escapes("\x1b]0;title\x1b\\x"), "\x1b]0;title\x07x");
    assert_eq!(filter_dangerous_escapes("\x1b]2;t\x07"), "\x1b]2;t\x07");
}

#[test]
fn color_report_osc_is_removed() {
    assert_eq!(filter_dangerous_escapes("a\x1b]10;?\x07b"), "ab");
    assert_eq!(filter_dangerous_escapes("a\x1b]11;?\x1b\\b"), "ab");
}

#[test]
fn other_escape_passes() {
    assert_eq!(filter_dangerous_escapes("\x1b(Bx"), "\x1b(Bx");
    assert_eq!(filter_dangerous_escapes("x\x1b"), "x\x1b");
}

#[test]
fn plain_text_is_unchanged() {
    assert_eq!(filter_dangerous_escapes("hello, world"), "hello, world");
    assert_eq!(filter_dangerous_escapes(""), "");
}

#[test]
fn split_sequence_passes_unfiltered() {
    assert_eq!(filter_dangerous_escapes("\x1b[?3"), "\x1b[?3");
}

#[test]
fn strip_bell_removes_every_bel() {
    assert_eq!(strip_bell("\x07a\x07b\x07"), "ab");
}
