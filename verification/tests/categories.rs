//! The sidebar categories and the small helpers around them.

use mytool::myenum::FilterType;
use mytool::utils::{
    default_file_title, default_file_title_for_export, now_formatted_string, str_eq,
    str_from_u8_nul_utf8,
};

#[test]
fn category_names() {
    assert_eq!(FilterType::INBOX.to_string(), "Inbox");
    assert_eq!(FilterType::TODAY.to_string(), "Today");
    assert_eq!(FilterType::SCHEDULED.to_string(), "Scheduled");
    assert_eq!(FilterType::PINBOARD.to_string(), "Pinboard");
    assert_eq!(FilterType::LABELS.to_string(), "Labels");
    assert_eq!(FilterType::COMPLETED.to_string(), "Completed");
}

#[test]
fn category_icons() {
    assert_eq!(FilterType::INBOX.get_icon(), "mailbox-symbolic");
    assert_eq!(FilterType::TODAY.get_icon(), "star-outline-thick-symbolic");
    assert_eq!(FilterType::SCHEDULED.get_icon(), "month-symbolic");
    assert_eq!(FilterType::PINBOARD.get_icon(), "pin-symbolic");
    assert_eq!(FilterType::LABELS.get_icon(), "tag-outline-symbolic");
    assert_eq!(FilterType::COMPLETED.get_icon(), "check-round-outline-symbolic");
}

#[test]
fn category_colors() {
    assert_eq!(FilterType::INBOX.get_color(), "#3584e4");
    assert_eq!(FilterType::TODAY.get_color(), "#33d17a");
    assert_eq!(FilterType::SCHEDULED.get_color(), "#9141ac");
    assert_eq!(FilterType::PINBOARD.get_color(), "#ed333b");
    assert_eq!(FilterType::LABELS.get_color(), "#986a44");
    assert_eq!(FilterType::COMPLETED.get_color(), "#ff7800");
}

#[test]
fn str_eq_compares_characters() {
    assert!(str_eq("abc", "abc"));
    assert!(!str_eq("abc", "abd"));
    assert!(!str_eq("abc", "ab"));
    assert!(str_eq("", ""));
}

#[test]
fn now_has_the_fixed_timestamp_shape() {
    let now = now_formatted_string();
    let chars: Vec<char> = now.chars().collect();
    assert!(chars.len() >= 19);
    assert_eq!(chars[chars.len() - 3], ':');
    assert_eq!(chars[chars.len() - 6], ':');
    assert_eq!(chars[chars.len() - 9], '_');
}

#[test]
fn nul_terminated_text_is_cut_at_the_nul() {
    assert_eq!(str_from_u8_nul_utf8(b"hello\0world"), Some("hello"));
    assert_eq!(str_from_u8_nul_utf8(b"plain"), Some("plain"));
    assert_eq!(str_from_u8_nul_utf8(b"\0tail"), Some(""));
    assert_eq!(str_from_u8_nul_utf8(&[]), Some(""));
    assert_eq!(str_from_u8_nul_utf8(&[0xff, 0xfe]), None);
    assert_eq!(str_from_u8_nul_utf8(&[0xc3, 0xa9, 0x00, 0xff]), Some("\u{00e9}"));
}

#[test]
fn export_title_prefers_the_stem() {
    assert_eq!(default_file_title(Some("sketch"), Some("fallback"), "now", None), "sketch");
    assert_eq!(
        default_file_title(Some("sketch"), None, "now", Some(" - v2")),
        "sketch - v2"
    );
}

#[test]
fn export_title_falls_back_then_uses_the_clock() {
    assert_eq!(default_file_title(None, Some("draft"), "now", Some(".svg")), "draft.svg");
    assert_eq!(default_file_title(None, None, "2024-01-02_03:04:05", None), "2024-01-02_03:04:05");
    let titled = default_file_title_for_export(None, None, Some(".pdf"));
    assert!(titled.ends_with(".pdf"));
    assert!(titled.chars().count() >= 19 + 4);
    assert_eq!(default_file_title_for_export(None, Some("draft"), None), "draft");
    assert_eq!(default_file_title_for_export(Some("s"), Some("draft"), Some("!")), "s!");
}
