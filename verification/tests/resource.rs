//! How changes are shown.

use discord_management::resource::change::{display_quoted_string, render_change_line};

#[test]
fn display_quoted_string_escapes_json_syntax() {
    assert_eq!(display_quoted_string("旧\"名\n改行"), "\"旧\\\"名\\n改行\"");
}

#[test]
fn control_characters_are_escaped() {
    assert_eq!(display_quoted_string("\u{1}\u{8}\t\u{c}\r\\\u{1f}\u{7f}"), "\"\\u0001\\b\\t\\f\\r\\\\\\u001f\u{7f}\"");
}

#[test]
fn render_change_line_uses_one_display_format() {
    let mut output = String::new();
    render_change_line(&mut output, "role", "100", "name", "旧", "新");
    assert_eq!(output, "- role (100) name: 旧 -> 新\n");
}
