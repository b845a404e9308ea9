use md_editor::file_error::{io_error_message, FileError};
use md_editor::toolbar::FormatAction;

#[test]
fn format_actions_wrap_or_prefix_the_selection() {
    assert_eq!(FormatAction::Bold.apply("x"), "**x**");
    assert_eq!(FormatAction::Italic.apply("x"), "*x*");
    assert_eq!(FormatAction::InlineCode.apply("x"), "`x`");
    assert_eq!(FormatAction::Heading.apply("x"), "# x");
    assert_eq!(FormatAction::BulletList.apply("x"), "- x");
    assert_eq!(FormatAction::NumberedList.apply("x"), "1. x");
    assert_eq!(FormatAction::Quote.apply("x"), "> x");
    assert_eq!(FormatAction::HorizontalRule.apply("x"), "\n---\n");
    assert_eq!(FormatAction::Link.apply("site"), "[site](url)");
    assert_eq!(FormatAction::Bold.apply(""), "****");
}

#[test]
fn file_error_messages() {
    assert_eq!(FileError::DialogClosed.message(), "Dialog closed");
    let io = FileError::IoError(std::io::ErrorKind::NotFound).message();
    assert_eq!(io, format!("I/O error: {}", std::io::ErrorKind::NotFound));
    assert!(io.starts_with("I/O error: "));
}

#[test]
fn io_error_message_prefixes_the_description() {
    assert_eq!(io_error_message("entity not found"), "I/O error: entity not found");
    assert_eq!(io_error_message(""), "I/O error: ");
    let denied = FileError::IoError(std::io::ErrorKind::PermissionDenied).message();
    assert_eq!(denied, "I/O error: permission denied");
}
