use md_editor::config::{parse, serialize, strip_quotes};
use md_editor::theme::{MarkdownColors, MarkdownTag};

#[test]
fn serialize_then_parse_round_trips() {
    let mut written = MarkdownColors::default();
    written.h1 = "#ff0000".to_owned();
    written.h3 = "#00ff00".to_owned();
    written.strong = "#abcdef".to_owned();
    written.table_border = "#1a2b3c".to_owned();

    let text = serialize(&written);
    let parsed = parse(&text);

    assert_eq!(parsed.h1, written.h1);
    assert_eq!(parsed.h3, written.h3);
    assert_eq!(parsed.strong, written.strong);
    assert_eq!(parsed.table_border, written.table_border);
    // Empty fields stay empty.
    assert_eq!(parsed.h2, "");
    assert_eq!(parsed.link, "");
}

#[test]
fn parse_empty_string_returns_defaults() {
    let colors = parse("");
    assert_eq!(colors, MarkdownColors::default());
}

#[test]
fn parse_skips_comments_and_blank_lines() {
    let text = "# This is a comment\n\
                \n\
                h1: \"#ff0000\"\n\
                # another comment\n\
                strong: \"#00ff00\"\n";
    let colors = parse(text);
    assert_eq!(colors.h1, "#ff0000");
    assert_eq!(colors.strong, "#00ff00");
}

#[test]
fn parse_handles_unquoted_values() {
    let text = "h1: #ff0000\nstrong: #00ff00\n";
    let colors = parse(text);
    assert_eq!(colors.h1, "#ff0000");
    assert_eq!(colors.strong, "#00ff00");
}

#[test]
fn parse_handles_single_quotes() {
    let text = "h1: '#ff0000'\n";
    let colors = parse(text);
    assert_eq!(colors.h1, "#ff0000");
}

#[test]
fn parse_empty_value_means_follow_theme() {
    let text = "h1: \"\"\nstrong: \"#00ff00\"\n";
    let colors = parse(text);
    assert_eq!(colors.h1, "");
    assert_eq!(colors.strong, "#00ff00");
}

#[test]
fn parse_bare_empty_value() {
    let text = "h1:\nstrong: \"#00ff00\"\n";
    let colors = parse(text);
    assert_eq!(colors.h1, "");
    assert_eq!(colors.strong, "#00ff00");
}

#[test]
fn parse_ignores_unknown_keys() {
    let text = "h1: \"#ff0000\"\nunknown_key: \"whatever\"\nstrong: \"#00ff00\"\n";
    let colors = parse(text);
    assert_eq!(colors.h1, "#ff0000");
    assert_eq!(colors.strong, "#00ff00");
}

#[test]
fn parse_skips_malformed_lines() {
    let text = "h1: \"#ff0000\"\nthis has no colon\nstrong: \"#00ff00\"\n";
    let colors = parse(text);
    assert_eq!(colors.h1, "#ff0000");
    assert_eq!(colors.strong, "#00ff00");
}

#[test]
fn parse_all_fields() {
    let text = "\
h1: \"#111111\"
h2: \"#222222\"
h3: \"#333333\"
h4: \"#444444\"
h5: \"#555555\"
h6: \"#666666\"
strong: \"#777777\"
emphasis: \"#888888\"
inline_code: \"#999999\"
inline_code_background: \"#aaaaaa\"
link: \"#bbbbbb\"
code_block_background: \"#cccccc\"
table_border: \"#dddddd\"
table_header_background: \"#eeeeee\"
table_header_text: \"#ffffff\"
";
    let colors = parse(text);
    assert_eq!(colors.h1, "#111111");
    assert_eq!(colors.h6, "#666666");
    assert_eq!(colors.table_header_text, "#ffffff");
}

#[test]
fn serialize_includes_header_comment() {
    let text = serialize(&MarkdownColors::default());
    assert!(text.starts_with("# Markdown Editor"));
    assert!(text.contains("Empty values follow"));
}

#[test]
fn strip_quotes_works() {
    assert_eq!(strip_quotes("\"hello\""), "hello");
    assert_eq!(strip_quotes("'hello'"), "hello");
    assert_eq!(strip_quotes("hello"), "hello");
    assert_eq!(strip_quotes("\"\""), "");
    assert_eq!(strip_quotes(""), "");
    // Mismatched quotes are not stripped.
    assert_eq!(strip_quotes("\"hello'"), "\"hello'");
}

#[test]
fn serialize_writes_every_tag_in_order() {
    let mut colors = MarkdownColors::default();
    colors.link = "#123456".to_owned();
    let text = serialize(&colors);
    let expected = "# Markdown Editor color configuration\n\
# Empty values follow the selected theme's palette.\n\
h1: \"\"\nh2: \"\"\nh3: \"\"\nh4: \"\"\nh5: \"\"\nh6: \"\"\nstrong: \"\"\nemphasis: \"\"\n\
inline_code: \"\"\ninline_code_background: \"\"\nlink: \"#123456\"\ncode_block_background: \"\"\n\
table_border: \"\"\ntable_header_background: \"\"\ntable_header_text: \"\"\n";
    assert_eq!(text, expected);
}

#[test]
fn round_trip_keeps_every_value_without_newlines() {
    let mut colors = MarkdownColors::default();
    for (i, tag) in MarkdownTag::ALL.iter().enumerate() {
        *colors.get_mut(*tag) = format!(" odd: \"{i}\" '# ");
    }
    assert_eq!(parse(&serialize(&colors)), colors);
}

#[test]
fn parse_handles_crlf_and_spacing() {
    let text = "  h1 :   \"#aa0000\"  \r\nstrong:'#00bb00'\r\n";
    let colors = parse(text);
    assert_eq!(colors.h1, "#aa0000");
    assert_eq!(colors.strong, "#00bb00");
}

#[test]
fn later_lines_override_earlier_ones() {
    let colors = parse("h2: \"#000001\"\nh2: \"#000002\"\n");
    assert_eq!(colors.h2, "#000002");
}

#[test]
fn ignored_lines_do_not_change_the_result() {
    let t = "h1: \"#ff0000\"\n";
    let u = "h2: '#00ff00'\nlink: abc";
    let base = parse(&format!("{t}{u}"));
    for j in ["", "   ", "# note", "no colon here", "unknown: #123456", "  \t\r", "h9: x\r"] {
        let with = parse(&format!("{t}{j}\n{u}"));
        assert_eq!(with.h1, base.h1);
        assert_eq!(with.h2, base.h2);
        assert_eq!(with.link, base.link);
        assert_eq!(with, base);
    }
}
