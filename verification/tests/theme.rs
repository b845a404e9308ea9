use md_editor::theme::{heading_tag, hex_string, parse_hex_rgb, MarkdownColors, MarkdownTag};

#[test]
fn get_and_get_mut_round_trip() {
    let mut colors = MarkdownColors::default();
    for tag in MarkdownTag::ALL {
        assert!(colors.get(tag).is_empty());
        *colors.get_mut(tag) = "#abcdef".to_owned();
        assert_eq!(colors.get(tag), "#abcdef");
    }
}

#[test]
fn parse_hex_full_form() {
    assert_eq!(parse_hex_rgb("#ff5733"), Some((0xff, 0x57, 0x33)));
}

#[test]
fn parse_hex_short_form() {
    // #f53 expands to #ff5533
    assert_eq!(parse_hex_rgb("#f53"), Some((0xff, 0x55, 0x33)));
}

#[test]
fn parse_hex_without_hash() {
    assert!(parse_hex_rgb("ff5733").is_some());
    assert!(parse_hex_rgb("f53").is_some());
}

#[test]
fn parse_hex_rejects_invalid() {
    assert!(parse_hex_rgb("").is_none());
    assert!(parse_hex_rgb("xyz").is_none());
    assert!(parse_hex_rgb("12345").is_none());
    assert!(parse_hex_rgb("gggggg").is_none());
}

#[test]
fn parse_hex_trims_and_strips_every_leading_hash() {
    assert_eq!(parse_hex_rgb("  ##A0b1C2 \n"), Some((0xa0, 0xb1, 0xc2)));
    // A `+` sign in a digit pair is accepted, as by `u8::from_str_radix`.
    assert_eq!(parse_hex_rgb("+f0000"), None);
    assert!(parse_hex_rgb("#ff57 3").is_none());
}

#[test]
fn hex_string_formats_lowercase_pairs() {
    assert_eq!(hex_string(255, 0, 0), "#ff0000");
    assert_eq!(hex_string(0x1a, 0x33, 0x4d), "#1a334d");
    assert_eq!(hex_string(0, 0, 0), "#000000");
}

#[test]
fn to_hex_round_trips() {
    for (r, g, b) in [(128u8, 64u8, 191u8), (0, 0, 0), (255, 255, 255), (1, 16, 254)] {
        assert_eq!(parse_hex_rgb(&hex_string(r, g, b)), Some((r, g, b)));
    }
}

#[test]
fn parse_hex_rejects_signs_and_non_ascii() {
    assert_eq!(parse_hex_rgb("+f+f+f"), None);
    assert_eq!(parse_hex_rgb("éa"), None);
    assert_eq!(parse_hex_rgb("aébcd"), None);
    assert_eq!(parse_hex_rgb("aé123"), None);
    assert_eq!(parse_hex_rgb("é1"), None);
    assert_eq!(parse_hex_rgb("#éé"), None);
}

#[test]
fn color_hex_changed_updates_override() {
    let mut colors = MarkdownColors::default();
    *colors.get_mut(MarkdownTag::Strong) = "#00ff00".into();
    assert_eq!(colors.strong, "#00ff00");
}

#[test]
fn color_reset_clears_override() {
    let mut colors = MarkdownColors::default();
    *colors.get_mut(MarkdownTag::Link) = hex_string(0, 0, 255);
    assert!(!colors.link.is_empty());
    colors.get_mut(MarkdownTag::Link).clear();
    assert!(colors.link.is_empty());
}

#[test]
fn reset_all_colors_clears_every_override() {
    let mut colors = MarkdownColors::default();
    for tag in MarkdownTag::ALL {
        *colors.get_mut(tag) = hex_string(128, 128, 128);
    }
    colors = MarkdownColors::default();
    for tag in MarkdownTag::ALL {
        assert!(colors.get(tag).is_empty(), "{tag:?} not cleared");
    }
}

#[test]
fn per_level_heading_colors_are_independent() {
    let mut colors = MarkdownColors::default();
    *colors.get_mut(MarkdownTag::H1) = hex_string(255, 0, 0);
    *colors.get_mut(MarkdownTag::H2) = hex_string(0, 255, 0);
    assert_eq!(colors.h1, "#ff0000");
    assert_eq!(colors.h2, "#00ff00");
    assert!(colors.h3.is_empty());
    colors.get_mut(MarkdownTag::H1).clear();
    assert!(colors.h1.is_empty());
    assert_eq!(colors.h2, "#00ff00");
}

#[test]
fn table_color_overrides_round_trip() {
    let mut colors = MarkdownColors::default();
    *colors.get_mut(MarkdownTag::TableBorder) = hex_string(0x1a, 0x33, 0x4d);
    *colors.get_mut(MarkdownTag::TableHeaderText) = "#ffaa00".into();
    assert_eq!(colors.table_border, "#1a334d");
    assert_eq!(colors.table_header_text, "#ffaa00");
    assert!(colors.table_header_background.is_empty());
}

#[test]
fn labels_and_indices() {
    assert_eq!(MarkdownTag::H1.label(), "Heading 1");
    assert_eq!(MarkdownTag::ALL.len(), 15);
    for (i, tag) in MarkdownTag::ALL.iter().enumerate() {
        assert_eq!(MarkdownTag::from_index(i), *tag);
    }
}

#[test]
fn overrides_resolve_per_tag_and_level() {
    let mut colors = MarkdownColors::default();
    // No overrides: every tag follows the theme.
    for tag in MarkdownTag::ALL {
        assert_eq!(colors.override_rgb(tag), None);
    }
    colors.h1 = "#ff0000".to_owned();
    colors.link = "not-a-color".to_owned();
    colors.table_header_text = "#fed".to_owned();
    assert_eq!(colors.override_rgb(MarkdownTag::H1), Some((0xff, 0, 0)));
    assert_eq!(colors.override_rgb(MarkdownTag::H2), None);
    // An unparseable string is treated like no override.
    assert_eq!(colors.override_rgb(MarkdownTag::Link), None);
    assert_eq!(colors.override_rgb(MarkdownTag::TableHeaderText), Some((0xff, 0xee, 0xdd)));
    // Heading levels map to their tags; anything past 5 is the sixth level.
    assert_eq!(heading_tag(1), MarkdownTag::H1);
    assert_eq!(heading_tag(3), MarkdownTag::H3);
    assert_eq!(heading_tag(6), MarkdownTag::H6);
    assert_eq!(heading_tag(9), MarkdownTag::H6);
}
