//! Per-tag Markdown colour overrides: the customizable tags, the override
//! strings, and the hex colour notation they use.

use vstd::prelude::*;
use crate::text::{
    from_chars, is_ws, strip_start, string_push, to_chars, trim, trim_bounds, trim_end,
    trim_start,
};

verus! {

/// Identifies a Markdown tag whose color the user can customize.
#[derive(Debug, Clone, Copy, PartialEq, Eq, Hash, Structural)]
pub enum MarkdownTag {
    /// Level-1 heading (`#`).
    H1,
    /// Level-2 heading (`##`).
    H2,
    /// Level-3 heading (`###`).
    H3,
    /// Level-4 heading (`####`).
    H4,
    /// Level-5 heading (`#####`).
    H5,
    /// Level-6 heading (`######`).
    H6,
    /// **Bold** (strong) text.
    Strong,
    /// *Italic* (emphasis) text.
    Emphasis,
    /// `Inline code` text color.
    InlineCode,
    /// Background of `inline code`.
    InlineCodeBackground,
    /// [Link] text color.
    Link,
    /// Background of fenced code blocks.
    CodeBlockBackground,
    /// Outer border / frame color of Markdown tables.
    TableBorder,
    /// Background color of a table's header row.
    TableHeaderBackground,
    /// Text color of a table's header row.
    TableHeaderText,
}

/// Number of customizable tags.
pub const TAG_COUNT: usize = 15;

/// Position of `tag` in the panel order (and in [`MarkdownColors`]'s view).
pub open spec fn tag_index(tag: MarkdownTag) -> int {
    match tag {
        MarkdownTag::H1 => 0,
        MarkdownTag::H2 => 1,
        MarkdownTag::H3 => 2,
        MarkdownTag::H4 => 3,
        MarkdownTag::H5 => 4,
        MarkdownTag::H6 => 5,
        MarkdownTag::Strong => 6,
        MarkdownTag::Emphasis => 7,
        MarkdownTag::InlineCode => 8,
        MarkdownTag::InlineCodeBackground => 9,
        MarkdownTag::Link => 10,
        MarkdownTag::CodeBlockBackground => 11,
        MarkdownTag::TableBorder => 12,
        MarkdownTag::TableHeaderBackground => 13,
        MarkdownTag::TableHeaderText => 14,
    }
}

/// The tag at position `i` of the panel order.
pub open spec fn tag_at(i: int) -> MarkdownTag {
    if i == 0 {
        MarkdownTag::H1
    } else if i == 1 {
        MarkdownTag::H2
    } else if i == 2 {
        MarkdownTag::H3
    } else if i == 3 {
        MarkdownTag::H4
    } else if i == 4 {
        MarkdownTag::H5
    } else if i == 5 {
        MarkdownTag::H6
    } else if i == 6 {
        MarkdownTag::Strong
    } else if i == 7 {
        MarkdownTag::Emphasis
    } else if i == 8 {
        MarkdownTag::InlineCode
    } else if i == 9 {
        MarkdownTag::InlineCodeBackground
    } else if i == 10 {
        MarkdownTag::Link
    } else if i == 11 {
        MarkdownTag::CodeBlockBackground
    } else if i == 12 {
        MarkdownTag::TableBorder
    } else if i == 13 {
        MarkdownTag::TableHeaderBackground
    } else {
        MarkdownTag::TableHeaderText
    }
}

/// The panel label of a tag.
pub open spec fn label_spec(tag: MarkdownTag) -> Seq<char> {
    match tag {
        MarkdownTag::H1 => "Heading 1"@,
        MarkdownTag::H2 => "Heading 2"@,
        MarkdownTag::H3 => "Heading 3"@,
        MarkdownTag::H4 => "Heading 4"@,
        MarkdownTag::H5 => "Heading 5"@,
        MarkdownTag::H6 => "Heading 6"@,
        MarkdownTag::Strong => "Bold"@,
        MarkdownTag::Emphasis => "Italic"@,
        MarkdownTag::InlineCode => "Inline code"@,
        MarkdownTag::InlineCodeBackground => "Inline code bg"@,
        MarkdownTag::Link => "Link"@,
        MarkdownTag::CodeBlockBackground => "Code block bg"@,
        MarkdownTag::TableBorder => "Table border"@,
        MarkdownTag::TableHeaderBackground => "Table header bg"@,
        MarkdownTag::TableHeaderText => "Table header text"@,
    }
}

impl MarkdownTag {
    /// Human-readable label shown in the customization panel.
    pub fn label(self) -> (r: &'static str)
        ensures
            r@ == label_spec(self),
    {
        match self {
            MarkdownTag::H1 => "Heading 1",
            MarkdownTag::H2 => "Heading 2",
            MarkdownTag::H3 => "Heading 3",
            MarkdownTag::H4 => "Heading 4",
            MarkdownTag::H5 => "Heading 5",
            MarkdownTag::H6 => "Heading 6",
            MarkdownTag::Strong => "Bold",
            MarkdownTag::Emphasis => "Italic",
            MarkdownTag::InlineCode => "Inline code",
            MarkdownTag::InlineCodeBackground => "Inline code bg",
            MarkdownTag::Link => "Link",
            MarkdownTag::CodeBlockBackground => "Code block bg",
            MarkdownTag::TableBorder => "Table border",
            MarkdownTag::TableHeaderBackground => "Table header bg",
            MarkdownTag::TableHeaderText => "Table header text",
        }
    }

    /// Every customizable tag, in the order shown in the panel.
    pub const ALL: [MarkdownTag; 15] = [
        MarkdownTag::H1,
        MarkdownTag::H2,
        MarkdownTag::H3,
        MarkdownTag::H4,
        MarkdownTag::H5,
        MarkdownTag::H6,
        MarkdownTag::Strong,
        MarkdownTag::Emphasis,
        MarkdownTag::InlineCode,
        MarkdownTag::InlineCodeBackground,
        MarkdownTag::Link,
        MarkdownTag::CodeBlockBackground,
        MarkdownTag::TableBorder,
        MarkdownTag::TableHeaderBackground,
        MarkdownTag::TableHeaderText,
    ];

    /// The tag at position `i` of the panel order.
    pub fn from_index(i: usize) -> (r: MarkdownTag)
        requires
            i < TAG_COUNT,
        ensures
            r == tag_at(i as int),
            tag_index(r) == i,
    {
        if i == 0 {
            MarkdownTag::H1
        } else if i == 1 {
            MarkdownTag::H2
        } else if i == 2 {
            MarkdownTag::H3
        } else if i == 3 {
            MarkdownTag::H4
        } else if i == 4 {
            MarkdownTag::H5
        } else if i == 5 {
            MarkdownTag::H6
        } else if i == 6 {
            MarkdownTag::Strong
        } else if i == 7 {
            MarkdownTag::Emphasis
        } else if i == 8 {
            MarkdownTag::InlineCode
        } else if i == 9 {
            MarkdownTag::InlineCodeBackground
        } else if i == 10 {
            MarkdownTag::Link
        } else if i == 11 {
            MarkdownTag::CodeBlockBackground
        } else if i == 12 {
            MarkdownTag::TableBorder
        } else if i == 13 {
            MarkdownTag::TableHeaderBackground
        } else {
            MarkdownTag::TableHeaderText
        }
    }
}

/// Per-tag Markdown color overrides, stored as hex strings (`"#RRGGBB"`,
/// `"#RGB"`, or `"RRGGBB"`). An empty string means **follow the theme**.
#[derive(Debug, Clone, PartialEq)]
pub struct MarkdownColors {
    /// Hex override for level-1 heading text, or empty to follow the theme.
    pub h1: String,
    /// Hex override for level-2 heading text, or empty to follow the theme.
    pub h2: String,
    /// Hex override for level-3 heading text, or empty to follow the theme.
    pub h3: String,
    /// Hex override for level-4 heading text, or empty to follow the theme.
    pub h4: String,
    /// Hex override for level-5 heading text, or empty to follow the theme.
    pub h5: String,
    /// Hex override for level-6 heading text, or empty to follow the theme.
    pub h6: String,
    /// Hex override for **bold** text, or empty to follow the theme.
    pub strong: String,
    /// Hex override for *italic* text, or empty to follow the theme.
    pub emphasis: String,
    /// Hex override for `inline code` text, or empty to follow the theme.
    pub inline_code: String,
    /// Hex override for the `inline code` background, or empty to follow the theme.
    pub inline_code_background: String,
    /// Hex override for [link] text, or empty to follow the theme.
    pub link: String,
    /// Hex override for fenced code-block backgrounds, or empty to follow the theme.
    pub code_block_background: String,
    /// Hex override for the outer border of Markdown tables, or empty to follow the theme.
    pub table_border: String,
    /// Hex override for the background of a table's header row, or empty to follow the theme.
    pub table_header_background: String,
    /// Hex override for the text color of a table's header row, or empty to follow the theme.
    pub table_header_text: String,
}

impl View for MarkdownColors {
    type V = Seq<Seq<char>>;

    /// The fifteen override strings, in panel order.
    open spec fn view(&self) -> Seq<Seq<char>> {
        seq![
            self.h1@,
            self.h2@,
            self.h3@,
            self.h4@,
            self.h5@,
            self.h6@,
            self.strong@,
            self.emphasis@,
            self.inline_code@,
            self.inline_code_background@,
            self.link@,
            self.code_block_background@,
            self.table_border@,
            self.table_header_background@,
            self.table_header_text@,
        ]
    }
}

/// Fifteen empty overrides: every tag follows the theme.
pub open spec fn all_empty() -> Seq<Seq<char>> {
    Seq::new(15, |i: int| Seq::<char>::empty())
}

impl Default for MarkdownColors {
    /// No overrides: every tag follows the theme.
    fn default() -> (r: Self)
        ensures
            r@ =~= all_empty(),
    {
        MarkdownColors {
            h1: String::new(),
            h2: String::new(),
            h3: String::new(),
            h4: String::new(),
            h5: String::new(),
            h6: String::new(),
            strong: String::new(),
            emphasis: String::new(),
            inline_code: String::new(),
            inline_code_background: String::new(),
            link: String::new(),
            code_block_background: String::new(),
            table_border: String::new(),
            table_header_background: String::new(),
            table_header_text: String::new(),
        }
    }
}

impl MarkdownColors {
    /// The override string of `tag`.
    pub open spec fn field(&self, tag: MarkdownTag) -> String {
        match tag {
            MarkdownTag::H1 => self.h1,
            MarkdownTag::H2 => self.h2,
            MarkdownTag::H3 => self.h3,
            MarkdownTag::H4 => self.h4,
            MarkdownTag::H5 => self.h5,
            MarkdownTag::H6 => self.h6,
            MarkdownTag::Strong => self.strong,
            MarkdownTag::Emphasis => self.emphasis,
            MarkdownTag::InlineCode => self.inline_code,
            MarkdownTag::InlineCodeBackground => self.inline_code_background,
            MarkdownTag::Link => self.link,
            MarkdownTag::CodeBlockBackground => self.code_block_background,
            MarkdownTag::TableBorder => self.table_border,
            MarkdownTag::TableHeaderBackground => self.table_header_background,
            MarkdownTag::TableHeaderText => self.table_header_text,
        }
    }

    /// Get the hex string for `tag`.
    pub fn get(&self, tag: MarkdownTag) -> (r: &str)
        ensures
            r@ == self@[tag_index(tag)],
    {
        match tag {
            MarkdownTag::H1 => self.h1.as_str(),
            MarkdownTag::H2 => self.h2.as_str(),
            MarkdownTag::H3 => self.h3.as_str(),
            MarkdownTag::H4 => self.h4.as_str(),
            MarkdownTag::H5 => self.h5.as_str(),
            MarkdownTag::H6 => self.h6.as_str(),
            MarkdownTag::Strong => self.strong.as_str(),
            MarkdownTag::Emphasis => self.emphasis.as_str(),
            MarkdownTag::InlineCode => self.inline_code.as_str(),
            MarkdownTag::InlineCodeBackground => self.inline_code_background.as_str(),
            MarkdownTag::Link => self.link.as_str(),
            MarkdownTag::CodeBlockBackground => self.code_block_background.as_str(),
            MarkdownTag::TableBorder => self.table_border.as_str(),
            MarkdownTag::TableHeaderBackground => self.table_header_background.as_str(),
            MarkdownTag::TableHeaderText => self.table_header_text.as_str(),
        }
    }

    /// Mutably get the hex string for `tag`.
    pub fn get_mut(&mut self, tag: MarkdownTag) -> (r: &mut String)
        ensures
            *r == old(self).field(tag),
            final(self)@ == old(self)@.update(tag_index(tag), (*final(r))@),
    {
        match tag {
            MarkdownTag::H1 => &mut self.h1,
            MarkdownTag::H2 => &mut self.h2,
            MarkdownTag::H3 => &mut self.h3,
            MarkdownTag::H4 => &mut self.h4,
            MarkdownTag::H5 => &mut self.h5,
            MarkdownTag::H6 => &mut self.h6,
            MarkdownTag::Strong => &mut self.strong,
            MarkdownTag::Emphasis => &mut self.emphasis,
            MarkdownTag::InlineCode => &mut self.inline_code,
            MarkdownTag::InlineCodeBackground => &mut self.inline_code_background,
            MarkdownTag::Link => &mut self.link,
            MarkdownTag::CodeBlockBackground => &mut self.code_block_background,
            MarkdownTag::TableBorder => &mut self.table_border,
            MarkdownTag::TableHeaderBackground => &mut self.table_header_background,
            MarkdownTag::TableHeaderText => &mut self.table_header_text,
        }
    }
}

/// The tag of heading level `level`: levels 1 to 5 have their own tag, any
/// other level is level 6.
pub open spec fn heading_tag_spec(level: u8) -> MarkdownTag {
    if level == 1 {
        MarkdownTag::H1
    } else if level == 2 {
        MarkdownTag::H2
    } else if level == 3 {
        MarkdownTag::H3
    } else if level == 4 {
        MarkdownTag::H4
    } else if level == 5 {
        MarkdownTag::H5
    } else {
        MarkdownTag::H6
    }
}

/// The tag whose override colours headings of `level`.
pub fn heading_tag(level: u8) -> (r: MarkdownTag)
    ensures
        r == heading_tag_spec(level),
{
    match level {
        1 => MarkdownTag::H1,
        2 => MarkdownTag::H2,
        3 => MarkdownTag::H3,
        4 => MarkdownTag::H4,
        5 => MarkdownTag::H5,
        _ => MarkdownTag::H6,
    }
}

impl MarkdownColors {
    /// The colour that overrides the theme for `tag`: its string read as a
    /// hex colour, or `None` when the string is empty or malformed (the
    /// theme's colour applies then).
    pub fn override_rgb(&self, tag: MarkdownTag) -> (r: Option<(u8, u8, u8)>)
        ensures
            r == parse_hex_spec(self@[tag_index(tag)]),
    {
        parse_hex_rgb(self.get(tag))
    }
}

/// Value of a hexadecimal digit (either case).
pub open spec fn hex_val(c: char) -> Option<u8> {
    if '0' <= c && c <= '9' {
        Some((c as u32 - '0' as u32) as u8)
    } else if 'a' <= c && c <= 'f' {
        Some((c as u32 - 'a' as u32 + 10) as u8)
    } else if 'A' <= c && c <= 'F' {
        Some((c as u32 - 'A' as u32 + 10) as u8)
    } else {
        None
    }
}

/// The byte written by the two hex digits `a b`, or `None` unless both are
/// hex digits.
pub open spec fn pair_val(a: char, b: char) -> Option<u8> {
    match (hex_val(a), hex_val(b)) {
        (Some(x), Some(y)) => Some((x * 16 + y) as u8),
        _ => None,
    }
}

/// `trim(input)` without its leading `#`s: the digits of a hex colour.
pub open spec fn hex_digits(input: Seq<char>) -> Seq<char> {
    strip_start(trim(input), '#')
}

/// The colour `input` denotes: exactly six hex digits `RRGGBB` or exactly
/// three `RGB` (each digit doubled), after trimming and dropping leading
/// `#`s; `None` for anything else.
pub open spec fn parse_hex_spec(input: Seq<char>) -> Option<(u8, u8, u8)> {
    let s = hex_digits(input);
    if s.len() == 6 {
        match (pair_val(s[0], s[1]), pair_val(s[2], s[3]), pair_val(s[4], s[5])) {
            (Some(r), Some(g), Some(b)) => Some((r, g, b)),
            _ => None,
        }
    } else if s.len() == 3 {
        match (pair_val(s[0], s[0]), pair_val(s[1], s[1]), pair_val(s[2], s[2])) {
            (Some(r), Some(g), Some(b)) => Some((r, g, b)),
            _ => None,
        }
    } else {
        None
    }
}

fn hex_digit(c: char) -> (r: Option<u8>)
    ensures
        r == hex_val(c),
{
    if '0' <= c && c <= '9' {
        Some((c as u32 - '0' as u32) as u8)
    } else if 'a' <= c && c <= 'f' {
        Some((c as u32 - 'a' as u32 + 10) as u8)
    } else if 'A' <= c && c <= 'F' {
        Some((c as u32 - 'A' as u32 + 10) as u8)
    } else {
        None
    }
}

fn pair_value(a: char, b: char) -> (r: Option<u8>)
    ensures
        r == pair_val(a, b),
{
    match (hex_digit(a), hex_digit(b)) {
        (Some(x), Some(y)) => Some(x * 16 + y),
        _ => None,
    }
}

/// Parse a hex color string (`"#RRGGBB"`, `"#RGB"`, `"RRGGBB"`, or `"RGB"`)
/// into its red, green and blue bytes. Returns `None` for empty or malformed
/// input.
pub fn parse_hex_rgb(input: &str) -> (r: Option<(u8, u8, u8)>)
    ensures
        r == parse_hex_spec(input@),
{
    let chars = to_chars(input);
    let (a, b) = trim_bounds(chars.as_slice());
    let mut i = a;
    while i < b && chars[i] == '#'
        invariant
            a <= i <= b <= chars@.len(),
            strip_start(chars@.subrange(a as int, b as int), '#') == strip_start(chars@.subrange(i as int, b as int), '#'),
        decreases b - i,
    {
        assert(chars@.subrange(i as int, b as int).drop_first() =~= chars@.subrange(i + 1, b as int));
        i += 1;
    }
    let ghost s = chars@.subrange(i as int, b as int);
    assert(hex_digits(input@) == s);
    let n = b - i;
    if n == 6 {
        let r = pair_value(chars[i], chars[i + 1]);
        let g = pair_value(chars[i + 2], chars[i + 3]);
        let bl = pair_value(chars[i + 4], chars[i + 5]);
        match (r, g, bl) {
            (Some(r), Some(g), Some(bl)) => Some((r, g, bl)),
            _ => None,
        }
    } else if n == 3 {
        let r = pair_value(chars[i], chars[i]);
        let g = pair_value(chars[i + 1], chars[i + 1]);
        let bl = pair_value(chars[i + 2], chars[i + 2]);
        match (r, g, bl) {
            (Some(r), Some(g), Some(bl)) => Some((r, g, bl)),
            _ => None,
        }
    } else {
        None
    }
}

/// Lowercase hex digit of `d` (0..=15).
pub open spec fn hex_char(d: u8) -> char {
    if d < 10 {
        ((d + 0x30) as u8) as char
    } else {
        ((d - 10 + 0x61) as u8) as char
    }
}

/// `#rrggbb`, lowercase.
pub open spec fn hex_string_spec(r: u8, g: u8, b: u8) -> Seq<char> {
    seq![
        '#',
        hex_char(r / 16),
        hex_char(r % 16),
        hex_char(g / 16),
        hex_char(g % 16),
        hex_char(b / 16),
        hex_char(b % 16),
    ]
}

fn hex_digit_char(d: u8) -> (c: char)
    requires
        d < 16,
    ensures
        c == hex_char(d),
{
    if d < 10 {
        (d + 0x30) as char
    } else {
        (d - 10 + 0x61) as char
    }
}

/// Format red, green and blue bytes as a lowercase `#rrggbb` hex string.
pub fn hex_string(r: u8, g: u8, b: u8) -> (s: String)
    ensures
        s@ == hex_string_spec(r, g, b),
{
    let mut out = String::new();
    string_push(&mut out, '#');
    string_push(&mut out, hex_digit_char(r / 16));
    string_push(&mut out, hex_digit_char(r % 16));
    string_push(&mut out, hex_digit_char(g / 16));
    string_push(&mut out, hex_digit_char(g % 16));
    string_push(&mut out, hex_digit_char(b / 16));
    string_push(&mut out, hex_digit_char(b % 16));
    assert(out@ =~= hex_string_spec(r, g, b));
    out
}


/// Trimming leaves alone a string whose first and last chars are not white
/// space.
proof fn lemma_trim_unchanged(s: Seq<char>)
    requires
        s.len() > 0,
        !is_ws(s[0]),
        !is_ws(s.last()),
    ensures
        trim(s) == s,
{
    assert(trim_start(s) == s);
    assert(trim_end(s) == s);
}

/// A hex digit char reads back as its value.
proof fn lemma_hex_char(d: u8)
    requires
        d < 16,
    ensures
        hex_val(hex_char(d)) == Some(d),
        hex_char(d) != '#',
        !is_ws(hex_char(d)),
        (hex_char(d) as u32) < 0x80,
{
}

/// A byte split into its two hex digits reads back as the byte.
proof fn lemma_hex_pair(x: u8)
    ensures
        pair_val(hex_char(x / 16), hex_char(x % 16)) == Some(x),
{
    lemma_hex_char(x / 16);
    lemma_hex_char(x % 16);
    assert((x / 16) * 16 + x % 16 == x) by (nonlinear_arith);
}

/// `#rrggbb` parses back to the colour it was made from.
pub proof fn lemma_hex_round_trip(r: u8, g: u8, b: u8)
    ensures
        parse_hex_spec(hex_string_spec(r, g, b)) == Some((r, g, b)),
{
    let s = hex_string_spec(r, g, b);
    lemma_hex_char(r / 16);
    lemma_hex_char(r % 16);
    lemma_hex_char(g / 16);
    lemma_hex_char(g % 16);
    lemma_hex_char(b / 16);
    lemma_hex_char(b % 16);
    lemma_hex_pair(r);
    lemma_hex_pair(g);
    lemma_hex_pair(b);
    lemma_trim_unchanged(s);
    let t = s.drop_first();
    assert(strip_start(t, '#') == t);
    assert(strip_start(s, '#') == t);
    assert(hex_digits(s) == t);
}

} // verus!
