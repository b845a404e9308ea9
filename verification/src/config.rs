//! The text format of the per-tag colour configuration: a flat YAML map of
//! tag name to hex string, preceded by a comment header.
//!
//! ```yaml
//! # Markdown Editor color configuration
//! # Empty values follow the selected theme's palette.
//! h1: "#ff0000"
//! h2: ""
//! strong: "#00ff00"
//! ```

use vstd::prelude::*;
use crate::table::chars_eq;
use crate::text::{is_ws, from_chars, lines_chars, lines_spec, no_newlines, split_seq, to_chars, trim, trim_bounds, sub_chars};
use crate::theme::{all_empty, tag_index, MarkdownColors, MarkdownTag, TAG_COUNT};

verus! {

/// Header comment written at the top of every config file so users editing it
/// by hand know what empty values mean.
pub const FILE_HEADER: &'static str = "# Markdown Editor color configuration\n# Empty values follow the selected theme's palette.\n";

/// The config key of the tag at position `i` of the panel order.
pub open spec fn key_str(i: int) -> Seq<char> {
    if i == 0 {
        "h1"@
    } else if i == 1 {
        "h2"@
    } else if i == 2 {
        "h3"@
    } else if i == 3 {
        "h4"@
    } else if i == 4 {
        "h5"@
    } else if i == 5 {
        "h6"@
    } else if i == 6 {
        "strong"@
    } else if i == 7 {
        "emphasis"@
    } else if i == 8 {
        "inline_code"@
    } else if i == 9 {
        "inline_code_background"@
    } else if i == 10 {
        "link"@
    } else if i == 11 {
        "code_block_background"@
    } else if i == 12 {
        "table_border"@
    } else if i == 13 {
        "table_header_background"@
    } else {
        "table_header_text"@
    }
}

/// The config key of the tag at position `i`.
pub fn key_name(i: usize) -> (r: &'static str)
    requires
        i < TAG_COUNT,
    ensures
        r@ == key_str(i as int),
{
    if i == 0 {
        "h1"
    } else if i == 1 {
        "h2"
    } else if i == 2 {
        "h3"
    } else if i == 3 {
        "h4"
    } else if i == 4 {
        "h5"
    } else if i == 5 {
        "h6"
    } else if i == 6 {
        "strong"
    } else if i == 7 {
        "emphasis"
    } else if i == 8 {
        "inline_code"
    } else if i == 9 {
        "inline_code_background"
    } else if i == 10 {
        "link"
    } else if i == 11 {
        "code_block_background"
    } else if i == 12 {
        "table_border"
    } else if i == 13 {
        "table_header_background"
    } else {
        "table_header_text"
    }
}

/// One line of the file: `key: "value"` and a newline.
pub open spec fn entry_line(key: Seq<char>, value: Seq<char>) -> Seq<char> {
    key + ": \""@ + value + "\"\n"@
}

/// The entry lines of the first `k` tags of `m`.
pub open spec fn entries_text(m: Seq<Seq<char>>, k: int) -> Seq<char>
    decreases k,
{
    if k <= 0 {
        Seq::empty()
    } else {
        entries_text(m, k - 1) + entry_line(key_str(k - 1), m[k - 1])
    }
}

/// The file text for the overrides `m`: the header, then every tag in panel
/// order.
pub open spec fn serialize_spec(m: Seq<Seq<char>>) -> Seq<char> {
    FILE_HEADER@ + entries_text(m, 15)
}

/// Borrow each field as `(key_name, value)` in declaration order, used by
/// [`serialize`].
pub fn entries(colors: &MarkdownColors) -> (r: Vec<(&'static str, &str)>)
    ensures
        r@.len() == 15,
        forall|i: int| 0 <= i < 15 ==> (#[trigger] r@[i]).0@ == key_str(i) && r@[i].1@ == colors@[i],
{
    let mut out: Vec<(&'static str, &str)> = Vec::new();
    let mut i: usize = 0;
    while i < TAG_COUNT
        invariant
            i <= 15,
            out@.len() == i,
            forall|j: int| 0 <= j < i ==> (#[trigger] out@[j]).0@ == key_str(j) && out@[j].1@ == colors@[j],
        decreases 15 - i,
    {
        let tag = MarkdownTag::from_index(i);
        out.push((key_name(i), colors.get(tag)));
        i += 1;
    }
    out
}

/// Serialize [`MarkdownColors`] into the YAML text written to disk.
///
/// Every field is emitted, quoted with double quotes so empty strings and
/// values containing `#` are preserved correctly.
pub fn serialize(colors: &MarkdownColors) -> (r: String)
    ensures
        r@ == serialize_spec(colors@),
{
    let mut out = String::from_str(FILE_HEADER);
    let list = entries(colors);
    let mut i: usize = 0;
    while i < list.len()
        invariant
            list@.len() == 15,
            forall|j: int| 0 <= j < 15 ==> (#[trigger] list@[j]).0@ == key_str(j) && list@[j].1@ == colors@[j],
            i <= 15,
            out@ == FILE_HEADER@ + entries_text(colors@, i as int),
        decreases 15 - i,
    {
        let (key, value) = list[i];
        out.append(key);
        out.append(": \"");
        out.append(value);
        out.append("\"\n");
        assert(out@ =~= FILE_HEADER@ + entries_text(colors@, i + 1));
        i += 1;
    }
    out
}

/// `value` without one layer of matching surrounding quotes (`"…"` or `'…'`).
pub open spec fn strip_quotes_spec(v: Seq<char>) -> Seq<char> {
    if v.len() >= 2 && ((v[0] == '"' && v.last() == '"') || (v[0] == '\'' && v.last() == '\'')) {
        v.subrange(1, v.len() - 1)
    } else {
        v
    }
}

/// Strip one layer of surrounding double or single quotes from `value`.
pub fn strip_quotes(value: &str) -> (r: &str)
    ensures
        r@ == strip_quotes_spec(value@),
{
    let n = value.unicode_len();
    if n >= 2 {
        let first = value.get_char(0);
        let last = value.get_char(n - 1);
        if (first == '"' && last == '"') || (first == '\'' && last == '\'') {
            return value.substring_char(1, n - 1);
        }
    }
    value
}

/// The position of `key` in the panel order, if it names a tag.
pub open spec fn key_index_from(key: Seq<char>, i: int) -> Option<int>
    decreases 15 - i,
{
    if i < 0 || i >= 15 {
        None
    } else if key == key_str(i) {
        Some(i)
    } else {
        key_index_from(key, i + 1)
    }
}

/// The position of `key` in the panel order, if it names a tag.
pub open spec fn key_index(key: Seq<char>) -> Option<int> {
    key_index_from(key, 0)
}

/// The overrides `m` after assigning `value` to the tag named `key` (unknown
/// keys change nothing).
pub open spec fn assign_spec(m: Seq<Seq<char>>, key: Seq<char>, value: Seq<char>) -> Seq<Seq<char>> {
    match key_index(key) {
        Some(i) => m.update(i, value),
        None => m,
    }
}

/// Set the field named `key` to `value`, if it matches a known field.
/// Unknown keys are silently ignored.
pub fn assign(colors: &mut MarkdownColors, key: &str, value: &str)
    ensures
        final(colors)@ == assign_spec(old(colors)@, key@, value@),
{
    let kc = to_chars(key);
    let mut i: usize = 0;
    while i < TAG_COUNT
        invariant
            i <= 15,
            kc@ == key@,
            key_index_from(key@, i as int) == key_index(key@),
            *colors == *old(colors),
        decreases 15 - i,
    {
        let name = to_chars(key_name(i));
        if chars_eq(name.as_slice(), kc.as_slice()) {
            let tag = MarkdownTag::from_index(i);
            let slot = colors.get_mut(tag);
            *slot = value.to_owned();
            return;
        }
        i += 1;
    }
}

/// First index of `c` in `s`.
pub open spec fn first_index_of(s: Seq<char>, c: char) -> Option<int> {
    if s.contains(c) {
        Some(choose|i: int| 0 <= i < s.len() && s[i] == c && forall|j: int| 0 <= j < i ==> s[j] != c)
    } else {
        None
    }
}

/// The effect of one config line: blank and `#` comment lines and lines
/// without a colon change nothing; otherwise the trimmed text before the
/// first colon is the key, and the trimmed text after it, without one layer
/// of quotes, is the value.
pub open spec fn parse_line(m: Seq<Seq<char>>, line: Seq<char>) -> Seq<Seq<char>> {
    let t = trim(line);
    if t.len() == 0 || t[0] == '#' {
        m
    } else {
        match first_index_of(t, ':') {
            None => m,
            Some(p) => assign_spec(m, trim(t.take(p)), strip_quotes_spec(trim(t.skip(p + 1)))),
        }
    }
}

/// The overrides after reading the first `k` lines of `ls` from defaults.
pub open spec fn parse_lines(ls: Seq<Seq<char>>, k: int) -> Seq<Seq<char>>
    decreases k,
{
    if k <= 0 {
        all_empty()
    } else {
        parse_line(parse_lines(ls, k - 1), ls[k - 1])
    }
}

/// The overrides that the config text `text` sets, line by line.
pub open spec fn parse_spec(text: Seq<char>) -> Seq<Seq<char>> {
    parse_lines(lines_spec(text), lines_spec(text).len() as int)
}

/// Index of the first `c` in `s[from..to]`, if any.
fn find_char(s: &[char], from: usize, to: usize, c: char) -> (r: Option<usize>)
    requires
        from <= to <= s@.len(),
    ensures
        first_index_of(s@.subrange(from as int, to as int), c) == (match r {
            Some(i) => Some(i - from),
            None => None::<int>,
        }),
        r matches Some(i) ==> from <= i < to,
{
    let ghost t = s@.subrange(from as int, to as int);
    let mut i = from;
    while i < to
        invariant
            from <= i <= to <= s@.len(),
            t == s@.subrange(from as int, to as int),
            forall|j: int| 0 <= j < i - from ==> t[j] != c,
        decreases to - i,
    {
        if s[i] == c {
            proof {
                let p = (i - from) as int;
                assert(t[p] == c);
                assert(t.contains(c));
                let q = choose|q: int| 0 <= q < t.len() && t[q] == c && forall|j: int| 0 <= j < q ==> t[j] != c;
                assert(0 <= p < t.len() && t[p] == c && forall|j: int| 0 <= j < p ==> t[j] != c);
                if q < p {
                    assert(t[q] != c);
                }
                if p < q {
                    assert(t[p] != c);
                }
            }
            return Some(i);
        }
        i += 1;
    }
    assert(!t.contains(c));
    None
}

/// Apply one config line to `colors`.
fn parse_one_line(colors: &mut MarkdownColors, line: &[char])
    ensures
        final(colors)@ == parse_line(old(colors)@, line@),
{
    let (a, b) = trim_bounds(line);
    let ghost t = line@.subrange(a as int, b as int);
    if a == b || line[a] == '#' {
        return;
    }
    let colon = match find_char(line, a, b, ':') {
        Some(p) => p,
        None => {
            return;
        },
    };
    assert(t.take(colon - a) =~= line@.subrange(a as int, colon as int));
    assert(t.skip(colon - a + 1) =~= line@.subrange(colon + 1, b as int));
    let key_part = sub_chars(line, a, colon);
    let (ka, kb) = trim_bounds(key_part.as_slice());
    let key = from_chars(sub_chars(key_part.as_slice(), ka, kb).as_slice());
    let value_part = sub_chars(line, colon + 1, b);
    let (va, vb) = trim_bounds(value_part.as_slice());
    let value = from_chars(sub_chars(value_part.as_slice(), va, vb).as_slice());
    let stripped = strip_quotes(value.as_str());
    assign(colors, key.as_str(), stripped);
}

/// Parse YAML config text into [`MarkdownColors`].
///
/// Recognizes `key: value` lines where value may be quoted (`"…"` / `'…'`) or
/// bare. Empty values (no value after the colon) map to empty strings. Unknown
/// keys and blank/comment lines are skipped so users can add their own notes.
pub fn parse(text: &str) -> (r: MarkdownColors)
    ensures
        r@ == parse_spec(text@),
{
    let mut colors = MarkdownColors::default();
    let chars = to_chars(text);
    let lines = lines_chars(chars.as_slice());
    let ghost ls = lines_spec(text@);
    let mut i: usize = 0;
    while i < lines.len()
        invariant
            lines@.len() == ls.len(),
            forall|j: int| 0 <= j < lines@.len() ==> #[trigger] lines@[j]@ == ls[j],
            i <= lines@.len(),
            colors@ == parse_lines(ls, i as int),
        decreases lines@.len() - i,
    {
        parse_one_line(&mut colors, lines[i].as_slice());
        i += 1;
    }
    colors
}


/// The lines `ls`, each followed by a newline.
pub open spec fn lines_text(ls: Seq<Seq<char>>) -> Seq<char>
    decreases ls.len(),
{
    if ls.len() == 0 {
        Seq::empty()
    } else {
        lines_text(ls.drop_last()) + ls.last() + seq!['\n']
    }
}

/// Newline-terminated lines split on `\n` give the lines and a final empty
/// piece.
proof fn lemma_split_lines_text(ls: Seq<Seq<char>>)
    requires
        no_newlines(ls),
    ensures
        split_seq(lines_text(ls), '\n') == ls.push(Seq::<char>::empty()),
    decreases ls.len(),
{
    let e = Seq::<char>::empty();
    if ls.len() == 0 {
        assert(split_seq(e, '\n') =~= seq![e]);
        assert(ls.push(e) =~= seq![e]);
    } else {
        let init = ls.drop_last();
        let l = ls.last();
        assert(no_newlines(init)) by {
            assert forall|i: int| 0 <= i < init.len() implies !(#[trigger] init[i]).contains('\n') by {
                assert(init[i] == ls[i]);
            }
        }
        assert(!l.contains('\n'));
        lemma_split_lines_text(init);
        let a = lines_text(init);
        assert(lines_text(ls) =~= (a + l).push('\n'));
        crate::text::lemma_split_push_sep(a + l, '\n');
        if init.len() == 0 {
            assert(a =~= e);
            assert(a + l =~= l);
            crate::text::lemma_split_no_sep(l, '\n');
            assert(split_seq(a + l, '\n') =~= seq![l]);
            assert(seq![l] =~= ls);
        } else {
            let pre = lines_text(init.drop_last()) + init.last();
            assert(a =~= pre.push('\n'));
            crate::text::lemma_split_push_sep(pre, '\n');
            assert(split_seq(pre, '\n').push(e) == init.push(e));
            assert(split_seq(pre, '\n') =~= split_seq(pre, '\n').push(e).drop_last());
            assert(split_seq(pre, '\n') =~= init);
            crate::text::lemma_split_append(pre, l, '\n');
            assert(a + l =~= pre.push('\n') + l);
            assert(split_seq(a + l, '\n') =~= init.push(l));
            assert(init.push(l) =~= ls);
        }
    }
}

/// `str::lines` of newline-terminated lines (none ending in a carriage
/// return) gives the lines back.
proof fn lemma_lines_of_lines_text(ls: Seq<Seq<char>>)
    requires
        no_newlines(ls),
        forall|i: int| 0 <= i < ls.len() ==> !((#[trigger] ls[i]).len() > 0 && ls[i].last() == '\r'),
    ensures
        lines_spec(lines_text(ls)) == ls,
{
    lemma_split_lines_text(ls);
    let parts = split_seq(lines_text(ls), '\n');
    assert(parts.last() =~= Seq::<char>::empty());
    assert forall|i: int| 0 <= i < ls.len() implies lines_spec(lines_text(ls))[i] == ls[i] by {
        assert(parts[i] == ls[i]);
    }
    assert(lines_spec(lines_text(ls)) =~= ls);
}

/// Newline-terminated lines of two lists, one after the other.
proof fn lemma_lines_text_concat(a: Seq<Seq<char>>, b: Seq<Seq<char>>)
    ensures
        lines_text(a + b) == lines_text(a) + lines_text(b),
    decreases b.len(),
{
    if b.len() == 0 {
        assert(a + b =~= a);
        assert(lines_text(b) =~= Seq::<char>::empty());
        assert(lines_text(a) + lines_text(b) =~= lines_text(a));
    } else {
        lemma_lines_text_concat(a, b.drop_last());
        assert((a + b).drop_last() =~= a + b.drop_last());
        assert((a + b).last() == b.last());
        assert(lines_text(a + b) =~= lines_text(a) + lines_text(b));
    }
}


/// The facts about config key `i` that reading a written file back needs:
/// it is non-empty, holds no `:` and no white space at its ends, does not
/// start a comment, and names tag `i`.
proof fn lemma_key(i: int)
    requires
        0 <= i < 15,
    ensures
        key_str(i).len() > 0,
        forall|k: int| 0 <= k < key_str(i).len() ==> #[trigger] key_str(i)[k] != ':' && key_str(i)[k] != '\n',
        !is_ws(key_str(i)[0]),
        key_str(i)[0] != '#',
        !is_ws(key_str(i).last()),
        key_index(key_str(i)) == Some(i),
{
        reveal_strlit("h1");
        reveal_strlit("h2");
        reveal_strlit("h3");
        reveal_strlit("h4");
        reveal_strlit("h5");
        reveal_strlit("h6");
        reveal_strlit("strong");
        reveal_strlit("emphasis");
        reveal_strlit("inline_code");
        reveal_strlit("inline_code_background");
        reveal_strlit("link");
        reveal_strlit("code_block_background");
        reveal_strlit("table_border");
        reveal_strlit("table_header_background");
        reveal_strlit("table_header_text");
    reveal_with_fuel(key_index_from, 16);
    if i == 0 {
        assert(key_str(i) == "h1"@);
        assert(key_index(key_str(i)) == Some(0int));
    } else if i == 1 {
        assert(key_str(i) == "h2"@);
        assert("h2"@ != "h1"@) by {
            assert("h2"@[1] != "h1"@[1]);
        }
        assert(key_index(key_str(i)) == Some(1int));
    } else if i == 2 {
        assert(key_str(i) == "h3"@);
        assert("h3"@ != "h1"@) by {
            assert("h3"@[1] != "h1"@[1]);
        }
        assert("h3"@ != "h2"@) by {
            assert("h3"@[1] != "h2"@[1]);
        }
        assert(key_index(key_str(i)) == Some(2int));
    } else if i == 3 {
        assert(key_str(i) == "h4"@);
        assert("h4"@ != "h1"@) by {
            assert("h4"@[1] != "h1"@[1]);
        }
        assert("h4"@ != "h2"@) by {
            assert("h4"@[1] != "h2"@[1]);
        }
        assert("h4"@ != "h3"@) by {
            assert("h4"@[1] != "h3"@[1]);
        }
        assert(key_index(key_str(i)) == Some(3int));
    } else if i == 4 {
        assert(key_str(i) == "h5"@);
        assert("h5"@ != "h1"@) by {
            assert("h5"@[1] != "h1"@[1]);
        }
        assert("h5"@ != "h2"@) by {
            assert("h5"@[1] != "h2"@[1]);
        }
        assert("h5"@ != "h3"@) by {
            assert("h5"@[1] != "h3"@[1]);
        }
        assert("h5"@ != "h4"@) by {
            assert("h5"@[1] != "h4"@[1]);
        }
        assert(key_index(key_str(i)) == Some(4int));
    } else if i == 5 {
        assert(key_str(i) == "h6"@);
        assert("h6"@ != "h1"@) by {
            assert("h6"@[1] != "h1"@[1]);
        }
        assert("h6"@ != "h2"@) by {
            assert("h6"@[1] != "h2"@[1]);
        }
        assert("h6"@ != "h3"@) by {
            assert("h6"@[1] != "h3"@[1]);
        }
        assert("h6"@ != "h4"@) by {
            assert("h6"@[1] != "h4"@[1]);
        }
        assert("h6"@ != "h5"@) by {
            assert("h6"@[1] != "h5"@[1]);
        }
        assert(key_index(key_str(i)) == Some(5int));
    } else if i == 6 {
        assert(key_str(i) == "strong"@);
        assert(key_index(key_str(i)) == Some(6int));
    } else if i == 7 {
        assert(key_str(i) == "emphasis"@);
        assert(key_index(key_str(i)) == Some(7int));
    } else if i == 8 {
        assert(key_str(i) == "inline_code"@);
        assert(key_index(key_str(i)) == Some(8int));
    } else if i == 9 {
        assert(key_str(i) == "inline_code_background"@);
        assert(key_index(key_str(i)) == Some(9int));
    } else if i == 10 {
        assert(key_str(i) == "link"@);
        assert(key_index(key_str(i)) == Some(10int));
    } else if i == 11 {
        assert(key_str(i) == "code_block_background"@);
        assert(key_index(key_str(i)) == Some(11int));
    } else if i == 12 {
        assert(key_str(i) == "table_border"@);
        assert(key_index(key_str(i)) == Some(12int));
    } else if i == 13 {
        assert(key_str(i) == "table_header_background"@);
        assert(key_index(key_str(i)) == Some(13int));
    } else {
        assert(key_str(i) == "table_header_text"@);
        assert(key_index(key_str(i)) == Some(14int));
    }
}


/// An entry line without its newline: `key: "value"`.
pub open spec fn entry_body(key: Seq<char>, value: Seq<char>) -> Seq<char> {
    key + ": \""@ + value + "\""@
}

/// A written entry line, read back, sets its tag to its value.
proof fn lemma_parse_entry(acc: Seq<Seq<char>>, i: int, v: Seq<char>)
    requires
        0 <= i < 15,
        acc.len() == 15,
    ensures
        parse_line(acc, entry_body(key_str(i), v)) == acc.update(i, v),
{
    let key = key_str(i);
    lemma_key(i);
    reveal_strlit(": \"");
    reveal_strlit("\"");
    let e = entry_body(key, v);
    let p = key.len() as int;
    assert(e[0] == key[0]);
    assert(e.last() == '"');
    assert(crate::text::trim_start(e) == e);
    assert(crate::text::trim_end(e) == e);
    assert(trim(e) == e);
    assert(e[p] == ':');
    assert(e.contains(':'));
    let q = choose|q: int| 0 <= q < e.len() && e[q] == ':' && forall|j: int| 0 <= j < q ==> e[j] != ':';
    if q < p {
        assert(e[q] == key[q]);
    }
    if q > p {
        assert(e[p] != ':');
    }
    assert(q == p);
    assert(first_index_of(e, ':') == Some(p));
    assert(e.take(p) =~= key);
    assert(crate::text::trim_start(key) == key);
    assert(crate::text::trim_end(key) == key);
    let rest = e.skip(p + 1);
    let quoted = seq!['"'] + v + seq!['"'];
    assert(rest =~= seq![' '] + quoted);
    assert(rest.drop_first() =~= quoted);
    assert(is_ws(' '));
    assert(crate::text::trim_start(quoted) == quoted);
    assert(crate::text::trim_start(rest) == quoted);
    assert(crate::text::trim_end(quoted) == quoted);
    assert(trim(rest) == quoted);
    assert(strip_quotes_spec(quoted) =~= v);
}

/// Reading back the text written for the overrides `m` gives `m`, as long
/// as no value holds a newline.
pub proof fn lemma_round_trip(m: Seq<Seq<char>>)
    requires
        m.len() == 15,
        forall|i: int| 0 <= i < 15 ==> !(#[trigger] m[i]).contains('\n'),
    ensures
        parse_spec(serialize_spec(m)) == m,
{
    reveal_strlit("# Markdown Editor color configuration");
    reveal_strlit("# Empty values follow the selected theme's palette.");
    reveal_strlit("# Markdown Editor color configuration\n# Empty values follow the selected theme's palette.\n");
    reveal_strlit(": \"");
    reveal_strlit("\"\n");
    reveal_strlit("\"");
    let h1 = "# Markdown Editor color configuration"@;
    let h2 = "# Empty values follow the selected theme's palette."@;
    assert(FILE_HEADER@ =~= h1 + seq!['\n'] + h2 + seq!['\n']);
    let hs = seq![h1, h2];
    assert(lines_text(hs) =~= h1 + seq!['\n'] + h2 + seq!['\n']) by {
        reveal_with_fuel(lines_text, 3);
        assert(hs.drop_last() =~= seq![h1]);
        assert(seq![h1].drop_last() =~= Seq::<Seq<char>>::empty());
    }
    let es = Seq::new(15, |i: int| entry_body(key_str(i), m[i]));
    // The entries part is the entry lines, each with its newline.
    assert forall|k: int| 0 <= k <= 15 implies entries_text(m, k) == lines_text(es.take(k)) by {
        lemma_entries_prefix(m, es, k);
    }
    assert(es.take(15) =~= es);
    let ls = hs + es;
    lemma_lines_text_concat(hs, es);
    assert(serialize_spec(m) =~= lines_text(ls));
    // Every line is newline-free and ends in a non-`\r` char.
    assert forall|i: int| 0 <= i < ls.len() implies !(#[trigger] ls[i]).contains('\n') && !(ls[i].len() > 0
        && ls[i].last() == '\r') by {
        if i >= 2 {
            let k = i - 2;
            lemma_key(k);
            assert(ls[i] == entry_body(key_str(k), m[k]));
            assert(!m[k].contains('\n'));
            let kl = key_str(k).len() as int;
            let e = ls[i];
            assert forall|j: int| 0 <= j < e.len() implies e[j] != '\n' by {
                if j < kl {
                    assert(e[j] == key_str(k)[j]);
                } else if j < kl + 3 {
                    assert(e[j] == ": \""@[j - kl]);
                } else if j < kl + 3 + m[k].len() {
                    assert(e[j] == m[k][j - kl - 3]);
                } else {
                    assert(e[j] == '"');
                }
            }
        } else if i == 0 {
            assert(ls[i] == h1);
            assert(forall|k: int| 0 <= k < h1.len() ==> h1[k] != '\n');
        } else {
            assert(ls[i] == h2);
            assert(forall|k: int| 0 <= k < h2.len() ==> h2[k] != '\n');
        }
    }
    lemma_lines_of_lines_text(ls);
    assert(lines_spec(serialize_spec(m)) == ls);
    // Reading the lines: the two comment lines change nothing, then entry
    // `k` sets tag `k`.
    assert(trim(h1) == h1) by {
        assert(crate::text::trim_start(h1) == h1);
        assert(crate::text::trim_end(h1) == h1);
    }
    assert(trim(h2) == h2) by {
        assert(crate::text::trim_start(h2) == h2);
        assert(crate::text::trim_end(h2) == h2);
    }
    assert(parse_lines(ls, 2) == all_empty()) by {
        reveal_with_fuel(parse_lines, 3);
        assert(ls[0] == h1);
        assert(ls[1] == h2);
        assert(trim(h1)[0] == '#');
        assert(trim(h2)[0] == '#');
    }
    assert forall|i: int| 2 <= i < 17 implies #[trigger] ls[i] == entry_body(key_str(i - 2), m[i - 2]) by {
        assert(ls[i] == es[i - 2]);
    }
    lemma_parse_prefix(m, ls, 15);
    assert(Seq::new(
        15,
        |t: int|
            if t < 15 {
                m[t]
            } else {
                Seq::<char>::empty()
            },
    ) =~= m);
}

/// The first `k` entries of the written text are the first `k` entry lines.
proof fn lemma_entries_prefix(m: Seq<Seq<char>>, es: Seq<Seq<char>>, k: int)
    requires
        m.len() == 15,
        es == Seq::new(15, |i: int| entry_body(key_str(i), m[i])),
        0 <= k <= 15,
    ensures
        entries_text(m, k) == lines_text(es.take(k)),
    decreases k,
{
    reveal_strlit("\"\n");
    reveal_strlit("\"");
    if k == 0 {
        assert(es.take(0) =~= Seq::<Seq<char>>::empty());
    } else {
        lemma_entries_prefix(m, es, k - 1);
        assert(es.take(k).drop_last() =~= es.take(k - 1));
        assert(es.take(k).last() == entry_body(key_str(k - 1), m[k - 1]));
        assert(entry_line(key_str(k - 1), m[k - 1]) =~= entry_body(key_str(k - 1), m[k - 1]) + seq!['\n']);
    }
}

/// After the two comment lines and `k` entry lines, the first `k` tags hold
/// their written values and the others are still empty.
proof fn lemma_parse_prefix(m: Seq<Seq<char>>, ls: Seq<Seq<char>>, k: int)
    requires
        m.len() == 15,
        ls.len() == 17,
        parse_lines(ls, 2) == all_empty(),
        forall|i: int| 2 <= i < 17 ==> #[trigger] ls[i] == entry_body(key_str(i - 2), m[i - 2]),
        0 <= k <= 15,
    ensures
        parse_lines(ls, 2 + k) == Seq::new(
            15,
            |t: int|
                if t < k {
                    m[t]
                } else {
                    Seq::<char>::empty()
                },
        ),
    decreases k,
{
    if k == 0 {
        assert(all_empty() =~= Seq::new(
            15,
            |t: int|
                if t < 0 {
                    m[t]
                } else {
                    Seq::<char>::empty()
                },
        ));
    } else {
        lemma_parse_prefix(m, ls, k - 1);
        let prev = Seq::new(
            15,
            |t: int|
                if t < k - 1 {
                    m[t]
                } else {
                    Seq::<char>::empty()
                },
        );
        assert(ls[(k - 1) + 2] == entry_body(key_str(k - 1), m[k - 1]));
        lemma_parse_entry(prev, k - 1, m[k - 1]);
        assert(prev.update(k - 1, m[k - 1]) =~= Seq::new(
            15,
            |t: int|
                if t < k {
                    m[t]
                } else {
                    Seq::<char>::empty()
                },
        ));
    }
}

} // verus!
