//! Line-level structure of a Markdown document: blank lines, GFM table rows
//! and delimiter rows, table extents, and the grouping of lines into
//! renderable segments.

use vstd::prelude::*;
use crate::motion::{lines_to_chars, string_views};
use crate::text::vec_views;
use crate::text::{
    contains_char, from_chars, is_blank, is_ws, join_range, join_spec, split_chars, split_seq, to_chars, trim,
    trim_bounds,
};

verus! {

/// `line` contains a pipe.
pub open spec fn has_pipe(line: Seq<char>) -> bool {
    line.contains('|')
}

/// A char allowed in a delimiter row.
pub open spec fn is_delim_char(c: char) -> bool {
    c == '|' || c == '-' || c == ':' || c == ' ' || c == '\t'
}

/// A GFM delimiter row (e.g. `|---|:--:|`): once trimmed, only pipes, dashes,
/// colons, spaces and tabs, with at least one pipe and one dash.
pub open spec fn is_delim(line: Seq<char>) -> bool {
    let t = trim(line);
    &&& t.len() > 0
    &&& forall|i: int| 0 <= i < t.len() ==> is_delim_char(#[trigger] t[i])
    &&& t.contains('|')
    &&& t.contains('-')
}

/// The pipes of `s` all lie within its trimmed part.
proof fn lemma_contains_trimmed(s: Seq<char>, a: int, b: int, c: char)
    requires
        0 <= a <= b <= s.len(),
        trim(s) == s.subrange(a, b),
        forall|j: int| 0 <= j < a ==> is_ws(#[trigger] s[j]),
        forall|j: int| b <= j < s.len() ==> is_ws(#[trigger] s[j]),
        !is_ws(c),
    ensures
        s.contains(c) <==> trim(s).contains(c),
{
    if s.contains(c) {
        let i = choose|i: int| 0 <= i < s.len() && s[i] == c;
        assert(trim(s)[i - a] == c);
    }
    if trim(s).contains(c) {
        let i = choose|i: int| 0 <= i < trim(s).len() && trim(s)[i] == c;
        assert(s[i + a] == c);
    }
}

/// Whether `line` (as chars) could be a table row: it contains a pipe.
pub fn is_table_row_chars(line: &[char]) -> (r: bool)
    ensures
        r == has_pipe(line@),
{
    contains_char(line, '|')
}

/// Whether `line` could be a table row (a non-blank line containing a pipe).
pub fn is_table_row(line: &str) -> (r: bool)
    ensures
        r == has_pipe(line@),
        r == (trim(line@).len() > 0 && trim(line@).contains('|')),
{
    let chars = to_chars(line);
    let (a, b) = trim_bounds(chars.as_slice());
    proof {
        lemma_contains_trimmed(line@, a as int, b as int, '|');
    }
    is_table_row_chars(chars.as_slice())
}

/// Whether `line` (as chars) is a GFM table delimiter row.
pub fn is_delimiter_row_chars(line: &[char]) -> (r: bool)
    ensures
        r == is_delim(line@),
{
    let (a, b) = trim_bounds(line);
    let ghost t = line@.subrange(a as int, b as int);
    assert(trim(line@) == t);
    if a == b {
        return false;
    }
    let mut has_pipe = false;
    let mut has_dash = false;
    let mut i = a;
    while i < b
        invariant
            a <= i <= b <= line@.len(),
            t == line@.subrange(a as int, b as int),
            trim(line@) == t,
            forall|j: int| 0 <= j < i - a ==> is_delim_char(#[trigger] t[j]),
            has_pipe == t.subrange(0, i - a).contains('|'),
            has_dash == t.subrange(0, i - a).contains('-'),
        decreases b - i,
    {
        let ch = line[i];
        let ghost prev = t.subrange(0, i - a);
        let ghost next = t.subrange(0, i + 1 - a);
        assert(next =~= prev.push(ch));
        proof {
            assert(next[i - a] == ch);
            assert forall|c: char| c != ch implies (next.contains(c) <==> prev.contains(c)) by {
                if next.contains(c) {
                    let k = choose|k: int| 0 <= k < next.len() && next[k] == c;
                    assert(prev[k] == c);
                }
                if prev.contains(c) {
                    let k = choose|k: int| 0 <= k < prev.len() && prev[k] == c;
                    assert(next[k] == c);
                }
            }
        }
        if ch == '|' {
            has_pipe = true;
        } else if ch == '-' {
            has_dash = true;
        } else if ch == ':' || ch == ' ' || ch == '\t' {
        } else {
            assert(!is_delim_char(t[i - a]));
            return false;
        }
        i += 1;
    }
    assert(t.subrange(0, b - a) =~= t);
    has_pipe && has_dash
}

/// Whether `line` is a GFM table delimiter row, e.g. `|---|---|` or `:--:|--`.
///
/// Requires at least one pipe so a bare `---` (a thematic break) is not mistaken
/// for a single-column delimiter.
pub fn is_delimiter_row(line: &str) -> (r: bool)
    ensures
        r == is_delim(line@),
{
    let chars = to_chars(line);
    is_delimiter_row_chars(chars.as_slice())
}

/// Start of the non-blank run of lines that ends just before `i` (or `i`
/// itself when `lines[i - 1]` is blank).
pub open spec fn run_start(ls: Seq<Seq<char>>, i: int) -> int
    decreases i,
{
    if i > 0 && i <= ls.len() && !is_blank(ls[i - 1]) {
        run_start(ls, i - 1)
    } else {
        i
    }
}

/// End (exclusive) of the non-blank run of lines starting at `i`.
pub open spec fn run_end(ls: Seq<Seq<char>>, i: int) -> int
    decreases ls.len() - i,
{
    if 0 <= i < ls.len() && !is_blank(ls[i]) {
        run_end(ls, i + 1)
    } else {
        i
    }
}

/// End (exclusive) of the run of pipe lines starting at `j`, stopping at `re`.
pub open spec fn table_end(ls: Seq<Seq<char>>, j: int, re: int) -> int
    decreases re - j,
{
    if 0 <= j < re && j < ls.len() && has_pipe(ls[j]) {
        table_end(ls, j + 1, re)
    } else {
        j
    }
}

/// `d` anchors a table: a delimiter row directly below a row with a pipe.
pub open spec fn anchors_table(ls: Seq<Seq<char>>, d: int) -> bool {
    1 <= d < ls.len() && is_delim(ls[d]) && has_pipe(ls[d - 1])
}

/// The first table, anchored at a delimiter row in `d..re`, whose lines
/// include `line`.
pub open spec fn find_table(ls: Seq<Seq<char>>, line: int, d: int, re: int) -> Option<(int, int)>
    decreases re - d,
{
    if d >= re || d < 1 {
        None
    } else if anchors_table(ls, d) && d - 1 <= line < table_end(ls, d + 1, re) {
        Some((d - 1, table_end(ls, d + 1, re)))
    } else {
        find_table(ls, line, d + 1, re)
    }
}

/// The GFM table that `lines[line]` belongs to, as the line range
/// `header..end` (header, delimiter, body rows), if any. A table is a header
/// row, a delimiter row directly below it and the pipe rows that follow,
/// all within one run of non-blank lines.
pub open spec fn table_bounds_spec(ls: Seq<Seq<char>>, line: int) -> Option<(int, int)> {
    if is_blank(ls[line]) {
        None
    } else {
        let rs = run_start(ls, line);
        let re = run_end(ls, line + 1);
        find_table(ls, line, rs + 1, re)
    }
}

/// Whether `line` (as chars) is blank.
pub fn is_blank_chars(line: &[char]) -> (r: bool)
    ensures
        r == is_blank(line@),
{
    let (a, b) = trim_bounds(line);
    a == b
}

/// [`table_bounds`] on char lines.
pub fn table_bounds_chars(lines: &Vec<Vec<char>>, line: usize) -> (r: Option<(usize, usize)>)
    requires
        line < lines@.len(),
    ensures
        match r {
            None => table_bounds_spec(vec_views(lines@), line as int) is None,
            Some((s, e)) => table_bounds_spec(vec_views(lines@), line as int) == Some((s as int, e as int)),
        },
{
    let ghost ls = vec_views(lines@);
    if is_blank_chars(lines[line].as_slice()) {
        return None;
    }
    let mut run_start_i = line;
    while run_start_i > 0 && !is_blank_chars(lines[run_start_i - 1].as_slice())
        invariant
            ls == vec_views(lines@),
            run_start_i <= line < lines@.len(),
            run_start(ls, run_start_i as int) == run_start(ls, line as int),
        decreases run_start_i,
    {
        run_start_i -= 1;
    }
    assert(line < lines.len());
    let mut run_end_i = line + 1;
    while run_end_i < lines.len() && !is_blank_chars(lines[run_end_i].as_slice())
        invariant
            ls == vec_views(lines@),
            line < run_end_i <= lines@.len(),
            run_end(ls, run_end_i as int) == run_end(ls, line + 1),
        decreases lines@.len() - run_end_i,
    {
        run_end_i += 1;
    }
    let ghost rs = run_start_i as int;
    let ghost re = run_end_i as int;
    let mut delimiter = run_start_i + 1;
    while delimiter < run_end_i
        invariant
            ls == vec_views(lines@),
            line < lines@.len(),
            re == run_end_i <= lines@.len(),
            rs + 1 <= delimiter,
            run_start_i as int == rs,
            !is_blank(ls[line as int]),
            rs == run_start(ls, line as int),
            re == run_end(ls, line + 1),
            find_table(ls, line as int, delimiter as int, re) == find_table(ls, line as int, rs + 1, re),
        decreases run_end_i - delimiter,
    {
        if is_delimiter_row_chars(lines[delimiter].as_slice()) && is_table_row_chars(
            lines[delimiter - 1].as_slice(),
        ) {
            let header = delimiter - 1;
            let mut end = delimiter + 1;
            while end < run_end_i && is_table_row_chars(lines[end].as_slice())
                invariant
                    ls == vec_views(lines@),
                    delimiter < end <= run_end_i <= lines@.len(),
                    re == run_end_i,
                    table_end(ls, end as int, re) == table_end(ls, delimiter + 1, re),
                decreases run_end_i - end,
            {
                end += 1;
            }
            if header <= line && line < end {
                return Some((header, end));
            }
        }
        delimiter += 1;
    }
    None
}

/// If `lines[line]` belongs to a GFM table, return the table's line range
/// `start..end` (header through last body row). Otherwise return `None`.
pub fn table_bounds(lines: &[String], line: usize) -> (r: Option<(usize, usize)>)
    requires
        line < lines@.len(),
    ensures
        match r {
            None => table_bounds_spec(string_views(lines@), line as int) is None,
            Some((s, e)) => table_bounds_spec(string_views(lines@), line as int) == Some((s as int, e as int)),
        },
{
    let chars = lines_to_chars(lines);
    table_bounds_chars(&chars, line)
}

pub proof fn lemma_run_end_bounds(ls: Seq<Seq<char>>, i: int)
    requires
        0 <= i <= ls.len(),
    ensures
        i <= run_end(ls, i) <= ls.len(),
    decreases ls.len() - i,
{
    if i < ls.len() && !is_blank(ls[i]) {
        lemma_run_end_bounds(ls, i + 1);
    }
}

pub proof fn lemma_run_start_bounds(ls: Seq<Seq<char>>, i: int)
    requires
        0 <= i <= ls.len(),
    ensures
        0 <= run_start(ls, i) <= i,
    decreases i,
{
    if i > 0 && !is_blank(ls[i - 1]) {
        lemma_run_start_bounds(ls, i - 1);
    }
}

pub proof fn lemma_table_end_bounds(ls: Seq<Seq<char>>, j: int, re: int)
    requires
        0 <= j <= re,
    ensures
        j <= table_end(ls, j, re) <= re,
    decreases re - j,
{
    if j < re && j < ls.len() && has_pipe(ls[j]) {
        lemma_table_end_bounds(ls, j + 1, re);
    }
}

pub proof fn lemma_find_table_bounds(ls: Seq<Seq<char>>, line: int, d: int, re: int)
    requires
        re <= ls.len(),
    ensures
        find_table(ls, line, d, re) matches Some((h, e)) ==> 0 <= h <= line < e <= re,
    decreases re - d,
{
    if d < re && d >= 1 {
        lemma_table_end_bounds(ls, d + 1, re);
        if !(anchors_table(ls, d) && d - 1 <= line < table_end(ls, d + 1, re)) {
            lemma_find_table_bounds(ls, line, d + 1, re);
        }
    }
}

/// The raw region for a cursor on a line contains that line.
pub proof fn lemma_active_bounds(ls: Seq<Seq<char>>, line: int)
    requires
        0 <= line < ls.len(),
    ensures
        0 <= active_bounds_spec(ls, line).0 <= line < active_bounds_spec(ls, line).1 <= ls.len(),
{
    if !is_blank(ls[line]) {
        lemma_run_end_bounds(ls, line + 1);
        lemma_find_table_bounds(ls, line, run_start(ls, line) + 1, run_end(ls, line + 1));
    }
}

/// The raw region for a cursor on `line`: the whole table when `line` is in
/// one, else just that line.
pub open spec fn active_bounds_spec(ls: Seq<Seq<char>>, line: int) -> (int, int) {
    match table_bounds_spec(ls, line) {
        Some(b) => b,
        None => (line, line + 1),
    }
}

/// [`active_bounds`] on char lines.
pub fn active_bounds_chars(lines: &Vec<Vec<char>>, line: usize) -> (r: (usize, usize))
    requires
        line < lines@.len(),
    ensures
        (r.0 as int, r.1 as int) == active_bounds_spec(vec_views(lines@), line as int),
{
    assert(line < lines.len());
    match table_bounds_chars(lines, line) {
        Some(b) => b,
        None => (line, line + 1),
    }
}

/// Determine the contiguous line range to edit as raw source when the cursor is
/// on `line`.
pub fn active_bounds(lines: &[String], line: usize) -> (r: (usize, usize))
    requires
        line < lines@.len(),
    ensures
        (r.0 as int, r.1 as int) == active_bounds_spec(string_views(lines@), line as int),
{
    let chars = lines_to_chars(lines);
    active_bounds_chars(&chars, line)
}

/// Split text into logical lines. Always returns at least one element.
pub fn split_lines(text: &str) -> (r: Vec<String>)
    ensures
        string_views(r@) == split_seq(text@, '\n'),
        r@.len() >= 1,
{
    let chars = to_chars(text);
    let parts = split_chars(chars.as_slice(), '\n');
    let mut out: Vec<String> = Vec::new();
    let mut i: usize = 0;
    while i < parts.len()
        invariant
            i <= parts@.len(),
            parts@.len() == split_seq(text@, '\n').len(),
            forall|j: int| 0 <= j < parts@.len() ==> #[trigger] parts@[j]@ == split_seq(text@, '\n')[j],
            out@.len() == i,
            forall|j: int| 0 <= j < i ==> #[trigger] out@[j]@ == split_seq(text@, '\n')[j],
        decreases parts@.len() - i,
    {
        let s = from_chars(parts[i].as_slice());
        out.push(s);
        i += 1;
    }
    proof {
        crate::text::lemma_split_nonempty(text@, '\n');
    }
    assert(string_views(out@) =~= split_seq(text@, '\n'));
    out
}

/// A renderable piece of the document, derived from the lines and active range.
#[derive(Debug, Clone, Copy, PartialEq, Eq, Structural)]
pub enum Segment {
    /// The active range — rendered as the raw, editable source.
    Active,
    /// A blank line at the given index — rendered as a clickable spacer.
    Blank(usize),
    /// A contiguous run of lines `start..end` rendered together as Markdown.
    Block { start: usize, end: usize },
}

/// End (exclusive) of the block starting at `i`: the first later line that is
/// blank, is the start of the active range, or is past the end.
pub open spec fn block_end(ls: Seq<Seq<char>>, i: int, active_start: int) -> int
    decreases ls.len() - i,
{
    if 0 <= i < ls.len() && i != active_start && !is_blank(ls[i]) {
        block_end(ls, i + 1, active_start)
    } else {
        i
    }
}

/// The segments of `ls` from line `i` on: the active range (starting at
/// `active_start`, skipping to `active_end`) is one segment, each blank line
/// is one, and each maximal run of other lines is a block.
pub open spec fn segments_from(ls: Seq<Seq<char>>, active_start: int, active_end: int, i: int) -> Seq<Segment>
    decreases ls.len() - i,
{
    if i < 0 || i >= ls.len() {
        Seq::empty()
    } else if i == active_start {
        let next = if active_end > ls.len() {
            ls.len() as int
        } else if active_end > i + 1 {
            active_end
        } else {
            i + 1
        };
        seq![Segment::Active] + segments_from(ls, active_start, active_end, next)
    } else if is_blank(ls[i]) {
        seq![Segment::Blank(i as usize)] + segments_from(ls, active_start, active_end, i + 1)
    } else {
        let e = block_end(ls, i + 1, active_start);
        proof {
            lemma_block_end_bounds(ls, i + 1, active_start);
        }
        seq![Segment::Block { start: i as usize, end: e as usize }] + segments_from(ls, active_start, active_end, e)
    }
}

pub proof fn lemma_block_end_bounds(ls: Seq<Seq<char>>, i: int, a: int)
    requires
        0 <= i <= ls.len(),
    ensures
        i <= block_end(ls, i, a) <= ls.len(),
    decreases ls.len() - i,
{
    if i < ls.len() && i != a && !is_blank(ls[i]) {
        lemma_block_end_bounds(ls, i + 1, a);
    }
}

/// [`segments`] on char lines.
pub fn segments_chars(lines: &Vec<Vec<char>>, active_start: usize, active_end: usize) -> (r: Vec<Segment>)
    ensures
        r@ == segments_from(vec_views(lines@), active_start as int, active_end as int, 0),
{
    let ghost ls = vec_views(lines@);
    let mut out: Vec<Segment> = Vec::new();
    let mut index: usize = 0;
    while index < lines.len()
        invariant
            ls == vec_views(lines@),
            index <= lines@.len(),
            out@ + segments_from(ls, active_start as int, active_end as int, index as int)
                == segments_from(ls, active_start as int, active_end as int, 0),
        decreases lines@.len() - index,
    {
        let ghost prev = out@;
        let ghost old_index = index as int;
        let ghost rest = segments_from(ls, active_start as int, active_end as int, index as int);
        if index == active_start {
            out.push(Segment::Active);
            index = if active_end > index + 1 {
                active_end
            } else {
                index + 1
            };
            if index > lines.len() {
                index = lines.len();
            }
            assert(rest == seq![Segment::Active] + segments_from(ls, active_start as int, active_end as int, index as int));
        } else if is_blank_chars(lines[index].as_slice()) {
            out.push(Segment::Blank(index));
            index += 1;
            assert(rest == seq![Segment::Blank((index - 1) as usize)] + segments_from(ls, active_start as int, active_end as int, index as int));
        } else {
            let start = index;
            index += 1;
            while index < lines.len() && index != active_start && !is_blank_chars(
                lines[index].as_slice(),
            )
                invariant
                    ls == vec_views(lines@),
                    start < index <= lines@.len(),
                    block_end(ls, index as int, active_start as int) == block_end(ls, start + 1, active_start as int),
                decreases lines@.len() - index,
            {
                index += 1;
            }
            assert(block_end(ls, index as int, active_start as int) == index);
            out.push(Segment::Block { start, end: index });
            assert(rest == seq![Segment::Block { start, end: index }] + segments_from(ls, active_start as int, active_end as int, index as int));
        }
        assert(out@ + segments_from(ls, active_start as int, active_end as int, index as int)
            =~= prev + rest);
    }
    assert(out@ + segments_from(ls, active_start as int, active_end as int, index as int) =~= out@);
    out
}

/// Walk the document, grouping it into renderable [`Segment`]s.
///
/// The active range and blank lines are their own segments; every other
/// contiguous run of lines becomes a single [`Segment::Block`] so multi-line
/// Markdown constructs render together.
pub fn segments(lines: &[String], active_start: usize, active_end: usize) -> (r: Vec<Segment>)
    ensures
        r@ == segments_from(string_views(lines@), active_start as int, active_end as int, 0),
{
    let chars = lines_to_chars(lines);
    segments_chars(&chars, active_start, active_end)
}

/// The text of the lines `ls[range]`, joined with `\n`, is exactly `source`.
pub open spec fn source_matches(ls: Seq<Seq<char>>, range: (int, int), source: Seq<char>) -> bool {
    join_spec(ls.subrange(range.0, range.1)) == source
}

/// [`block_source_eq`] on char lines.
pub fn block_source_eq_chars(lines: &Vec<Vec<char>>, range: (usize, usize), source: &[char]) -> (r: bool)
    requires
        range.0 <= range.1 <= lines@.len(),
    ensures
        r == source_matches(vec_views(lines@), (range.0 as int, range.1 as int), source@),
{
    let text = join_range(lines, range.0, range.1);
    chars_eq(text.as_slice(), source)
}

/// Whether two char slices are equal.
pub fn chars_eq(a: &[char], b: &[char]) -> (r: bool)
    ensures
        r == (a@ == b@),
{
    if a.len() != b.len() {
        return false;
    }
    let mut i: usize = 0;
    while i < a.len()
        invariant
            a@.len() == b@.len(),
            i <= a@.len(),
            forall|j: int| 0 <= j < i ==> a@[j] == b@[j],
        decreases a@.len() - i,
    {
        if a[i] != b[i] {
            return false;
        }
        i += 1;
    }
    assert(a@ =~= b@);
    true
}

/// Whether the block spanning `lines[range]` has exactly `source` as its text,
/// where `source` is a previously joined `lines[..].join("\n")`.
pub fn block_source_eq(lines: &[String], range: (usize, usize), source: &str) -> (r: bool)
    requires
        range.0 <= range.1 <= lines@.len(),
    ensures
        r == source_matches(string_views(lines@), (range.0 as int, range.1 as int), source@),
{
    let chars = lines_to_chars(lines);
    let src = to_chars(source);
    block_source_eq_chars(&chars, range, src.as_slice())
}


/// A char of the trimmed form of `s` is a char of `s`.
proof fn lemma_trim_contains(s: Seq<char>, c: char)
    ensures
        trim(s).contains(c) ==> s.contains(c),
{
    lemma_trim_end_contains(crate::text::trim_start(s), c);
    lemma_trim_start_contains(s, c);
}

proof fn lemma_trim_start_contains(s: Seq<char>, c: char)
    ensures
        crate::text::trim_start(s).contains(c) ==> s.contains(c),
    decreases s.len(),
{
    if s.len() > 0 && is_ws(s[0]) {
        lemma_trim_start_contains(s.drop_first(), c);
        if s.drop_first().contains(c) {
            let i = choose|i: int| 0 <= i < s.drop_first().len() && s.drop_first()[i] == c;
            assert(s[i + 1] == c);
        }
    }
}

proof fn lemma_trim_end_contains(s: Seq<char>, c: char)
    ensures
        crate::text::trim_end(s).contains(c) ==> s.contains(c),
    decreases s.len(),
{
    if s.len() > 0 && is_ws(s.last()) {
        lemma_trim_end_contains(s.drop_last(), c);
        if s.drop_last().contains(c) {
            let i = choose|i: int| 0 <= i < s.drop_last().len() && s.drop_last()[i] == c;
            assert(s[i] == c);
        }
    }
}

/// A line with a pipe is not blank.
proof fn lemma_pipe_nonblank(s: Seq<char>)
    requires
        has_pipe(s),
    ensures
        !is_blank(s),
{
    let i = choose|i: int| 0 <= i < s.len() && s[i] == '|';
    assert(!is_ws(s[i]));
}

/// A delimiter row has a pipe.
proof fn lemma_delim_pipe(s: Seq<char>)
    requires
        is_delim(s),
    ensures
        has_pipe(s),
{
    lemma_trim_contains(s, '|');
}

/// Walking back over non-blank lines `i..j` reaches the same run start.
proof fn lemma_run_start_same(ls: Seq<Seq<char>>, i: int, j: int)
    requires
        0 <= i <= j <= ls.len(),
        forall|k: int| i <= k < j ==> !is_blank(#[trigger] ls[k]),
    ensures
        run_start(ls, j) == run_start(ls, i),
    decreases j - i,
{
    if i < j {
        lemma_run_start_same(ls, i, j - 1);
        assert(!is_blank(ls[j - 1]));
    }
}

/// Walking forward over non-blank lines `i..j` reaches the same run end.
proof fn lemma_run_end_same(ls: Seq<Seq<char>>, i: int, j: int)
    requires
        0 <= i <= j <= ls.len(),
        forall|k: int| i <= k < j ==> !is_blank(#[trigger] ls[k]),
    ensures
        run_end(ls, i) == run_end(ls, j),
    decreases j - i,
{
    if i < j {
        assert(!is_blank(ls[i]));
        lemma_run_end_same(ls, i + 1, j);
    }
}

/// The lines before the end of a pipe run have pipes.
proof fn lemma_table_end_pipes(ls: Seq<Seq<char>>, j: int, k: int, re: int)
    requires
        0 <= j <= k < table_end(ls, j, re),
    ensures
        k < ls.len(),
        has_pipe(ls[k]),
    decreases k - j,
{
    if k > j {
        lemma_table_end_pipes(ls, j + 1, k, re);
    }
}

/// A pipe run over `j..k` continues where `k` starts.
proof fn lemma_table_end_skip(ls: Seq<Seq<char>>, j: int, k: int, re: int)
    requires
        0 <= j <= k <= re,
        k <= ls.len(),
        forall|m: int| j <= m < k ==> has_pipe(#[trigger] ls[m]),
    ensures
        table_end(ls, j, re) == table_end(ls, k, re),
    decreases k - j,
{
    if j < k {
        assert(has_pipe(ls[j]));
        lemma_table_end_skip(ls, j + 1, k, re);
    }
}

/// What a table found by the scan from `d` is made of.
proof fn lemma_find_found(ls: Seq<Seq<char>>, line: int, d: int, re: int)
    requires
        re <= ls.len(),
    ensures
        find_table(ls, line, d, re) matches Some((h, e)) ==> anchors_table(ls, h + 1) && e == table_end(
            ls,
            h + 2,
            re,
        ) && d <= h + 1 < re && h <= line < e,
    decreases re - d,
{
    if d < re && d >= 1 && !(anchors_table(ls, d) && d - 1 <= line < table_end(ls, d + 1, re)) {
        lemma_find_found(ls, line, d + 1, re);
    }
}

/// Every line of the table that the scan from `d` finds for `line` finds
/// the same table.
proof fn lemma_scan_same(ls: Seq<Seq<char>>, line: int, l2: int, d: int, re: int, h: int, e: int)
    requires
        re <= ls.len(),
        find_table(ls, line, d, re) == Some((h, e)),
        h <= l2 < e,
    ensures
        find_table(ls, l2, d, re) == Some((h, e)),
    decreases re - d,
{
    lemma_find_found(ls, line, d, re);
    if !(anchors_table(ls, d) && d - 1 <= line < table_end(ls, d + 1, re)) {
        lemma_find_found(ls, line, d + 1, re);
        if anchors_table(ls, d) && d - 1 <= l2 < table_end(ls, d + 1, re) {
            // Then `line` was in the table anchored at `d` too.
            lemma_table_end_bounds(ls, d + 1, re);
            lemma_delim_pipe(ls[h + 1]);
            assert forall|m: int| d + 1 <= m < e implies has_pipe(#[trigger] ls[m]) by {
                if m <= l2 {
                    lemma_table_end_pipes(ls, d + 1, m, re);
                } else if m >= h + 2 {
                    lemma_table_end_pipes(ls, h + 2, m, re);
                }
            }
            lemma_table_end_bounds(ls, h + 2, re);
            lemma_table_end_skip(ls, d + 1, e, re);
            lemma_table_end_bounds(ls, e, re);
            assert(false);
        }
        lemma_scan_same(ls, line, l2, d + 1, re, h, e);
    }
}

/// Every line of a table belongs to that same table.
pub proof fn lemma_table_stable(ls: Seq<Seq<char>>, line: int, l2: int)
    requires
        0 <= line < ls.len(),
        table_bounds_spec(ls, line) matches Some((h, e)) && h <= l2 < e,
    ensures
        table_bounds_spec(ls, l2) == table_bounds_spec(ls, line),
{
    let (h, e) = table_bounds_spec(ls, line)->0;
    let rs = run_start(ls, line);
    let re = run_end(ls, line + 1);
    lemma_run_end_bounds(ls, line + 1);
    lemma_find_found(ls, line, rs + 1, re);
    lemma_table_end_bounds(ls, h + 2, re);
    lemma_delim_pipe(ls[h + 1]);
    assert forall|k: int| h <= k < e implies !is_blank(#[trigger] ls[k]) by {
        if k == h {
            lemma_pipe_nonblank(ls[h]);
        } else if k == h + 1 {
            lemma_pipe_nonblank(ls[h + 1]);
        } else {
            lemma_table_end_pipes(ls, h + 2, k, re);
            lemma_pipe_nonblank(ls[k]);
        }
    }
    if l2 <= line {
        lemma_run_start_same(ls, l2, line);
        lemma_run_end_same(ls, l2 + 1, line + 1);
    } else {
        lemma_run_start_same(ls, line, l2);
        lemma_run_end_same(ls, line + 1, l2 + 1);
    }
    lemma_scan_same(ls, line, l2, rs + 1, re, h, e);
}

} // verus!
