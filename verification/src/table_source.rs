//! Parsing of a GFM table straight from its Markdown source: header cells,
//! column alignments and body rows.

use vstd::prelude::*;
use crate::text::vec_views;
use crate::table::{has_pipe, is_delim, is_delimiter_row_chars, is_table_row_chars};
use crate::text::{
    contains_char, from_chars, lines_chars, lines_spec, split_chars, split_seq, strip_bounds,
    strip_end, strip_start, sub_chars, to_chars, trim, trim_bounds,
};

verus! {

/// Horizontal alignment of a table column.
#[derive(Debug, Clone, Copy, PartialEq, Eq, Structural)]
pub enum Alignment {
    Left,
    Center,
    Right,
}

/// The cells of a table row: the trimmed row without its outer pipes, split
/// on `|`, each piece trimmed.
pub open spec fn cells_spec(line: Seq<char>) -> Seq<Seq<char>> {
    let inner = strip_end(strip_start(trim(line), '|'), '|');
    split_seq(inner, '|').map_values(|c: Seq<char>| trim(c))
}

/// Alignment marked by a delimiter cell: `:-:` centre, `--:` right, else left.
pub open spec fn align_of(cell: Seq<char>) -> Alignment {
    let left = cell.len() > 0 && cell[0] == ':';
    let right = cell.len() > 0 && cell.last() == ':';
    if left && right {
        Alignment::Center
    } else if !left && right {
        Alignment::Right
    } else {
        Alignment::Left
    }
}

/// Whether `line` could be a Markdown table row (non-blank, contains a pipe).
pub fn is_table_line(line: &str) -> (r: bool)
    ensures
        r == has_pipe(line@),
{
    let chars = to_chars(line);
    is_table_row_chars(chars.as_slice())
}

/// Whether `line` is a GFM table delimiter row (e.g. `|---|:--:|---|`).
pub fn is_delimiter_line(line: &str) -> (r: bool)
    ensures
        r == is_delim(line@),
{
    let chars = to_chars(line);
    is_delimiter_row_chars(chars.as_slice())
}

/// [`split_cells`] on chars.
pub fn split_cells_chars(line: &[char]) -> (r: Vec<Vec<char>>)
    ensures
        vec_views(r@) == cells_spec(line@),
{
    let (a, b) = trim_bounds(line);
    let (i, j) = strip_bounds(line, a, b, '|');
    let inner = sub_chars(line, i, j);
    let pieces = split_chars(inner.as_slice(), '|');
    let ghost want = cells_spec(line@);
    let mut out: Vec<Vec<char>> = Vec::new();
    let mut k: usize = 0;
    while k < pieces.len()
        invariant
            want == cells_spec(line@),
            inner@ == strip_end(strip_start(trim(line@), '|'), '|'),
            pieces@.len() == split_seq(inner@, '|').len(),
            forall|m: int| 0 <= m < pieces@.len() ==> #[trigger] pieces@[m]@ == split_seq(inner@, '|')[m],
            k <= pieces@.len(),
            out@.len() == k,
            forall|m: int| 0 <= m < k ==> #[trigger] out@[m]@ == want[m],
        decreases pieces@.len() - k,
    {
        let p = &pieces[k];
        let (x, y) = trim_bounds(p.as_slice());
        let cell = sub_chars(p.as_slice(), x, y);
        out.push(cell);
        k += 1;
    }
    assert(vec_views(out@) =~= want);
    out
}

/// Split a table row into individual cell texts by trimming leading/trailing
/// pipes and splitting on `|`.
pub fn split_cells(line: &str) -> (r: Vec<String>)
    ensures
        r@.map_values(|s: String| s@) == cells_spec(line@),
{
    let chars = to_chars(line);
    let cells = split_cells_chars(chars.as_slice());
    let mut out: Vec<String> = Vec::new();
    let mut k: usize = 0;
    while k < cells.len()
        invariant
            vec_views(cells@) == cells_spec(line@),
            k <= cells@.len(),
            out@.len() == k,
            forall|m: int| 0 <= m < k ==> #[trigger] out@[m]@ == cells_spec(line@)[m],
        decreases cells@.len() - k,
    {
        assert(vec_views(cells@)[k as int] == cells@[k as int]@);
        out.push(from_chars(cells[k].as_slice()));
        k += 1;
    }
    assert(out@.map_values(|s: String| s@) =~= cells_spec(line@));
    out
}

/// Alignment of one delimiter cell.
pub fn cell_alignment(cell: &[char]) -> (r: Alignment)
    ensures
        r == align_of(cell@),
{
    let left = cell.len() > 0 && cell[0] == ':';
    let right = cell.len() > 0 && cell[cell.len() - 1] == ':';
    if left && right {
        Alignment::Center
    } else if !left && right {
        Alignment::Right
    } else {
        Alignment::Left
    }
}

/// Parse column alignments from a delimiter row's cells.
pub fn parse_alignments_chars(delimiter: &[char]) -> (r: Vec<Alignment>)
    ensures
        r@ == cells_spec(delimiter@).map_values(|c: Seq<char>| align_of(c)),
{
    let cells = split_cells_chars(delimiter);
    let mut out: Vec<Alignment> = Vec::new();
    let mut k: usize = 0;
    while k < cells.len()
        invariant
            vec_views(cells@) == cells_spec(delimiter@),
            k <= cells@.len(),
            out@.len() == k,
            forall|m: int| 0 <= m < k ==> #[trigger] out@[m] == align_of(cells_spec(delimiter@)[m]),
        decreases cells@.len() - k,
    {
        assert(vec_views(cells@)[k as int] == cells@[k as int]@);
        out.push(cell_alignment(cells[k].as_slice()));
        k += 1;
    }
    assert(out@ =~= cells_spec(delimiter@).map_values(|c: Seq<char>| align_of(c)));
    out
}

/// Parse column alignments from a delimiter row's cells.
pub fn parse_alignments(delimiter: &str) -> (r: Vec<Alignment>)
    ensures
        r@ == cells_spec(delimiter@).map_values(|c: Seq<char>| align_of(c)),
{
    let chars = to_chars(delimiter);
    parse_alignments_chars(chars.as_slice())
}

/// A table parsed from raw Markdown source text.
pub struct ParsedTable {
    /// Text content of each header cell.
    pub header_cells: Vec<String>,
    /// Horizontal alignment per column.
    pub alignments: Vec<Alignment>,
    /// Body rows, each a vector of cell texts.
    pub body_rows: Vec<Vec<String>>,
}

/// First `i >= from` such that line `i` has a pipe and line `i + 1` is a
/// delimiter row.
pub open spec fn first_table_start(ls: Seq<Seq<char>>, from: int) -> Option<int>
    decreases ls.len() - from,
{
    if from < 0 || from + 1 >= ls.len() {
        None
    } else if has_pipe(ls[from]) && is_delim(ls[from + 1]) {
        Some(from)
    } else {
        first_table_start(ls, from + 1)
    }
}

proof fn lemma_first_table_start(ls: Seq<Seq<char>>, from: int)
    ensures
        first_table_start(ls, from) matches Some(st) ==> from <= st && st + 1 < ls.len()
            && has_pipe(ls[st]) && is_delim(ls[st + 1]),
    decreases ls.len() - from,
{
    if from >= 0 && from + 1 < ls.len() && !(has_pipe(ls[from]) && is_delim(ls[from + 1])) {
        lemma_first_table_start(ls, from + 1);
    }
}

/// End (exclusive) of the run of pipe lines starting at `j`.
pub open spec fn pipe_run_end(ls: Seq<Seq<char>>, j: int) -> int
    decreases ls.len() - j,
{
    if 0 <= j < ls.len() && has_pipe(ls[j]) {
        pipe_run_end(ls, j + 1)
    } else {
        j
    }
}

/// The string views of a row of cells.
pub open spec fn row_views(row: Seq<String>) -> Seq<Seq<char>> {
    row.map_values(|s: String| s@)
}

/// `t` is the table that `source` holds: its first header row (a pipe line
/// followed by a delimiter row), the delimiter's alignments, and the pipe
/// lines right after it as body rows.
pub open spec fn parsed_from(source: Seq<char>, t: ParsedTable) -> bool {
    let ls = lines_spec(source);
    match first_table_start(ls, 0) {
        None => false,
        Some(st) => {
            let end = pipe_run_end(ls, st + 2);
            &&& row_views(t.header_cells@) == cells_spec(ls[st])
            &&& t.alignments@ == cells_spec(ls[st + 1]).map_values(|c: Seq<char>| align_of(c))
            &&& t.body_rows@.len() == end - (st + 2)
            &&& forall|k: int|
                0 <= k < t.body_rows@.len() ==> row_views(#[trigger] t.body_rows@[k]@) == cells_spec(
                    ls[st + 2 + k],
                )
        },
    }
}

/// Cells of `line` as strings.
fn cell_strings(line: &[char]) -> (r: Vec<String>)
    ensures
        row_views(r@) == cells_spec(line@),
{
    let cells = split_cells_chars(line);
    let mut out: Vec<String> = Vec::new();
    let mut k: usize = 0;
    while k < cells.len()
        invariant
            vec_views(cells@) == cells_spec(line@),
            k <= cells@.len(),
            out@.len() == k,
            forall|m: int| 0 <= m < k ==> #[trigger] out@[m]@ == cells_spec(line@)[m],
        decreases cells@.len() - k,
    {
        assert(vec_views(cells@)[k as int] == cells@[k as int]@);
        out.push(from_chars(cells[k].as_slice()));
        k += 1;
    }
    assert(row_views(out@) =~= cells_spec(line@));
    out
}

/// Index of the first header row (a pipe line followed by a delimiter row).
fn table_start(lines: &Vec<Vec<char>>) -> (r: Option<usize>)
    ensures
        match r {
            None => first_table_start(vec_views(lines@), 0) is None,
            Some(st) => first_table_start(vec_views(lines@), 0) == Some(st as int),
        },
{
    let ghost ls = vec_views(lines@);
    let n = lines.len();
    let mut i: usize = 0;
    while i < n
        invariant
            ls == vec_views(lines@),
            n == lines@.len(),
            i <= n,
            first_table_start(ls, i as int) == first_table_start(ls, 0),
        decreases n - i,
    {
        if i + 1 < n && is_table_row_chars(lines[i].as_slice()) && is_delimiter_row_chars(
            lines[i + 1].as_slice(),
        ) {
            return Some(i);
        }
        i += 1;
    }
    None
}

/// Parse a GFM table from raw Markdown `source`.
///
/// Scans for a header row followed by a delimiter row (`|---|:--:|---|`), then
/// collects subsequent table rows as the body. Returns `None` when there is no
/// such pair.
pub fn parse_table_source(source: &str) -> (r: Option<ParsedTable>)
    ensures
        match r {
            None => first_table_start(lines_spec(source@), 0) is None,
            Some(t) => parsed_from(source@, t),
        },
{
    let chars = to_chars(source);
    let lines = lines_chars(chars.as_slice());
    let ghost ls = lines_spec(source@);
    assert(vec_views(lines@) =~= ls);
    let n = lines.len();
    let st = match table_start(&lines) {
        Some(st) => st,
        None => {
            return None;
        },
    };
    assert(first_table_start(ls, 0) == Some(st as int));
    proof {
        lemma_first_table_start(ls, 0);
    }
    let header_cells = cell_strings(lines[st].as_slice());
    let alignments = parse_alignments_chars(lines[st + 1].as_slice());
    let mut body_rows: Vec<Vec<String>> = Vec::new();
    let mut j = st + 2;
    while j < n && is_table_row_chars(lines[j].as_slice())
        invariant
            vec_views(lines@) == ls,
            n == lines@.len(),
            st + 2 <= j <= n,
            body_rows@.len() == j - (st + 2),
            pipe_run_end(ls, j as int) == pipe_run_end(ls, st + 2),
            forall|k: int| 0 <= k < body_rows@.len() ==> row_views(#[trigger] body_rows@[k]@) == cells_spec(ls[st + 2 + k]),
        decreases n - j,
    {
        body_rows.push(cell_strings(lines[j].as_slice()));
        j += 1;
    }
    Some(ParsedTable { header_cells, alignments, body_rows })
}

} // verus!
