use md_editor::table::{
    active_bounds, block_source_eq, is_delimiter_row, is_table_row, segments, split_lines, table_bounds, Segment,
};
use md_editor::table_source::{is_delimiter_line, is_table_line, parse_alignments, parse_table_source, split_cells, Alignment};

fn to_lines(text: &str) -> Vec<String> {
    split_lines(text)
}

#[test]
fn table_rows_group_into_one_block_when_not_active() {
    let lines = to_lines("# Title\n\n| A | B |\n|---|---|\n| 1 | 2 |\n| 3 | 4 |");
    let segments = segments(&lines, 0, 1);
    assert_eq!(
        segments,
        vec![Segment::Active, Segment::Blank(1), Segment::Block { start: 2, end: 6 }]
    );
}

#[test]
fn active_line_splits_a_block() {
    let lines = to_lines("para one\npara two\npara three");
    let segments = segments(&lines, 1, 2);
    assert_eq!(
        segments,
        vec![Segment::Block { start: 0, end: 1 }, Segment::Active, Segment::Block { start: 2, end: 3 }]
    );
}

#[test]
fn blank_lines_separate_blocks() {
    let lines = to_lines("a\n\nb");
    let segments = segments(&lines, 2, 3);
    assert_eq!(segments, vec![Segment::Block { start: 0, end: 1 }, Segment::Blank(1), Segment::Active]);
}

#[test]
fn delimiter_row_detection() {
    assert!(is_delimiter_row("|---|---|"));
    assert!(is_delimiter_row("| :--- | ---: |"));
    assert!(is_delimiter_row("--- | ---"));
    // A bare thematic break is not a table delimiter.
    assert!(!is_delimiter_row("---"));
    assert!(!is_delimiter_row("| A | B |"));
    assert!(!is_delimiter_row(""));
}

#[test]
fn table_bounds_spans_header_delimiter_and_body() {
    let lines = to_lines("intro\n\n| A | B |\n|---|---|\n| 1 | 2 |\n| 3 | 4 |");
    for row in 2..=5 {
        assert_eq!(table_bounds(&lines, row), Some((2, 6)));
    }
    assert_eq!(table_bounds(&lines, 0), None);
    assert_eq!(table_bounds(&lines, 1), None);
}

#[test]
fn active_bounds_is_the_table_or_the_line() {
    let lines = to_lines("intro\n| A |\n|---|\n| 1 |\n\nafter");
    assert_eq!(active_bounds(&lines, 0), (0, 1));
    for row in 1..=3 {
        assert_eq!(active_bounds(&lines, row), (1, 4));
    }
    assert_eq!(active_bounds(&lines, 4), (4, 5));
    assert_eq!(active_bounds(&lines, 5), (5, 6));
}

#[test]
fn two_tables_in_one_run_stay_apart() {
    // A pipe-less line ends the first table; the second has its own header.
    let lines = to_lines("| A |\n|---|\nplain\n| B |\n|---|\n| 2 |");
    assert_eq!(table_bounds(&lines, 0), Some((0, 2)));
    assert_eq!(table_bounds(&lines, 1), Some((0, 2)));
    assert_eq!(table_bounds(&lines, 2), None);
    for row in 3..=5 {
        assert_eq!(table_bounds(&lines, row), Some((3, 6)));
    }
}

#[test]
fn table_row_detection() {
    assert!(is_table_row("| a |"));
    assert!(is_table_row("a | b"));
    assert!(!is_table_row("   "));
    assert!(!is_table_row("plain"));
}

#[test]
fn split_lines_keeps_empty_pieces() {
    assert_eq!(split_lines(""), vec![""]);
    assert_eq!(split_lines("a\n"), vec!["a", ""]);
    assert_eq!(split_lines("a\n\nb"), vec!["a", "", "b"]);
}

#[test]
fn block_source_comparison() {
    let lines = to_lines("a\nb\nc");
    assert!(block_source_eq(&lines, (0, 2), "a\nb"));
    assert!(!block_source_eq(&lines, (0, 2), "a\nb\n"));
    assert!(!block_source_eq(&lines, (1, 3), "b"));
    assert!(block_source_eq(&lines, (2, 3), "c"));
    // No lines join to the empty text.
    assert!(block_source_eq(&lines, (1, 1), ""));
    assert!(!block_source_eq(&lines, (1, 1), "b"));
    assert!(!block_source_eq(&lines, (1, 2), ""));
}

#[test]
fn parse_table_source_recovers_all_columns() {
    let source = "\
| Objetivo                  | Descricao                                     |
|---------------------------|-----------------------------------------------|
| Encontrar bugs            | Identificar erros logicos antes da producao   |
| Garantir manutencao       | Codigo legivel e facil de modificar no futuro |
| Compartilhar conhecimento | Toda a equipe aprende com cada revisao        |";

    let parsed = parse_table_source(source).expect("source contains a table");

    assert_eq!(parsed.header_cells, vec!["Objetivo", "Descricao"]);
    assert_eq!(parsed.alignments, vec![Alignment::Left, Alignment::Left]);
    assert_eq!(parsed.body_rows.len(), 3);
    assert!(parsed.body_rows.iter().all(|row| row.len() == 2));
    assert_eq!(
        parsed.body_rows[0],
        vec!["Encontrar bugs".to_owned(), "Identificar erros logicos antes da producao".to_owned()]
    );
}

#[test]
fn parse_alignments_reads_colon_markers() {
    let parsed = parse_table_source(
        "\
| L    | C    | R    |
| :--- | :--: | ---: |
| a    | b    | c    |",
    )
    .expect("source contains a table");

    assert_eq!(parsed.alignments, vec![Alignment::Left, Alignment::Center, Alignment::Right]);
}

#[test]
fn parse_table_source_rejects_non_table() {
    assert!(parse_table_source("just a paragraph\nwith two lines").is_none());
}

#[test]
fn parse_table_source_finds_a_table_after_text() {
    let parsed = parse_table_source("intro\n| A | B |\n|---|---|\n| 1 | 2 |\nplain").expect("table");
    assert_eq!(parsed.header_cells, vec!["A", "B"]);
    assert_eq!(parsed.body_rows, vec![vec!["1".to_owned(), "2".to_owned()]]);
}

#[test]
fn split_cells_and_alignments() {
    assert_eq!(split_cells("| a | b |"), vec!["a", "b"]);
    assert_eq!(split_cells("a|b"), vec!["a", "b"]);
    assert_eq!(split_cells("|  |x|"), vec!["", "x"]);
    assert_eq!(parse_alignments("|:--|--:|:-:|---|"), vec![Alignment::Left, Alignment::Right, Alignment::Center, Alignment::Left]);
    assert!(is_table_line(" | x"));
    assert!(!is_table_line("x"));
    assert!(is_delimiter_line("|---|"));
    assert!(!is_delimiter_line("---"));
}
