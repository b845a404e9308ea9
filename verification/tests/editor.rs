use md_editor::bindings::{insert_line_binding, window_title, EditKey, InsertBinding};
use md_editor::commands::Command;
use md_editor::editor::{BlockPlan, Editor, PAGE_LINES};
use md_editor::table::{segments, Segment};
use md_editor::toolbar::FormatAction;
use md_editor::vim::Key;

fn lines(e: &Editor) -> Vec<String> {
    e.lines_text()
}

/// The region text with the cursor's `(line, char col)`, as the raw editor
/// holds it.
fn region(e: &Editor) -> (Vec<Vec<char>>, usize, usize) {
    let text = e.active_text();
    let rows: Vec<Vec<char>> = text.split('\n').map(|l| l.chars().collect()).collect();
    (rows, e.cursor_line, e.cursor_col)
}

fn byte_of(row: &[char], col: usize) -> usize {
    row[..col].iter().map(|c| c.len_utf8()).sum()
}

fn finish(e: &mut Editor, rows: Vec<Vec<char>>, line: usize, col: usize, is_edit: bool) {
    let text: Vec<String> = rows.iter().map(|r| r.iter().collect()).collect();
    let byte = byte_of(&rows[line], col);
    e.editor_action(is_edit, &text.join("\n"), line, byte);
}

/// Type `ch` at the cursor of the raw editor.
fn type_char(e: &mut Editor, ch: char) {
    let (mut rows, line, col) = region(e);
    if ch == '\n' {
        let rest = rows[line].split_off(col);
        rows.insert(line + 1, rest);
        finish(e, rows, line + 1, 0, true);
    } else {
        rows[line].insert(col, ch);
        finish(e, rows, line, col + 1, true);
    }
}

fn backspace(e: &mut Editor) {
    let (mut rows, line, col) = region(e);
    if col > 0 {
        rows[line].remove(col - 1);
        finish(e, rows, line, col - 1, true);
    } else if line > 0 {
        let cur = rows.remove(line);
        let len = rows[line - 1].len();
        rows[line - 1].extend(cur);
        finish(e, rows, line - 1, len, true);
    } else {
        finish(e, rows, line, col, true);
    }
}

fn delete(e: &mut Editor) {
    let (mut rows, line, col) = region(e);
    if col < rows[line].len() {
        rows[line].remove(col);
    } else if line + 1 < rows.len() {
        let next = rows.remove(line + 1);
        rows[line].extend(next);
    }
    finish(e, rows, line, col, true);
}

fn move_raw(e: &mut Editor, dl: isize, dc: isize) {
    let (rows, line, col) = region(e);
    let l = (line as isize + dl).clamp(0, rows.len() as isize - 1) as usize;
    let c = (col as isize + dc).clamp(0, rows[l].len() as isize) as usize;
    finish(e, rows, l, c, false);
}

fn format(e: &mut Editor, action: FormatAction) {
    let formatted = action.apply("");
    for ch in formatted.chars() {
        type_char(e, ch);
    }
}

/// The block sources of a full rebuild.
fn full_sources(e: &Editor) -> Vec<String> {
    e.rebuild_plan(&Vec::new())
        .into_iter()
        .map(|p| match p {
            BlockPlan::Parse(t) => t,
            BlockPlan::Reuse(_) => panic!("nothing to reuse"),
        })
        .collect()
}

/// Rebuild `sources` incrementally from the plan.
fn rebuild(e: &Editor, sources: &mut Vec<String>) {
    let plan = e.rebuild_plan(sources);
    let next: Vec<String> = plan
        .into_iter()
        .map(|p| match p {
            BlockPlan::Reuse(j) => sources[j].clone(),
            BlockPlan::Parse(t) => t,
        })
        .collect();
    *sources = next;
}

fn check_invariants(e: &Editor, seed: u64, step: usize) {
    let n = e.lines.len();
    assert!(n > 0, "seed {seed} step {step}: no lines");
    assert!(e.active_start < n, "seed {seed} step {step}");
    assert!(e.active_start < e.active_end, "seed {seed} step {step}");
    assert!(e.active_end <= n, "seed {seed} step {step}");
    assert!(e.cursor_line < e.active_end - e.active_start, "seed {seed} step {step}");
    assert!(e.cursor_col <= e.lines[e.active_start + e.cursor_line].len(), "seed {seed} step {step}");
    assert!(e.lines.iter().all(|l| !l.contains(&'\n')), "seed {seed} step {step}");
}

#[test]
fn rebuild_blocks_matches_block_segments() {
    let e = Editor::new("# Title\n\n| A | B |\n|---|---|\n| 1 | 2 |");
    let (start, end) = e.render_split();
    let block_count = segments(&lines(&e), start, end)
        .iter()
        .filter(|s| matches!(s, Segment::Block { .. }))
        .count();
    assert_eq!(e.rebuild_plan(&Vec::new()).len(), block_count);
}

#[test]
fn activating_a_table_line_makes_the_whole_table_raw() {
    let mut e = Editor::new("intro\n\n| A | B |\n|---|---|\n| 1 | 2 |\n| 3 | 4 |");
    e.activate(2);
    assert_eq!((e.active_start, e.active_end), (2, 6));
    assert_eq!(e.active_text().split('\n').count(), 4);
    let segs = segments(&lines(&e), e.active_start, e.active_end);
    assert!(!segs.iter().any(|s| matches!(s, Segment::Block { start, .. } if *start >= 2)));
}

#[test]
fn editing_inside_a_table_keeps_the_region_whole() {
    let mut e = Editor::new("| A | B |\n|---|---|\n| 1 | 2 |");
    assert_eq!((e.active_start, e.active_end), (0, 3));
    type_char(&mut e, 'X');
    assert_eq!((e.active_start, e.active_end), (0, 3));
    assert!(lines(&e)[0].starts_with('X'));
    assert!(e.is_dirty);
}

#[test]
fn moving_down_into_a_table_selects_the_whole_table() {
    let mut e = Editor::new("intro\n| A | B |\n|---|---|\n| 1 | 2 |");
    assert_eq!((e.active_start, e.active_end), (0, 1));
    e.move_down();
    assert_eq!((e.active_start, e.active_end), (1, 4));
}

#[test]
fn page_and_jump_navigation_moves_the_active_line() {
    let doc = (0..30).map(|i| format!("line{i}")).collect::<Vec<_>>().join("\n");
    let mut e = Editor::new(&doc);
    assert_eq!((e.active_start, e.active_end), (0, 1));
    e.page_down();
    assert_eq!(e.active_start, PAGE_LINES);
    e.page_down();
    assert_eq!(e.active_start, 29);
    e.page_down();
    assert_eq!(e.active_start, 29);
    e.page_up();
    assert_eq!(e.active_start, 29 - PAGE_LINES);
    e.jump_to_start();
    assert_eq!((e.active_start, e.active_end), (0, 1));
    e.jump_to_end();
    assert_eq!((e.active_start, e.active_end), (29, 30));
}

#[test]
fn merge_with_next_joins_the_following_line() {
    let mut e = Editor::new("foo\nbar\nbaz");
    assert_eq!((e.active_start, e.active_end), (0, 1));
    e.merge_with_next();
    assert_eq!(lines(&e), vec!["foobar", "baz"]);
    assert_eq!((e.active_start, e.active_end), (0, 1));
    e.jump_to_end();
    let before = lines(&e).len();
    e.merge_with_next();
    assert_eq!(lines(&e).len(), before);
}

#[test]
fn split_and_merge_previous_round_trip() {
    let mut e = Editor::new("hello world\nnext");
    e.editor_action(false, "hello world", 0, 5);
    e.split_line();
    assert_eq!(lines(&e), vec!["hello", " world", "next"]);
    assert_eq!((e.active_start, e.cursor_col), (1, 0));
    e.merge_with_previous();
    assert_eq!(lines(&e), vec!["hello world", "next"]);
    assert_eq!((e.active_start, e.cursor_col), (0, 5));
    // At the top of the document there is nothing to merge into.
    e.merge_with_previous();
    assert_eq!(lines(&e), vec!["hello world", "next"]);
}

#[test]
fn move_up_keeps_the_byte_column() {
    let mut e = Editor::new("héllo\nabcdef");
    e.activate(1);
    e.editor_action(false, "abcdef", 0, 3);
    e.move_up();
    // Byte 3 on "héllo" is just after "hé".
    assert_eq!((e.active_start, e.cursor_col), (0, 2));
    assert_eq!(e.doc_cursor_chars(), (0, 2));
}

#[test]
fn file_operations_track_loading_and_dirty_state() {
    let mut e = Editor::new("a");
    assert!(e.begin_open());
    assert!(!e.begin_open());
    e.file_opened(Some("x\ny"));
    assert_eq!(lines(&e), vec!["x", "y"]);
    assert!(!e.is_loading && !e.is_dirty);
    type_char(&mut e, 'z');
    let text = e.begin_save().expect("not loading");
    assert_eq!(text, "zx\ny");
    assert!(e.begin_save().is_none());
    assert!(!e.file_saved(true));
    assert!(!e.is_dirty && !e.is_loading);
    e.file_opened(None);
    assert_eq!(lines(&e), vec!["zx", "y"]);
}

#[test]
fn pending_quit_waits_for_a_successful_save() {
    let mut e = Editor::new("a");
    e.pending_quit = true;
    assert!(!e.file_saved(false));
    assert!(!e.pending_quit);
    e.pending_quit = true;
    assert!(e.file_saved(true));
}

#[test]
fn new_file_resets_the_document() {
    let mut e = Editor::new("a\nb");
    type_char(&mut e, 'q');
    assert!(e.new_file());
    assert_eq!(lines(&e), vec![""]);
    assert!(!e.is_dirty);
    e.is_loading = true;
    assert!(!e.new_file());
}

#[test]
fn document_text_joins_lines() {
    let e = Editor::new("one\n\nthree\n");
    assert_eq!(e.document_text(), "one\n\nthree\n");
    assert_eq!(lines(&e), vec!["one", "", "three", ""]);
}

#[test]
fn view_mode_does_not_split_the_cursor_block() {
    let mut e = Editor::new("alpha line\nbeta line");
    assert_eq!(e.vim_mode_label(), "NORMAL");
    let whole = vec!["alpha line\nbeta line".to_owned()];
    assert_eq!(full_sources(&e), whole);
    e.handle_vim_key(Key::Char('j'));
    assert_eq!(e.active_start, 1);
    assert_eq!(full_sources(&e), whole);
}

#[test]
fn entering_insert_splits_the_cursor_line_out() {
    let mut e = Editor::new("alpha line\nbeta line");
    assert_eq!(full_sources(&e), vec!["alpha line\nbeta line".to_owned()]);
    let out = e.handle_vim_key(Key::Char('i'));
    assert!(out.focus);
    assert_eq!(e.vim_mode_label(), "INSERT");
    assert!(e.vim_is_edit_mode());
    assert_eq!(full_sources(&e), vec!["beta line".to_owned()]);
}

#[test]
fn leaving_insert_rejoins_the_block() {
    let mut e = Editor::new("alpha line\nbeta line");
    e.handle_vim_key(Key::Char('i'));
    assert_eq!(full_sources(&e), vec!["beta line".to_owned()]);
    let out = e.handle_vim_key(Key::Esc);
    assert!(!out.focus);
    assert_eq!(e.vim_mode_label(), "NORMAL");
    assert!(!e.vim_is_edit_mode());
    assert_eq!(full_sources(&e), vec!["alpha line\nbeta line".to_owned()]);
}

#[test]
fn visual_mode_splits_the_cursor_line_out() {
    let mut e = Editor::new("alpha line\nbeta line");
    e.handle_vim_key(Key::Char('v'));
    assert_eq!(e.vim_mode_label(), "VISUAL");
    assert!(e.vim_is_edit_mode());
    assert_eq!(full_sources(&e), vec!["beta line".to_owned()]);
}

#[test]
fn diff_rebuild_keeps_block_sources_correct_while_navigating() {
    let mut e = Editor::new("# A\n\npara one\n\npara two\n\n| H |\n|---|\n| x |\n\nlast");
    let mut sources = Vec::new();
    rebuild(&e, &mut sources);
    assert_eq!(sources, full_sources(&e));
    for _ in 0..15 {
        e.move_down();
        rebuild(&e, &mut sources);
        assert_eq!(sources, full_sources(&e));
    }
    for _ in 0..15 {
        e.move_up();
        rebuild(&e, &mut sources);
        assert_eq!(sources, full_sources(&e));
    }
}

#[test]
fn diff_rebuild_correct_after_structural_edits() {
    let mut e = Editor::new("alpha\n\nbeta\n\ngamma\n\ndelta");
    let mut sources = Vec::new();
    rebuild(&e, &mut sources);
    e.activate(2);
    e.editor_action(false, "beta", 0, 2);
    e.split_line();
    rebuild(&e, &mut sources);
    assert_eq!(sources, full_sources(&e));
    e.merge_with_previous();
    rebuild(&e, &mut sources);
    assert_eq!(sources, full_sources(&e));
    e.jump_to_start();
    e.merge_with_next();
    rebuild(&e, &mut sources);
    assert_eq!(sources, full_sources(&e));
}

#[test]
fn typing_keeps_blocks_consistent_without_rebuilding() {
    let mut e = Editor::new("# Title\n\nbody\n\nmore");
    e.activate(2);
    e.handle_vim_key(Key::Char('i'));
    let blocks_at_insert = full_sources(&e);
    assert_eq!(blocks_at_insert, vec!["# Title".to_owned(), "more".to_owned()]);
    for ch in "XYZ".chars() {
        type_char(&mut e, ch);
    }
    assert_eq!(full_sources(&e), blocks_at_insert);
    assert_eq!(lines(&e)[2], "XYZbody");
}

#[test]
fn rebuild_plan_reuses_unchanged_blocks() {
    let e = Editor::new("a\n\nb\n\nc");
    let old = vec!["a".to_owned(), "x".to_owned(), "c".to_owned()];
    let plan = e.rebuild_plan(&old);
    assert_eq!(plan.len(), 3);
    assert!(matches!(plan[0], BlockPlan::Reuse(0)));
    assert!(matches!(&plan[1], BlockPlan::Parse(t) if t == "b"));
    assert!(matches!(plan[2], BlockPlan::Reuse(2)));
}

#[test]
fn insert_bindings_route_edge_keys() {
    let e = Editor::new("one\ntwo\nthree");
    let ctx = e.binding_context();
    assert!(ctx.at_doc_first && !ctx.at_doc_last && ctx.at_line_start && !ctx.multiline);
    assert_eq!(insert_line_binding(EditKey::Escape, false, ctx), InsertBinding::Escape);
    assert_eq!(insert_line_binding(EditKey::Enter, false, ctx), InsertBinding::SplitLine);
    assert_eq!(insert_line_binding(EditKey::Backspace, false, ctx), InsertBinding::Default);
    assert_eq!(insert_line_binding(EditKey::ArrowUp, false, ctx), InsertBinding::Default);
    assert_eq!(insert_line_binding(EditKey::ArrowDown, false, ctx), InsertBinding::MoveDown);
    assert_eq!(insert_line_binding(EditKey::Delete, false, ctx), InsertBinding::Default);
    assert_eq!(insert_line_binding(EditKey::PageUp, true, ctx), InsertBinding::JumpToStart);
    assert_eq!(insert_line_binding(EditKey::PageDown, false, ctx), InsertBinding::PageDown);
    assert_eq!(insert_line_binding(EditKey::Home, false, ctx), InsertBinding::Default);
    assert_eq!(insert_line_binding(EditKey::End, true, ctx), InsertBinding::JumpToEnd);
    let t = Editor::new("| a |\n|---|");
    assert_eq!(insert_line_binding(EditKey::Enter, false, t.binding_context()), InsertBinding::Default);
}

#[test]
fn window_title_marks_unsaved_changes() {
    assert_eq!(window_title(None, false), "Untitled \u{2014} Markdown Editor");
    assert_eq!(window_title(Some("notes.md"), true), "notes.md * \u{2014} Markdown Editor");
}

fn next_rand(state: &mut u64) -> u64 {
    let mut x = *state;
    x ^= x << 13;
    x ^= x >> 7;
    x ^= x << 17;
    *state = x;
    x
}

fn simulated_step(e: &mut Editor, r: u64) {
    let ctx = e.binding_context();
    let route = |key: EditKey| insert_line_binding(key, false, ctx);
    match r % 18 {
        0 | 1 => {
            let chars = ['a', ' ', '|', '-', '#', '*', '`', '>', '[', ']'];
            type_char(e, chars[(r >> 8) as usize % chars.len()]);
        }
        2 => match route(EditKey::Enter) {
            InsertBinding::SplitLine => e.split_line(),
            _ => type_char(e, '\n'),
        },
        3 => match route(EditKey::Backspace) {
            InsertBinding::MergeWithPrevious => e.merge_with_previous(),
            _ => backspace(e),
        },
        4 => match route(EditKey::Delete) {
            InsertBinding::MergeWithNext => e.merge_with_next(),
            _ => delete(e),
        },
        5 => match route(EditKey::ArrowUp) {
            InsertBinding::MoveUp => e.move_up(),
            _ => move_raw(e, -1, 0),
        },
        6 => match route(EditKey::ArrowDown) {
            InsertBinding::MoveDown => e.move_down(),
            _ => move_raw(e, 1, 0),
        },
        7 => move_raw(e, 0, -1),
        8 => move_raw(e, 0, 1),
        9 => e.page_up(),
        10 => e.page_down(),
        11 => {
            let (rows, _, _) = region(e);
            let last = rows.len() - 1;
            let len = rows[last].len();
            finish(e, rows, last, len, false);
        }
        12 => {
            let index = (r >> 8) as usize % (e.lines.len() + 2);
            e.activate(index);
        }
        13 => {
            let actions = [
                FormatAction::Bold,
                FormatAction::Italic,
                FormatAction::InlineCode,
                FormatAction::Heading,
                FormatAction::BulletList,
                FormatAction::Quote,
                FormatAction::HorizontalRule,
                FormatAction::Link,
            ];
            format(e, actions[(r >> 8) as usize % actions.len()]);
        }
        14 => {
            e.new_file();
        }
        15 => e.jump_to_start(),
        16 => e.jump_to_end(),
        _ => type_char(e, 'x'),
    }
}

#[test]
fn fuzz_editing_never_breaks_invariants() {
    let seeds = [
        "# Hello\n\nsome text\n\n| A | B |\n|---|---|\n| 1 | 2 |\n",
        "",
        "single line",
        "a\nb\nc\nd\ne",
        "| H |\n|---|\n| x |",
    ];
    for (s, doc) in seeds.iter().enumerate() {
        for seed in 0..60u64 {
            let mut e = Editor::new(doc);
            let mut sources = Vec::new();
            rebuild(&e, &mut sources);
            let mut state = seed.wrapping_mul(0x9E3779B97F4A7C15).wrapping_add(1);
            for step in 0..50usize {
                let r = next_rand(&mut state);
                simulated_step(&mut e, r);
                check_invariants(&e, seed + (s as u64) * 1000, step);
                rebuild(&e, &mut sources);
                assert_eq!(sources, full_sources(&e));
            }
        }
    }
}

#[test]
fn commands_report_what_the_window_has_to_do() {
    let mut e = Editor::new("one\ntwo\nthree");
    // A click always asks for focus; navigation asks for nothing.
    let r = e.handle_command(Command::Activate(2));
    assert!(r.focus && !r.open_dialog && !r.quit && r.save.is_none());
    assert_eq!(e.active_start, 2);
    let r = e.handle_command(Command::MoveUp);
    assert!(!r.focus);
    assert_eq!(e.active_start, 1);
    // Opening: the dialog only while no file operation runs.
    assert!(e.handle_command(Command::Open).open_dialog);
    assert!(!e.handle_command(Command::Open).open_dialog);
    let r = e.handle_command(Command::Opened(Some("x\ny".to_owned())));
    assert!(r.new_document && r.focus);
    assert_eq!(lines(&e), vec!["x", "y"]);
    // Saving hands out the text; a successful save ends the operation.
    let r = e.handle_command(Command::Save);
    assert_eq!(r.save.as_deref(), Some("x\ny"));
    assert!(e.handle_command(Command::Save).save.is_none());
    assert!(!e.handle_command(Command::Saved(true)).quit);
    // An edit of the raw region.
    e.handle_command(Command::Edit(true, "x!".to_owned(), 0, 2));
    assert!(e.is_dirty);
    assert_eq!(lines(&e), vec!["x!", "y"]);
    // A new file replaces the document.
    let r = e.handle_command(Command::NewFile);
    assert!(r.new_document && r.focus);
    assert_eq!(lines(&e), vec![""]);
}

#[test]
fn split_line_command_ignores_a_table_region() {
    let mut e = Editor::new("| A | B |\n|---|---|\n| 1 | 2 |");
    assert_eq!((e.active_start, e.active_end), (0, 3));
    e.handle_command(Command::SplitLine);
    assert_eq!(lines(&e), vec!["| A | B |", "|---|---|", "| 1 | 2 |"]);
    let mut e = Editor::new("ab");
    e.handle_command(Command::Edit(false, String::new(), 0, 1));
    e.handle_command(Command::SplitLine);
    assert_eq!(lines(&e), vec!["a", "b"]);
}

#[test]
fn vim_keys_go_through_commands() {
    let mut e = Editor::new("a\nb");
    for c in ":wq".chars() {
        e.handle_command(Command::Key(Key::Char(c)));
    }
    let r = e.handle_command(Command::Key(Key::Enter));
    assert_eq!(r.save.as_deref(), Some("a\nb"));
    assert!(e.handle_command(Command::Saved(true)).quit);
}

#[test]
fn rebuild_plan_reuses_each_old_block_once() {
    let e = Editor::new("a\n\nc");
    let old = vec!["a".to_owned(), "x".to_owned(), "y".to_owned(), "c".to_owned()];
    let plan = e.rebuild_plan(&old);
    assert_eq!(plan.len(), 2);
    assert!(matches!(plan[0], BlockPlan::Reuse(0)));
    assert!(matches!(plan[1], BlockPlan::Reuse(3)));
    let same = vec!["a".to_owned(), "a".to_owned()];
    let e = Editor::new("a\n\na");
    let plan = e.rebuild_plan(&same);
    assert!(matches!(plan[0], BlockPlan::Reuse(0)));
    assert!(matches!(plan[1], BlockPlan::Reuse(1)));
}
