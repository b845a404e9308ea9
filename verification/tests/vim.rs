use md_editor::editor::{Editor, PAGE_LINES};
use md_editor::vim::{Key, Mode, VimState};

fn editor_with(text: &str) -> Editor {
    Editor::new(text)
}

fn press(e: &mut Editor, keys: &str) {
    for c in keys.chars() {
        e.handle_vim_key(Key::Char(c));
    }
}

fn press_key(e: &mut Editor, key: Key) {
    e.handle_vim_key(key);
}

fn lines(e: &Editor) -> Vec<String> {
    e.lines_text()
}

/// Type `text` at the cursor of the raw editor (Insert mode), as the editor
/// widget would, then hand the result back to the editor.
fn type_text(e: &mut Editor, text: &str) {
    let region = e.active_text();
    let mut rows: Vec<Vec<char>> = region.split('\n').map(|l| l.chars().collect()).collect();
    let (line, mut col) = (e.cursor_line, e.cursor_col);
    for ch in text.chars() {
        rows[line].insert(col, ch);
        col += 1;
    }
    let byte: usize = rows[line][..col].iter().map(|c| c.len_utf8()).sum();
    let joined: Vec<String> = rows.iter().map(|r| r.iter().collect()).collect();
    e.editor_action(true, &joined.join("\n"), line, byte);
}

#[test]
fn starts_in_normal_mode() {
    let e = editor_with("hello world");
    assert_eq!(e.vim.mode, Mode::Normal);
}

#[test]
fn dd_deletes_the_current_line() {
    let mut e = editor_with("one\ntwo\nthree");
    press(&mut e, "dd");
    assert_eq!(lines(&e), vec!["two", "three"]);
    assert_eq!(e.vim.mode, Mode::Normal);
}

#[test]
fn dd_then_paste_restores_line_below() {
    let mut e = editor_with("one\ntwo\nthree");
    press(&mut e, "dd");
    press(&mut e, "p");
    assert_eq!(lines(&e), vec!["two", "one", "three"]);
}

#[test]
fn x_deletes_character_under_cursor() {
    let mut e = editor_with("hello");
    press(&mut e, "x");
    assert_eq!(lines(&e), vec!["ello"]);
}

#[test]
fn counted_x_deletes_multiple_chars() {
    let mut e = editor_with("hello");
    press(&mut e, "3x");
    assert_eq!(lines(&e), vec!["lo"]);
}

#[test]
fn dw_deletes_a_word() {
    let mut e = editor_with("foo bar baz");
    press(&mut e, "dw");
    assert_eq!(lines(&e), vec!["bar baz"]);
}

#[test]
fn insert_then_escape_inserts_text() {
    let mut e = editor_with("bar");
    press(&mut e, "i");
    assert_eq!(e.vim.mode, Mode::Insert);
    type_text(&mut e, "X");
    press_key(&mut e, Key::Esc);
    assert_eq!(e.vim.mode, Mode::Normal);
    assert_eq!(lines(&e), vec!["Xbar"]);
}

#[test]
fn append_inserts_after_cursor() {
    let mut e = editor_with("a");
    press(&mut e, "a");
    type_text(&mut e, "b");
    press_key(&mut e, Key::Esc);
    assert_eq!(lines(&e), vec!["ab"]);
}

#[test]
fn open_line_below_adds_a_line() {
    let mut e = editor_with("one\ntwo");
    press(&mut e, "o");
    assert_eq!(e.vim.mode, Mode::Insert);
    assert_eq!(lines(&e), vec!["one", "", "two"]);
}

#[test]
fn replace_char_swaps_one_character() {
    let mut e = editor_with("cat");
    press(&mut e, "r");
    press(&mut e, "b");
    assert_eq!(lines(&e), vec!["bat"]);
    assert_eq!(e.vim.mode, Mode::Normal);
}

#[test]
fn undo_restores_previous_state() {
    let mut e = editor_with("hello");
    press(&mut e, "x");
    assert_eq!(lines(&e), vec!["ello"]);
    press(&mut e, "u");
    assert_eq!(lines(&e), vec!["hello"]);
}

#[test]
fn redo_reapplies_change() {
    let mut e = editor_with("hello");
    press(&mut e, "x");
    press(&mut e, "u");
    press_key(&mut e, Key::Ctrl('r'));
    assert_eq!(lines(&e), vec!["ello"]);
}

#[test]
fn yank_line_and_paste() {
    let mut e = editor_with("copy\nother");
    press(&mut e, "yy");
    press(&mut e, "p");
    assert_eq!(lines(&e), vec!["copy", "copy", "other"]);
}

#[test]
fn visual_delete_removes_selection() {
    let mut e = editor_with("hello");
    press(&mut e, "v");
    press(&mut e, "ll");
    press(&mut e, "d");
    assert_eq!(lines(&e), vec!["lo"]);
    assert_eq!(e.vim.mode, Mode::Normal);
}

#[test]
fn visual_line_delete_removes_whole_lines() {
    let mut e = editor_with("one\ntwo\nthree");
    press(&mut e, "V");
    press(&mut e, "j");
    press(&mut e, "d");
    assert_eq!(lines(&e), vec!["three"]);
}

#[test]
fn motion_j_moves_active_line_down() {
    let mut e = editor_with("one\ntwo\nthree");
    assert_eq!(e.active_start, 0);
    press(&mut e, "j");
    assert_eq!(e.active_start, 1);
    press(&mut e, "j");
    assert_eq!(e.active_start, 2);
}

#[test]
fn count_motion_jumps_multiple_lines() {
    let mut e = editor_with("a\nb\nc\nd\ne");
    press(&mut e, "3j");
    assert_eq!(e.active_start, 3);
}

#[test]
fn gg_and_shift_g_jump_to_ends() {
    let mut e = editor_with("a\nb\nc\nd");
    press(&mut e, "G");
    assert_eq!(e.active_start, 3);
    press(&mut e, "gg");
    assert_eq!(e.active_start, 0);
}

#[test]
fn count_prefixed_g_jumps_to_absolute_line() {
    let doc = (1..=10).map(|i| format!("line{i}")).collect::<Vec<_>>().join("\n");
    let mut e = editor_with(&doc);
    press(&mut e, "5G");
    assert_eq!(e.active_start, 4);
    press(&mut e, "2gg");
    assert_eq!(e.active_start, 1);
}

#[test]
fn ctrl_d_scrolls_down_half_page() {
    let doc = (0..40).map(|i| format!("l{i}")).collect::<Vec<_>>().join("\n");
    let mut e = editor_with(&doc);
    press_key(&mut e, Key::Ctrl('d'));
    assert_eq!(e.active_start, PAGE_LINES / 2);
}

#[test]
fn ex_goto_line_activates_that_line() {
    let mut e = editor_with("a\nb\nc\nd");
    press_key(&mut e, Key::Char(':'));
    press(&mut e, "3");
    press_key(&mut e, Key::Enter);
    assert_eq!(e.active_start, 2);
    assert!(e.vim.command.is_none());
}

#[test]
fn search_moves_to_match() {
    let mut e = editor_with("alpha\nbeta\ngamma");
    press_key(&mut e, Key::Char('/'));
    press(&mut e, "gamma");
    press_key(&mut e, Key::Enter);
    assert_eq!(e.active_start, 2);
    press(&mut e, "n");
    assert_eq!(e.active_start, 2);
}

#[test]
fn change_word_enters_insert_and_clears_word() {
    let mut e = editor_with("foo bar");
    press(&mut e, "cw");
    assert_eq!(e.vim.mode, Mode::Insert);
    assert_eq!(lines(&e), vec![" bar"]);
}

#[test]
fn dollar_moves_to_line_end() {
    let mut e = editor_with("hello");
    press(&mut e, "$");
    let (_row, col) = e.doc_cursor_chars();
    assert_eq!(col, 4);
}

#[test]
fn escape_clears_pending_operator() {
    let mut e = editor_with("hello");
    press(&mut e, "d");
    press_key(&mut e, Key::Esc);
    press(&mut e, "d");
    assert_eq!(lines(&e), vec!["hello"]);
}

#[test]
fn quit_refuses_unsaved_changes() {
    let mut e = editor_with("hello");
    press(&mut e, "x");
    press(&mut e, ":q");
    let out = e.handle_vim_key(Key::Enter);
    assert!(!out.quit);
    assert_eq!(e.vim_message().as_deref(), Some("E37: No write since last change (add ! to override)"));
    press(&mut e, ":q!");
    assert!(e.handle_vim_key(Key::Enter).quit);
}

#[test]
fn write_and_quit_saves_first() {
    let mut e = editor_with("hello\nworld");
    press(&mut e, ":wq");
    let out = e.handle_vim_key(Key::Enter);
    assert_eq!(out.save.as_deref(), Some("hello\nworld"));
    assert!(!out.quit);
    assert!(e.pending_quit && e.is_loading);
    assert!(e.file_saved(true));
}

#[test]
fn unknown_ex_command_reports_an_error() {
    let mut e = editor_with("x");
    press(&mut e, ":  frobnicate ");
    assert_eq!(e.vim_command_line().as_deref(), Some(":  frobnicate "));
    e.handle_vim_key(Key::Enter);
    assert_eq!(e.vim_message().as_deref(), Some("E492: Not an editor command: frobnicate"));
    // The next key clears the message.
    press(&mut e, "l");
    assert_eq!(e.vim_message(), None);
}

#[test]
fn ex_new_file_clears_the_document() {
    let mut e = editor_with("a\nb");
    press(&mut e, ":enew");
    let out = e.handle_vim_key(Key::Enter);
    assert!(out.focus);
    assert!(out.new_document);
    assert_eq!(lines(&e), vec![""]);
}

#[test]
fn command_line_backspace_and_escape() {
    let mut e = editor_with("abc");
    press(&mut e, "/b");
    assert_eq!(e.vim_command_line().as_deref(), Some("/b"));
    press_key(&mut e, Key::Backspace);
    assert_eq!(e.vim_command_line().as_deref(), Some("/"));
    press_key(&mut e, Key::Backspace);
    assert_eq!(e.vim_command_line(), None);
    press(&mut e, "?x");
    press_key(&mut e, Key::Esc);
    assert_eq!(e.vim_command_line(), None);
}

#[test]
fn search_errors() {
    let mut e = editor_with("abc");
    press(&mut e, "n");
    assert_eq!(e.vim_message().as_deref(), Some("E35: No previous regular expression"));
    press(&mut e, "/zz");
    e.handle_vim_key(Key::Enter);
    assert_eq!(e.vim_message().as_deref(), Some("E486: Pattern not found: zz"));
    press(&mut e, "/");
    e.handle_vim_key(Key::Enter);
    assert_eq!(e.vim_message().as_deref(), Some("E486: Pattern not found: zz"));
}

#[test]
fn backward_search_and_reverse_repeat() {
    let mut e = editor_with("x\nfoo\nbar\nfoo");
    press(&mut e, "?foo");
    e.handle_vim_key(Key::Enter);
    assert_eq!(e.active_start, 3);
    press(&mut e, "N");
    assert_eq!(e.active_start, 1);
}

#[test]
fn undo_and_redo_report_the_ends_of_history() {
    let mut e = editor_with("abc");
    press(&mut e, "u");
    assert_eq!(e.vim_message().as_deref(), Some("Already at oldest change"));
    press_key(&mut e, Key::Ctrl('r'));
    assert_eq!(e.vim_message().as_deref(), Some("Already at newest change"));
}

#[test]
fn undo_history_is_bounded() {
    let mut e = editor_with(&"x".repeat(600));
    for _ in 0..520 {
        press(&mut e, "x");
    }
    assert_eq!(e.undo_stack.len(), 500);
}

#[test]
fn paste_charwise_repeats_with_count() {
    let mut e = editor_with("abc");
    press(&mut e, "yl");
    press(&mut e, "3p");
    assert_eq!(lines(&e), vec!["aaaabc"]);
    press(&mut e, "$P");
    assert_eq!(lines(&e), vec!["aaaabac"]);
}

#[test]
fn visual_charwise_across_lines_and_paste() {
    let mut e = editor_with("abc\ndef\nghi");
    press(&mut e, "lvjd");
    assert_eq!(lines(&e), vec!["af", "ghi"]);
    press(&mut e, "jP");
    assert_eq!(lines(&e), vec!["af", "gbc", "dehi"]);
}

#[test]
fn visual_swap_and_switch_kinds() {
    let mut e = editor_with("hello\nworld");
    press(&mut e, "v");
    assert_eq!(e.vim_mode_label(), "VISUAL");
    press(&mut e, "V");
    assert_eq!(e.vim_mode_label(), "V-LINE");
    press(&mut e, "V");
    assert_eq!(e.vim.mode, Mode::Normal);
    press(&mut e, "vlloy");
    assert_eq!(e.vim.register.text.iter().collect::<String>(), "hel");
}

#[test]
fn operators_with_motions_and_counts() {
    let mut e = editor_with("one two three four");
    press(&mut e, "2dw");
    assert_eq!(lines(&e), vec!["three four"]);
    press(&mut e, "d$");
    assert_eq!(lines(&e), vec![""]);
    let mut e = editor_with("a\nb\nc\nd");
    press(&mut e, "jdj");
    assert_eq!(lines(&e), vec!["a", "d"]);
    press(&mut e, "dG");
    assert_eq!(lines(&e), vec!["a"]);
}

#[test]
fn change_line_and_substitute() {
    let mut e = editor_with("abc\ndef");
    press(&mut e, "S");
    assert_eq!(lines(&e), vec!["", "def"]);
    assert_eq!(e.vim.mode, Mode::Insert);
    let mut e = editor_with("abcdef");
    press(&mut e, "2s");
    assert_eq!(lines(&e), vec!["cdef"]);
    let mut e = editor_with("abcdef");
    press(&mut e, "lD");
    assert_eq!(lines(&e), vec!["a"]);
}

#[test]
fn insert_positions() {
    let mut e = editor_with("  code");
    press(&mut e, "I");
    assert_eq!(e.doc_cursor_chars(), (0, 2));
    press_key(&mut e, Key::Esc);
    assert_eq!(e.doc_cursor_chars(), (0, 1));
    press(&mut e, "A");
    assert_eq!(e.doc_cursor_chars(), (0, 6));
}

#[test]
fn replace_with_newline_breaks_the_line() {
    let mut e = editor_with("ab cd");
    press(&mut e, "ll");
    press(&mut e, "r");
    press(&mut e, "\n");
    assert_eq!(lines(&e), vec!["ab", "cd"]);
}

#[test]
fn word_motions_move_the_cursor() {
    let mut e = editor_with("foo, bar baz");
    press(&mut e, "w");
    assert_eq!(e.doc_cursor_chars(), (0, 3));
    press(&mut e, "2w");
    assert_eq!(e.doc_cursor_chars(), (0, 9));
    press(&mut e, "b");
    assert_eq!(e.doc_cursor_chars(), (0, 5));
    press(&mut e, "e");
    assert_eq!(e.doc_cursor_chars(), (0, 7));
    press(&mut e, "0");
    assert_eq!(e.doc_cursor_chars(), (0, 0));
}

#[test]
fn default_vim_state_is_the_initial_state() {
    let s = VimState::default();
    assert_eq!(s.mode, Mode::Normal);
    assert!(s.pending.count.is_none() && s.pending.operator.is_none() && !s.pending.g && !s.pending.replace);
    assert!(!s.register.filled && !s.register.linewise && s.register.text.is_empty());
    assert!(s.visual.is_none() && s.command.is_none() && s.last_search.is_none() && s.status.is_none());
}

#[test]
fn replacing_the_document_ends_visual_mode() {
    let mut e = editor_with("one\ntwo\nthree");
    press(&mut e, "jjV");
    assert_eq!(e.vim.mode, Mode::Visual);
    assert!(e.vim.visual.is_some());
    e.file_opened(Some("x"));
    assert_eq!(e.vim.mode, Mode::Normal);
    assert!(e.vim.visual.is_none());
    assert_eq!(lines(&e), vec!["x"]);

    let mut e = editor_with("one\ntwo\nthree");
    press(&mut e, "Gv");
    assert!(e.new_file());
    assert_eq!(e.vim.mode, Mode::Normal);
    assert!(e.vim.visual.is_none());
}

#[test]
fn shrinking_the_document_keeps_the_selection_on_it() {
    let mut e = editor_with("one\ntwo\nthree");
    press(&mut e, "GV");
    assert_eq!(e.vim.visual.map(|v| v.head.0), Some(2));
    // An edit of the raw region (the last line) that removes lines.
    e.editor_action(true, "", 0, 0);
    e.merge_with_previous();
    assert_eq!(e.lines.len(), 2);
    let v = e.vim.visual.expect("still selecting");
    assert_eq!((v.anchor.0, v.head.0), (1, 1));
}
