//! The Vim key map: what each key does in Normal, Visual and Insert mode
//! and on the command line, and the status-bar texts of the engine.

use vstd::prelude::*;
use crate::editor::{min_int, Editor, PAGE_LINES};
use crate::motion::first_non_blank_spec;
use crate::vim::{no_effect, CmdKind, Key, Mode, Move, Operator, Pending, Visual, VimOutcome};
use crate::vim_command::{command_key_post, repeat_search_post, with_command};
use crate::vim_edit::{
    charwise_post, count_or_one, delete_char_post, insert_at_post, leave_insert_post, linewise_post,
    next_count, open_line_post, paste_post, redo_post, replace_char_post, undo_post, with_count,
    with_status_of, without_count, without_pending,
};
use crate::vim_move::{apply_move_post, move_post, operator_post, with_pending};
use crate::vim_visual::{enter_visual_post, exit_visual_post, sync_post, visual_apply_post, visual_move_post, with_visual};

verus! {

/// The chars that keep a pending operator alive: counts, motions, `g`, and
/// the operators (for `dd`, `cc`, `yy`).
pub open spec fn operator_key(c: char) -> bool {
    ('0' <= c <= '9') || c == 'h' || c == 'l' || c == 'j' || c == 'k' || c == 'w' || c == 'b' || c == 'e' || c
        == '0' || c == '^' || c == '$' || c == 'G' || c == 'g' || c == 'd' || c == 'c' || c == 'y'
}

/// The motion a char names in Normal and Visual mode, if any (`0` only
/// when no count is being typed).
pub open spec fn char_motion(c: char) -> Option<Move> {
    if c == '0' {
        Some(Move::LineStart)
    } else if c == '^' {
        Some(Move::FirstNonBlank)
    } else if c == '$' {
        Some(Move::LineEnd)
    } else if c == 'h' {
        Some(Move::Left)
    } else if c == 'l' || c == ' ' {
        Some(Move::Right)
    } else if c == 'j' {
        Some(Move::Down)
    } else if c == 'k' {
        Some(Move::Up)
    } else if c == 'w' {
        Some(Move::WordFwd)
    } else if c == 'b' {
        Some(Move::WordBack)
    } else if c == 'e' {
        Some(Move::WordEnd)
    } else if c == 'G' {
        Some(Move::DocEnd)
    } else {
        None
    }
}

/// The motion an arrow (or Backspace/Enter) key names, if any.
pub open spec fn key_motion(key: Key) -> Option<Move> {
    match key {
        Key::Left | Key::Backspace => Some(Move::Left),
        Key::Right => Some(Move::Right),
        Key::Up => Some(Move::Up),
        Key::Down | Key::Enter => Some(Move::Down),
        _ => None,
    }
}

/// The char is a digit that extends a count (`0` only after another digit).
pub open spec fn count_digit(o: Editor, c: char) -> bool {
    ('1' <= c <= '9') || (c == '0' && o.vim.pending.count is Some)
}

/// `n` is `o` after opening the command line of kind `k`.
pub open spec fn command_opened(o: Editor, k: CmdKind, n: Editor) -> bool {
    &&& n.vim.command matches Some(cl) && cl.kind == k && cl.buffer@.len() == 0
    &&& n == with_command(without_pending(o), n.vim.command)
}

/// The lines `(row, r1)` of the count (at least 1) lines from the cursor.
pub open spec fn count_lines_end(o: Editor) -> int {
    min_int(o.cursor_row() + count_or_one(o.vim.pending.count) - 1, o.doc().len() - 1)
}

/// `n` is `o` after the Normal-mode char `c` (see the module's key map).
pub open spec fn normal_char_post(o: Editor, c: char, n: Editor) -> bool {
    let d = o.doc();
    let row = o.cursor_row();
    let col = o.cursor_col as int;
    let len = d[row].len() as int;
    let p = o.vim.pending;
    let oc = without_count(o);
    if p.operator is Some && !operator_key(c) {
        n == without_pending(o)
    } else if count_digit(o, c) {
        n == with_count(o, Some(next_count(p.count, c)))
    } else if c == 'd' {
        operator_post(o, Operator::Delete, n)
    } else if c == 'c' {
        operator_post(o, Operator::Change, n)
    } else if c == 'y' {
        operator_post(o, Operator::Yank, n)
    } else if char_motion(c) is Some {
        apply_move_post(o, char_motion(c)->0, n)
    } else if c == 'g' {
        n == with_pending(o, Pending { g: true, ..p })
    } else if c == 'x' {
        delete_char_post(o, n)
    } else if c == 'r' {
        n == with_pending(o, Pending { count: None, replace: true, ..p })
    } else if c == 'p' || c == 'P' {
        paste_post(o, c == 'p', n)
    } else if c == 'i' {
        insert_at_post(o, row, col, n)
    } else if c == 'I' {
        insert_at_post(o, row, first_non_blank_spec(d[row]), n)
    } else if c == 'a' {
        insert_at_post(o, row, min_int(col + 1, len), n)
    } else if c == 'A' {
        insert_at_post(o, row, len, n)
    } else if c == 'o' || c == 'O' {
        open_line_post(o, c == 'o', n)
    } else if c == 'D' {
        charwise_post(oc, Operator::Delete, row, col, len, n)
    } else if c == 'C' {
        charwise_post(oc, Operator::Change, row, col, len, n)
    } else if c == 's' {
        if len == 0 {
            insert_at_post(o, row, 0, n)
        } else {
            charwise_post(oc, Operator::Change, row, col, min_int(col + count_or_one(p.count), len), n)
        }
    } else if c == 'S' {
        linewise_post(oc, Operator::Change, row, count_lines_end(o), n)
    } else if c == 'Y' {
        linewise_post(oc, Operator::Yank, row, count_lines_end(o), n)
    } else if c == 'u' {
        undo_post(oc, n)
    } else if c == 'v' || c == 'V' {
        enter_visual_post(o, c == 'V', n)
    } else if c == ':' {
        command_opened(o, CmdKind::Ex, n)
    } else if c == '/' {
        command_opened(o, CmdKind::SearchForward, n)
    } else if c == '?' {
        command_opened(o, CmdKind::SearchBackward, n)
    } else if c == 'n' || c == 'N' {
        repeat_search_post(oc, c == 'n', n)
    } else {
        n == without_pending(o)
    }
}

/// `n` is `o` after the Normal-mode key `key`: a pending `r` or `g`
/// completes first; then chars, arrows, `Ctrl-r` (redo), `Ctrl-d`/`Ctrl-u`
/// (half a page down/up), `Ctrl-f`/`Ctrl-b` (a page down/up) and Esc
/// (cancel what is pending).
pub open spec fn normal_key_post(o: Editor, key: Key, n: Editor) -> bool {
    let p = o.vim.pending;
    if p.replace {
        let o1 = with_pending(o, Pending { replace: false, ..p });
        match key {
            Key::Char(c) => replace_char_post(o1, c, n),
            _ => n == o1,
        }
    } else if p.g {
        let o1 = with_pending(o, Pending { g: false, ..p });
        if key == Key::Char('g') {
            apply_move_post(o1, Move::DocStart, n)
        } else {
            n == without_pending(o)
        }
    } else {
        let oc = without_pending(o);
        match key {
            Key::Char(c) => normal_char_post(o, c, n),
            Key::Esc => n == oc,
            Key::Tab => n == o,
            Key::Ctrl(c) => if c == 'r' {
                redo_post(o, n)
            } else if c == 'd' {
                move_post(oc, Move::Down, (PAGE_LINES / 2) as nat, n)
            } else if c == 'u' {
                move_post(oc, Move::Up, (PAGE_LINES / 2) as nat, n)
            } else if c == 'f' {
                move_post(oc, Move::Down, PAGE_LINES as nat, n)
            } else if c == 'b' {
                move_post(oc, Move::Up, PAGE_LINES as nat, n)
            } else {
                n == o
            },
            _ => apply_move_post(o, key_motion(key)->0, n),
        }
    }
}

/// The selection `v` with `f` applied, shown as the raw region: what `o`,
/// `v` and `V` do when they keep Visual mode.
pub open spec fn reshaped(o: Editor, v: Visual, n: Editor) -> bool {
    sync_post(with_visual(o, Some(v), o.vim.mode), n)
}

/// `n` is `o` after the Visual-mode char `c`: counts, motions of the head,
/// `d`/`x`, `y`, `c`/`s` on the selection, `o` (swap its ends), and `v`/`V`
/// (switch char-wise/line-wise, or leave when already so).
pub open spec fn visual_char_post(o: Editor, c: char, n: Editor) -> bool {
    let p = o.vim.pending;
    if count_digit(o, c) {
        n == with_count(o, Some(next_count(p.count, c)))
    } else if char_motion(c) is Some {
        visual_move_post(o, char_motion(c)->0, n)
    } else if c == 'g' {
        n == with_pending(o, Pending { g: true, ..p })
    } else if c == 'd' || c == 'x' {
        visual_apply_post(o, Operator::Delete, n)
    } else if c == 'y' {
        visual_apply_post(o, Operator::Yank, n)
    } else if c == 'c' || c == 's' {
        visual_apply_post(o, Operator::Change, n)
    } else if c == 'o' {
        match o.vim.visual {
            Some(v) => reshaped(o, Visual { anchor: v.head, head: v.anchor, linewise: v.linewise }, n),
            None => n == o,
        }
    } else if c == 'v' {
        match o.vim.visual {
            Some(v) => if v.linewise {
                reshaped(o, Visual { linewise: false, ..v }, n)
            } else {
                exit_visual_post(o, n)
            },
            None => exit_visual_post(o, n),
        }
    } else if c == 'V' {
        match o.vim.visual {
            Some(v) => if !v.linewise {
                reshaped(o, Visual { linewise: true, ..v }, n)
            } else {
                exit_visual_post(o, n)
            },
            None => exit_visual_post(o, n),
        }
    } else {
        n == o
    }
}

/// `n` is `o` after the Visual-mode key `key`: a pending `g` completes
/// `gg`; Esc leaves Visual mode; chars and arrows as in [`visual_char_post`].
pub open spec fn visual_key_post(o: Editor, key: Key, n: Editor) -> bool {
    let p = o.vim.pending;
    let o1 = if p.g {
        with_pending(o, Pending { g: false, ..p })
    } else {
        o
    };
    if p.g && key == Key::Char('g') {
        visual_move_post(o1, Move::DocStart, n)
    } else {
        match key {
            Key::Esc => exit_visual_post(o1, n),
            Key::Char(c) => visual_char_post(o1, c, n),
            Key::Ctrl(_) | Key::Tab => n == o1,
            _ => visual_move_post(o1, key_motion(key)->0, n),
        }
    }
}

/// `n` and `out` are `o` after the engine handled `key`: the status line is
/// cleared, then the command line, Insert mode (only Esc, which leaves it),
/// Normal mode or Visual mode handles the key; entering Insert or Visual
/// mode asks for the raw editor's focus.
pub open spec fn handle_post(o: Editor, key: Key, n: Editor, out: VimOutcome) -> bool {
    let o1 = with_status_of(o, None);
    if o.vim.command is Some {
        command_key_post(o1, key, n, out)
    } else {
        &&& out.save is None
        &&& !out.quit
        &&& out.focus == (n.edit_mode() && !o.edit_mode())
        &&& !out.new_document
        &&& match o.vim.mode {
            Mode::Insert => if key == Key::Esc {
                leave_insert_post(o1, n)
            } else {
                n == o1
            },
            Mode::Normal => normal_key_post(o1, key, n),
            Mode::Visual => visual_key_post(o1, key, n),
        }
    }
}

impl Editor {
    /// The motion a char names, if any.
    fn char_motion_exec(c: char) -> (r: Option<Move>)
        ensures
            r == char_motion(c),
    {
        match c {
            '0' => Some(Move::LineStart),
            '^' => Some(Move::FirstNonBlank),
            '$' => Some(Move::LineEnd),
            'h' => Some(Move::Left),
            'l' | ' ' => Some(Move::Right),
            'j' => Some(Move::Down),
            'k' => Some(Move::Up),
            'w' => Some(Move::WordFwd),
            'b' => Some(Move::WordBack),
            'e' => Some(Move::WordEnd),
            'G' => Some(Move::DocEnd),
            _ => None,
        }
    }

    /// The end line of the count (taken) of lines from the cursor.
    fn take_count_lines(&mut self) -> (r: (usize, usize))
        requires
            old(self).wf(),
        ensures
            r.0 == old(self).cursor_row(),
            r.1 == count_lines_end(*old(self)),
            *final(self) == without_count(*old(self)),
    {
        let count = self.count1();
        let (row, _) = self.doc_cursor_chars();
        let last = self.lines.len() - 1;
        let r1 = if count - 1 > last - row {
            last
        } else {
            row + (count - 1)
        };
        (row, r1)
    }

    /// A printable char in Normal mode.
    pub fn normal_char(&mut self, c: char)
        requires
            old(self).wf(),
        ensures
            final(self).wf(),
            normal_char_post(*old(self), c, *final(self)),
    {
        let allowed = ('0' <= c && c <= '9') || c == 'h' || c == 'l' || c == 'j' || c == 'k' || c == 'w' || c
            == 'b' || c == 'e' || c == '0' || c == '^' || c == '$' || c == 'G' || c == 'g' || c == 'd' || c
            == 'c' || c == 'y';
        if self.vim.pending.operator.is_some() && !allowed {
            self.clear_pending();
            return;
        }
        if ('1' <= c && c <= '9') || (c == '0' && self.has_count()) {
            self.push_count(c);
            return;
        }
        if c == 'd' {
            self.operator(Operator::Delete);
            return;
        }
        if c == 'c' {
            self.operator(Operator::Change);
            return;
        }
        if c == 'y' {
            self.operator(Operator::Yank);
            return;
        }
        if let Some(m) = Self::char_motion_exec(c) {
            self.apply_move(m);
            return;
        }
        let (row, col) = self.doc_cursor_chars();
        let len = self.lines[row].len();
        match c {
            'g' => {
                self.vim.pending.g = true;
            },
            'x' => self.vim_delete_char(),
            'r' => {
                self.vim.pending.count = None;
                self.vim.pending.replace = true;
            },
            'p' => self.vim_paste(true),
            'P' => self.vim_paste(false),
            'i' => self.enter_insert_at(row, col),
            'I' => {
                let f = crate::motion::first_non_blank_chars(self.lines[row].as_slice());
                self.enter_insert_at(row, f);
            },
            'a' => self.enter_insert_at(row, if col < len {
                col + 1
            } else {
                len
            }),
            'A' => self.enter_insert_at(row, len),
            'o' => self.open_line(true),
            'O' => self.open_line(false),
            'D' => {
                self.vim.pending.count = None;
                self.apply_charwise(Operator::Delete, row, col, len);
            },
            'C' => {
                self.vim.pending.count = None;
                self.apply_charwise(Operator::Change, row, col, len);
            },
            's' => {
                if len == 0 {
                    self.enter_insert_at(row, 0);
                } else {
                    let count = self.count1();
                    let end = if count > len - col {
                        len
                    } else {
                        col + count
                    };
                    self.apply_charwise(Operator::Change, row, col, end);
                }
            },
            'S' => {
                let (r0, r1) = self.take_count_lines();
                self.apply_linewise(Operator::Change, r0, r1);
            },
            'Y' => {
                let (r0, r1) = self.take_count_lines();
                self.apply_linewise(Operator::Yank, r0, r1);
            },
            'u' => {
                self.vim.pending.count = None;
                self.vim_undo();
            },
            'v' => self.enter_visual(false),
            'V' => self.enter_visual(true),
            ':' => self.start_command(CmdKind::Ex),
            '/' => self.start_command(CmdKind::SearchForward),
            '?' => self.start_command(CmdKind::SearchBackward),
            'n' => {
                self.vim.pending.count = None;
                self.repeat_search(true);
            },
            'N' => {
                self.vim.pending.count = None;
                self.repeat_search(false);
            },
            _ => self.clear_pending(),
        }
    }

    /// A key in Normal mode.
    pub fn normal_key(&mut self, key: Key)
        requires
            old(self).wf(),
        ensures
            final(self).wf(),
            normal_key_post(*old(self), key, *final(self)),
    {
        if self.vim.pending.replace {
            self.vim.pending.replace = false;
            if let Key::Char(c) = key {
                self.vim_replace_char(c);
            }
            return;
        }
        if self.vim.pending.g {
            self.vim.pending.g = false;
            if key == Key::Char('g') {
                self.apply_move(Move::DocStart);
                return;
            }
            self.clear_pending();
            return;
        }
        match key {
            Key::Char(c) => self.normal_char(c),
            Key::Left | Key::Backspace => self.apply_move(Move::Left),
            Key::Right => self.apply_move(Move::Right),
            Key::Up => self.apply_move(Move::Up),
            Key::Down | Key::Enter => self.apply_move(Move::Down),
            Key::Esc => self.clear_pending(),
            Key::Tab => {},
            Key::Ctrl(c) => {
                if c == 'r' {
                    self.vim_redo();
                } else if c == 'd' {
                    self.clear_pending();
                    self.move_cursor(Move::Down, PAGE_LINES / 2);
                } else if c == 'u' {
                    self.clear_pending();
                    self.move_cursor(Move::Up, PAGE_LINES / 2);
                } else if c == 'f' {
                    self.clear_pending();
                    self.move_cursor(Move::Down, PAGE_LINES);
                } else if c == 'b' {
                    self.clear_pending();
                    self.move_cursor(Move::Up, PAGE_LINES);
                }
            },
        }
    }

    /// A printable char in Visual mode.
    pub fn visual_char(&mut self, c: char)
        requires
            old(self).wf(),
        ensures
            final(self).wf(),
            visual_char_post(*old(self), c, *final(self)),
    {
        if ('1' <= c && c <= '9') || (c == '0' && self.has_count()) {
            self.push_count(c);
            return;
        }
        if let Some(m) = Self::char_motion_exec(c) {
            self.visual_move(m);
            return;
        }
        match c {
            'g' => {
                self.vim.pending.g = true;
            },
            'd' | 'x' => self.visual_apply(Operator::Delete),
            'y' => self.visual_apply(Operator::Yank),
            'c' | 's' => self.visual_apply(Operator::Change),
            'o' => {
                if let Some(v) = self.vim.visual {
                    self.vim.visual = Some(Visual { anchor: v.head, head: v.anchor, linewise: v.linewise });
                    self.sync_visual();
                }
            },
            'v' => {
                match self.vim.visual {
                    Some(v) => {
                        if v.linewise {
                            self.vim.visual = Some(Visual { anchor: v.anchor, head: v.head, linewise: false });
                            self.sync_visual();
                        } else {
                            self.exit_visual();
                        }
                    },
                    None => self.exit_visual(),
                }
            },
            'V' => {
                match self.vim.visual {
                    Some(v) => {
                        if !v.linewise {
                            self.vim.visual = Some(Visual { anchor: v.anchor, head: v.head, linewise: true });
                            self.sync_visual();
                        } else {
                            self.exit_visual();
                        }
                    },
                    None => self.exit_visual(),
                }
            },
            _ => {},
        }
    }

    /// A key in Visual mode.
    pub fn visual_key(&mut self, key: Key)
        requires
            old(self).wf(),
        ensures
            final(self).wf(),
            visual_key_post(*old(self), key, *final(self)),
    {
        if self.vim.pending.g {
            self.vim.pending.g = false;
            if key == Key::Char('g') {
                self.visual_move(Move::DocStart);
                return;
            }
        }
        match key {
            Key::Esc => self.exit_visual(),
            Key::Char(c) => self.visual_char(c),
            Key::Left | Key::Backspace => self.visual_move(Move::Left),
            Key::Right => self.visual_move(Move::Right),
            Key::Up => self.visual_move(Move::Up),
            Key::Down | Key::Enter => self.visual_move(Move::Down),
            Key::Ctrl(_) | Key::Tab => {},
        }
    }

    /// Handle one key according to the current mode; returns what the
    /// application has to do (save, quit, focus the raw editor).
    pub fn handle_vim_key(&mut self, key: Key) -> (out: VimOutcome)
        requires
            old(self).wf(),
        ensures
            final(self).wf(),
            handle_post(*old(self), key, *final(self), out),
    {
        self.vim.status = None;
        let was_edit = self.vim_is_edit_mode();
        if self.vim.command.is_some() {
            return self.command_key(key);
        }
        match self.vim.mode {
            Mode::Insert => {
                if key == Key::Esc {
                    self.leave_insert();
                }
            },
            Mode::Normal => self.normal_key(key),
            Mode::Visual => self.visual_key(key),
        }
        let now_edit = self.vim_is_edit_mode();
        VimOutcome { save: None, quit: false, focus: now_edit && !was_edit, new_document: false }
    }

    /// The mode's label for the status bar.
    pub fn vim_mode_label(&self) -> (r: &'static str)
        ensures
            r@ == match self.vim.mode {
                Mode::Normal => "NORMAL"@,
                Mode::Insert => "INSERT"@,
                Mode::Visual => if self.vim.visual matches Some(v) && v.linewise {
                    "V-LINE"@
                } else {
                    "VISUAL"@
                },
            },
    {
        match self.vim.mode {
            Mode::Normal => "NORMAL",
            Mode::Insert => "INSERT",
            Mode::Visual => {
                let linewise = match self.vim.visual {
                    Some(v) => v.linewise,
                    None => false,
                };
                if linewise {
                    "V-LINE"
                } else {
                    "VISUAL"
                }
            },
        }
    }

    /// The command line being typed, with its prompt (`:`, `/` or `?`).
    pub fn vim_command_line(&self) -> (r: Option<String>)
        ensures
            match self.vim.command {
                None => r is None,
                Some(c) => r matches Some(s) && s@ == seq![
                    match c.kind {
                        CmdKind::Ex => ':',
                        CmdKind::SearchForward => '/',
                        CmdKind::SearchBackward => '?',
                    },
                ] + c.buffer@,
            },
    {
        match &self.vim.command {
            None => None,
            Some(c) => {
                let prefix = match c.kind {
                    CmdKind::Ex => ':',
                    CmdKind::SearchForward => '/',
                    CmdKind::SearchBackward => '?',
                };
                let mut chars: Vec<char> = Vec::new();
                chars.push(prefix);
                let t = crate::vim_edit::concat_chars(chars.as_slice(), c.buffer.as_slice());
                Some(crate::text::from_chars(t.as_slice()))
            },
        }
    }

    /// The transient status or error message, if one is set.
    pub fn vim_message(&self) -> (r: Option<String>)
        ensures
            r == self.vim.status,
    {
        match &self.vim.status {
            None => None,
            Some(s) => Some(s.clone()),
        }
    }
}

} // verus!
