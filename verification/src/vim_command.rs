//! The Vim command line: Ex commands (`:w`, `:q`, `:wq`, `:e`, `:<n>`, ...)
//! and the searches `/`, `?`, `n` and `N`.

use vstd::prelude::*;
use crate::editor::{min_int, Editor};
use crate::motion::{find_match_chars, first_non_blank_chars, first_non_blank_spec, search_ok};
use crate::table::chars_eq;
use crate::text::{from_chars, join_spec, sub_chars, to_chars, trim, trim_bounds};
use crate::vim::{no_effect, CmdKind, CommandLine, Mode, VimOutcome, VimState};
use crate::vim_edit::{concat_chars, rest_col, sat_sub, with_status, with_status_of, without_pending};

verus! {

/// The value of the decimal digits `s`.
pub open spec fn digits_value(s: Seq<char>) -> int
    decreases s.len(),
{
    if s.len() == 0 {
        0
    } else {
        digits_value(s.drop_last()) * 10 + (s.last() as int - '0' as int)
    }
}

/// Every char of `s` is an ASCII digit.
pub open spec fn all_digits(s: Seq<char>) -> bool {
    forall|i: int| 0 <= i < s.len() ==> '0' <= #[trigger] s[i] <= '9'
}

/// What `str::parse::<usize>` gives for `s`: an optional `+` and one or
/// more decimal digits whose value fits in a `usize`.
pub open spec fn parse_usize_spec(s: Seq<char>) -> Option<usize> {
    let body = if s.len() > 0 && s[0] == '+' {
        s.drop_first()
    } else {
        s
    };
    if body.len() > 0 && all_digits(body) && digits_value(body) <= usize::MAX {
        Some(digits_value(body) as usize)
    } else {
        None
    }
}

/// `e` with the command line `c`.
pub open spec fn with_command(e: Editor, c: Option<CommandLine>) -> Editor {
    Editor { vim: VimState { command: c, ..e.vim }, ..e }
}

/// `e` with the last search `s`.
pub open spec fn with_search(e: Editor, s: Option<(bool, Vec<char>)>) -> Editor {
    Editor { vim: VimState { last_search: s, ..e.vim }, ..e }
}

/// `n` is `o` with only the status line set, to `msg`.
pub open spec fn status_only(o: Editor, n: Editor, msg: Seq<char>) -> bool {
    with_status(n, msg) && n == with_status_of(o, n.vim.status)
}

/// `n` and `out` are `o` after a request to save: while a file operation is
/// running, nothing; else the operation starts and `out` carries the
/// document's text to write.
pub open spec fn save_post(o: Editor, n: Editor, out: VimOutcome) -> bool {
    &&& !out.quit
    &&& !out.focus
    &&& !out.new_document
    &&& if o.is_loading {
        n == o && out.save is None
    } else {
        &&& n == crate::editor::loading(o)
        &&& out.save matches Some(t) && t@ == join_spec(o.doc())
    }
}

/// `n` and `out` are `o` after the Ex command `cmd` (already trimmed).
pub open spec fn run_ex_post(o: Editor, cmd: Seq<char>, n: Editor, out: VimOutcome) -> bool {
    let d = o.doc();
    if cmd == ""@ {
        n == o && no_effect(out)
    } else if cmd == "w"@ || cmd == "write"@ || cmd == "w!"@ {
        save_post(o, n, out)
    } else if cmd == "q"@ || cmd == "quit"@ {
        if o.is_dirty {
            status_only(o, n, "E37: No write since last change (add ! to override)"@) && no_effect(out)
        } else {
            n == o && out.quit && out.save is None && !out.focus && !out.new_document
        }
    } else if cmd == "q!"@ || cmd == "quit!"@ {
        n == o && out.quit && out.save is None && !out.focus && !out.new_document
    } else if cmd == "wq"@ || cmd == "x"@ || cmd == "wq!"@ || cmd == "x!"@ {
        save_post(Editor { pending_quit: true, ..o }, n, out)
    } else if cmd == "e"@ || cmd == "e!"@ || cmd == "enew"@ || cmd == "new"@ {
        &&& out.save is None
        &&& !out.quit
        &&& out.focus == !o.is_loading
        &&& out.new_document == !o.is_loading
        &&& if o.is_loading {
            n == o
        } else {
            &&& n.activated(seq![Seq::<char>::empty()], 0, 0)
            &&& !n.is_dirty
            &&& n.is_loading == o.is_loading
            &&& n.pending_quit == o.pending_quit
            &&& n.vim == crate::editor::leave_visual(o.vim)
            &&& n.undo_stack == o.undo_stack
            &&& n.redo_stack == o.redo_stack
        }
    } else {
        &&& no_effect(out)
        &&& match parse_usize_spec(cmd) {
            Some(k) => {
                let row = min_int(sat_sub(k as int, 1), d.len() - 1);
                n.activated(d, row, rest_col(d[row], first_non_blank_spec(d[row]))) && n.same_state(&o)
            },
            None => status_only(o, n, "E492: Not an editor command: "@ + cmd),
        }
    }
}

/// `n` is `o` after searching for `pat` (forward or backward) from the
/// cursor: the cursor moves to the match `search_ok` describes, or the
/// status reports that there is none.
pub open spec fn search_post(o: Editor, pat: Seq<char>, forward: bool, n: Editor) -> bool {
    let d = o.doc();
    let row = o.cursor_row();
    let col = o.cursor_col as int;
    ||| exists|r: usize, k: usize|
        #![trigger search_ok(d, row, col, pat, forward, Some((r, k)))]
        search_ok(d, row, col, pat, forward, Some((r, k))) && n.activated(d, r as int, k as int) && n.same_state(&o)
    ||| search_ok(d, row, col, pat, forward, None) && status_only(o, n, "E486: Pattern not found: "@ + pat)
}

/// The pattern of the last search of `e` (empty when there is none).
pub open spec fn last_pattern(e: Editor) -> Seq<char> {
    match e.vim.last_search {
        Some((_, p)) => p@,
        None => Seq::empty(),
    }
}

/// `n` is `o` after entering the search `pattern`: an empty pattern reuses
/// the last one (an error when there is none); the search is remembered
/// and run.
pub open spec fn start_search_post(o: Editor, pattern: Seq<char>, forward: bool, n: Editor) -> bool {
    if pattern.len() == 0 && o.vim.last_search is None {
        status_only(o, n, "E35: No previous regular expression"@)
    } else {
        let pat = if pattern.len() == 0 {
            last_pattern(o)
        } else {
            pattern
        };
        &&& n.vim.last_search matches Some(ls) && ls.0 == forward && ls.1@ == pat
        &&& search_post(with_search(o, n.vim.last_search), pat, forward, n)
    }
}

/// `n` is `o` after `n` (`same`) or `N`: the last search repeated in its
/// direction or the opposite one.
pub open spec fn repeat_search_post(o: Editor, same: bool, n: Editor) -> bool {
    match o.vim.last_search {
        None => status_only(o, n, "E35: No previous regular expression"@),
        Some(ls) => search_post(o, ls.1@, if same {
            ls.0
        } else {
            !ls.0
        }, n),
    }
}

/// `n` and `out` are `o` after running the command line `cmd` (already
/// closed in `o`).
pub open spec fn execute_post(o: Editor, cmd: CommandLine, n: Editor, out: VimOutcome) -> bool {
    match cmd.kind {
        CmdKind::Ex => run_ex_post(o, trim(cmd.buffer@), n, out),
        CmdKind::SearchForward => start_search_post(o, cmd.buffer@, true, n) && no_effect(out),
        CmdKind::SearchBackward => start_search_post(o, cmd.buffer@, false, n) && no_effect(out),
    }
}

/// `n` and `out` are `o` after `key` while the command line is open:
/// chars are typed into it, Backspace erases (closing it when empty), Esc
/// closes it and Enter runs it.
pub open spec fn command_key_post(o: Editor, key: crate::vim::Key, n: Editor, out: VimOutcome) -> bool {
    let cmd = o.vim.command->0;
    match key {
        crate::vim::Key::Char(c) => {
            &&& n.vim.command matches Some(c2) && c2.kind == cmd.kind && c2.buffer@ == cmd.buffer@.push(c)
            &&& n == with_command(o, n.vim.command)
            &&& no_effect(out)
        },
        crate::vim::Key::Backspace => {
            &&& no_effect(out)
            &&& if cmd.buffer@.len() == 0 {
                n == with_command(o, None)
            } else {
                &&& n.vim.command matches Some(c2) && c2.kind == cmd.kind && c2.buffer@ == cmd.buffer@.drop_last()
                &&& n == with_command(o, n.vim.command)
            }
        },
        crate::vim::Key::Esc => n == with_command(o, None) && no_effect(out),
        crate::vim::Key::Enter => execute_post(with_command(o, None), cmd, n, out),
        _ => n == o && no_effect(out),
    }
}

/// The digits of a prefix of `s` are worth no more than all of `s`.
proof fn lemma_digits_prefix(s: Seq<char>, i: int)
    requires
        all_digits(s),
        0 <= i <= s.len(),
    ensures
        0 <= digits_value(s.take(i)) <= digits_value(s),
    decreases s.len() - i,
{
    lemma_digits_nonneg(s.take(i));
    if i < s.len() {
        lemma_digits_prefix(s, i + 1);
        assert(s.take(i + 1).drop_last() =~= s.take(i));
    } else {
        assert(s.take(i) =~= s);
    }
}

/// Digits are worth at least 0.
proof fn lemma_digits_nonneg(s: Seq<char>)
    requires
        all_digits(s),
    ensures
        digits_value(s) >= 0,
    decreases s.len(),
{
    if s.len() > 0 {
        assert(all_digits(s.drop_last())) by {
            assert forall|i: int| 0 <= i < s.drop_last().len() implies '0' <= #[trigger] s.drop_last()[i] <= '9' by {
                assert(s.drop_last()[i] == s[i]);
            }
        }
        lemma_digits_nonneg(s.drop_last());
        assert('0' <= s[s.len() - 1] <= '9');
    }
}

/// `s` parsed as a `usize` (`str::parse`): an optional `+`, then decimal
/// digits whose value fits.
pub fn parse_usize(s: &[char]) -> (r: Option<usize>)
    ensures
        r == parse_usize_spec(s@),
{
    let start: usize = if s.len() > 0 && s[0] == '+' {
        1
    } else {
        0
    };
    let ghost body = if s@.len() > 0 && s@[0] == '+' {
        s@.drop_first()
    } else {
        s@
    };
    assert(body =~= s@.subrange(start as int, s@.len() as int));
    if start >= s.len() {
        return None;
    }
    let mut acc: usize = 0;
    let mut i = start;
    while i < s.len()
        invariant
            start <= i <= s@.len(),
            body == s@.subrange(start as int, s@.len() as int),
            body == (if s@.len() > 0 && s@[0] == '+' {
                s@.drop_first()
            } else {
                s@
            }),
            all_digits(body.take(i - start)),
            acc == digits_value(body.take(i - start)),
        decreases s@.len() - i,
    {
        let c = s[i];
        let ghost pre = body.take(i - start);
        let ghost next = body.take(i - start + 1);
        assert(next.drop_last() =~= pre);
        assert(next.last() == c);
        if c < '0' || c > '9' {
            assert(!all_digits(body)) by {
                assert(body[i - start] == c);
            }
            assert(parse_usize_spec(s@) is None);
            return None;
        }
        assert(all_digits(next)) by {
            assert forall|j: int| 0 <= j < next.len() implies '0' <= #[trigger] next[j] <= '9' by {
                if j < pre.len() {
                    assert(next[j] == pre[j]);
                }
            }
        }
        let digit = (c as u32 - '0' as u32) as usize;
        match acc.checked_mul(10) {
            Some(t) => match t.checked_add(digit) {
                Some(v) => {
                    acc = v;
                },
                None => {
                    proof {
                        assert(digits_value(next) == digits_value(pre) * 10 + (c as int - '0' as int));
                        assert(digits_value(next) == t + digit);
                        lemma_after_prefix(body, i - start + 1);
                    }
                    return None;
                },
            },
            None => {
                proof {
                    lemma_digits_nonneg(pre);
                    lemma_after_prefix(body, i - start + 1);
                }
                return None;
            },
        }
        i += 1;
    }
    assert(body.take(s@.len() - start) =~= body);
    Some(acc)
}

/// When a prefix of `body` is already worth more than `usize::MAX`, so is
/// `body`, or `body` is not all digits.
proof fn lemma_after_prefix(body: Seq<char>, i: int)
    requires
        0 <= i <= body.len(),
    ensures
        all_digits(body) ==> digits_value(body.take(i)) <= digits_value(body),
{
    if all_digits(body) {
        lemma_digits_prefix(body, i);
    }
}

impl Editor {
    /// Open the command line for the given prompt kind.
    pub fn start_command(&mut self, kind: CmdKind)
        ensures
            final(self).vim.command matches Some(c) && c.kind == kind && c.buffer@.len() == 0,
            *final(self) == with_command(without_pending(*old(self)), final(self).vim.command),
    {
        self.vim.pending = crate::vim::Pending::none();
        self.vim.command = Some(CommandLine { kind, buffer: Vec::new() });
    }

    /// Search for `pat` from the cursor, wrapping around the document.
    pub fn do_search(&mut self, pat: &[char], forward: bool)
        requires
            old(self).wf(),
        ensures
            final(self).wf(),
            final(self).vim.mode == old(self).vim.mode,
            search_post(*old(self), pat@, forward, *final(self)),
    {
        let (row, col) = self.doc_cursor_chars();
        match find_match_chars(&self.lines, row, col, pat, forward) {
            Some((r, k)) => {
                self.activate_char(r, k);
                assert(search_ok(old(self).doc(), row as int, col as int, pat@, forward, Some((r, k))));
            },
            None => {
                let prefix = to_chars("E486: Pattern not found: ");
                let msg = concat_chars(prefix.as_slice(), pat);
                self.vim.status = Some(from_chars(msg.as_slice()));
            },
        }
    }

    /// Run a search for `pattern`; an empty one repeats the last pattern.
    pub fn start_search(&mut self, pattern: Vec<char>, forward: bool)
        requires
            old(self).wf(),
        ensures
            final(self).wf(),
            final(self).vim.mode == old(self).vim.mode,
            start_search_post(*old(self), pattern@, forward, *final(self)),
    {
        let pat: Vec<char> = if pattern.len() == 0 {
            match &self.vim.last_search {
                Some((_, p)) => sub_chars(p.as_slice(), 0, p.len()),
                None => {
                    self.vim.status = Some("E35: No previous regular expression".to_owned());
                    return;
                },
            }
        } else {
            pattern
        };
        proof {
            if pattern@.len() == 0 {
                let p = last_pattern(*old(self));
                assert(p.subrange(0, p.len() as int) =~= p);
            }
        }
        let saved = sub_chars(pat.as_slice(), 0, pat.len());
        assert(pat@.subrange(0, pat@.len() as int) =~= pat@);
        self.vim.last_search = Some((forward, saved));
        self.do_search(pat.as_slice(), forward);
    }

    /// `n`/`N`: repeat the last search in the same/opposite direction.
    pub fn repeat_search(&mut self, same: bool)
        requires
            old(self).wf(),
        ensures
            final(self).wf(),
            final(self).vim.mode == old(self).vim.mode,
            repeat_search_post(*old(self), same, *final(self)),
    {
        let (forward, pat) = match &self.vim.last_search {
            Some((f, p)) => (*f, sub_chars(p.as_slice(), 0, p.len())),
            None => {
                self.vim.status = Some("E35: No previous regular expression".to_owned());
                return;
            },
        };
        proof {
            let p = last_pattern(*old(self));
            assert(p.subrange(0, p.len() as int) =~= p);
        }
        let forward = if same {
            forward
        } else {
            !forward
        };
        self.do_search(pat.as_slice(), forward);
    }

    /// Whether `cmd` is the command `name`.
    fn is_cmd(cmd: &[char], name: &str) -> (r: bool)
        ensures
            r == (cmd@ == name@),
    {
        let n = to_chars(name);
        chars_eq(cmd, n.as_slice())
    }

    /// Start a save: the text to write, unless a file operation is running.
    fn save_outcome(&mut self) -> (out: VimOutcome)
        ensures
            save_post(*old(self), *final(self), out),
    {
        let text = self.begin_save();
        VimOutcome { save: text, quit: false, focus: false, new_document: false }
    }

    /// Run the Ex command `cmd` (already trimmed).
    pub fn run_ex(&mut self, cmd: &[char]) -> (out: VimOutcome)
        requires
            old(self).wf(),
        ensures
            final(self).wf(),
            final(self).vim.mode == old(self).vim.mode || (out.new_document && final(self).vim.mode == Mode::Normal),
            run_ex_post(*old(self), cmd@, *final(self), out),
    {
        if Self::is_cmd(cmd, "") {
            return VimOutcome::none();
        }
        if Self::is_cmd(cmd, "w") || Self::is_cmd(cmd, "write") || Self::is_cmd(cmd, "w!") {
            return self.save_outcome();
        }
        if Self::is_cmd(cmd, "q") || Self::is_cmd(cmd, "quit") {
            if self.is_dirty {
                self.vim.status = Some("E37: No write since last change (add ! to override)".to_owned());
                return VimOutcome::none();
            }
            return VimOutcome { save: None, quit: true, focus: false, new_document: false };
        }
        if Self::is_cmd(cmd, "q!") || Self::is_cmd(cmd, "quit!") {
            return VimOutcome { save: None, quit: true, focus: false, new_document: false };
        }
        if Self::is_cmd(cmd, "wq") || Self::is_cmd(cmd, "x") || Self::is_cmd(cmd, "wq!") || Self::is_cmd(cmd, "x!") {
            self.pending_quit = true;
            return self.save_outcome();
        }
        if Self::is_cmd(cmd, "e") || Self::is_cmd(cmd, "e!") || Self::is_cmd(cmd, "enew") || Self::is_cmd(cmd, "new") {
            let started = self.new_file();
            return VimOutcome { save: None, quit: false, focus: started, new_document: started };
        }
        match parse_usize(cmd) {
            Some(n) => {
                let last = self.lines.len() - 1;
                let row = if n == 0 {
                    0
                } else if n - 1 < last {
                    n - 1
                } else {
                    last
                };
                let col = first_non_blank_chars(self.lines[row].as_slice());
                let col = self.rest_clamp(row, col);
                self.activate_char(row, col);
            },
            None => {
                let prefix = to_chars("E492: Not an editor command: ");
                let msg = concat_chars(prefix.as_slice(), cmd);
                self.vim.status = Some(from_chars(msg.as_slice()));
            },
        }
        VimOutcome::none()
    }

    /// Run the command line `cmd` on Enter.
    pub fn execute_command(&mut self, cmd: CommandLine) -> (out: VimOutcome)
        requires
            old(self).wf(),
        ensures
            final(self).wf(),
            final(self).vim.mode == old(self).vim.mode || (out.new_document && final(self).vim.mode == Mode::Normal),
            execute_post(*old(self), cmd, *final(self), out),
    {
        match cmd.kind {
            CmdKind::Ex => {
                let (a, b) = trim_bounds(cmd.buffer.as_slice());
                let t = sub_chars(cmd.buffer.as_slice(), a, b);
                self.run_ex(t.as_slice())
            },
            CmdKind::SearchForward => {
                self.start_search(cmd.buffer, true);
                VimOutcome::none()
            },
            CmdKind::SearchBackward => {
                self.start_search(cmd.buffer, false);
                VimOutcome::none()
            },
        }
    }

    /// A key while the command line is open.
    pub fn command_key(&mut self, key: crate::vim::Key) -> (out: VimOutcome)
        requires
            old(self).wf(),
            old(self).vim.command is Some,
        ensures
            final(self).wf(),
            final(self).vim.mode == old(self).vim.mode || (out.new_document && final(self).vim.mode == Mode::Normal),
            command_key_post(*old(self), key, *final(self), out),
    {
        match key {
            crate::vim::Key::Char(c) => {
                let mut cmd = self.vim.command.take().unwrap();
                cmd.buffer.push(c);
                self.vim.command = Some(cmd);
                VimOutcome::none()
            },
            crate::vim::Key::Backspace => {
                let mut cmd = self.vim.command.take().unwrap();
                if cmd.buffer.len() > 0 {
                    cmd.buffer.pop();
                    self.vim.command = Some(cmd);
                }
                VimOutcome::none()
            },
            crate::vim::Key::Esc => {
                self.vim.command = None;
                VimOutcome::none()
            },
            crate::vim::Key::Enter => {
                let cmd = self.vim.command.take().unwrap();
                self.execute_command(cmd)
            },
            _ => VimOutcome::none(),
        }
    }
}

} // verus!
