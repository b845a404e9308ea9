//! Edit primitives of the Vim engine: counts, the register, undo history and
//! the char-wise and line-wise edits that operators and commands reduce to.

use vstd::prelude::*;
use crate::editor::{lemma_concat_no_newline, lemma_sub_no_newline, min_int, Editor};
use crate::motion::first_non_blank_spec;
use crate::text::{join_range, join_spec, no_newlines, split_chars, split_seq, sub_chars, vec_views};
use crate::vim::{pending_none, Mode, Operator, Pending, Register, Snapshot, VimState};

verus! {

/// Most snapshots kept for undo; older ones are dropped.
pub const UNDO_LIMIT: usize = 500;

/// Largest count a run of digits accumulates to.
pub const COUNT_LIMIT: usize = 100000;

/// `a - b`, or 0 when `b > a`.
pub open spec fn sat_sub(a: int, b: int) -> int {
    if a >= b {
        a - b
    } else {
        0
    }
}

/// A Normal-mode cursor column on `line`: `col`, clamped to the last char (0
/// on an empty line).
pub open spec fn rest_col(line: Seq<char>, col: int) -> int {
    if line.len() == 0 {
        0
    } else {
        min_int(col, line.len() - 1)
    }
}

/// The count a command uses: the typed count (at least 1), else 1.
pub open spec fn count_or_one(c: Option<usize>) -> int {
    match c {
        Some(n) => if n >= 1 {
            n as int
        } else {
            1
        },
        None => 1,
    }
}

/// The count after typing the digit `c` with `cur` pending (capped at
/// [`COUNT_LIMIT`]).
pub open spec fn next_count(cur: Option<usize>, c: char) -> usize {
    let v = match cur {
        Some(n) => n as int,
        None => 0,
    };
    min_int(v * 10 + (c as int - '0' as int), COUNT_LIMIT as int) as usize
}

/// The content of a snapshot: its lines and its cursor.
pub open spec fn snap_view(s: Snapshot) -> (Seq<Seq<char>>, int, int) {
    (vec_views(s.lines@), s.row as int, s.col as int)
}

/// The contents of a stack of snapshots, bottom first.
pub open spec fn stack_view(s: Seq<Snapshot>) -> Seq<(Seq<Seq<char>>, int, int)> {
    s.map_values(|x: Snapshot| snap_view(x))
}

/// `s` with `x` pushed, dropping the oldest entry beyond [`UNDO_LIMIT`].
pub open spec fn push_bounded(s: Seq<(Seq<Seq<char>>, int, int)>, x: (Seq<Seq<char>>, int, int)) -> Seq<
    (Seq<Seq<char>>, int, int),
> {
    if s.len() + 1 > UNDO_LIMIT {
        s.push(x).drop_first()
    } else {
        s.push(x)
    }
}

/// `e` with the pending count cleared.
pub open spec fn without_count(e: Editor) -> Editor {
    Editor { vim: VimState { pending: Pending { count: None, ..e.vim.pending }, ..e.vim }, ..e }
}

/// `e` with the pending count `c`.
pub open spec fn with_count(e: Editor, c: Option<usize>) -> Editor {
    Editor { vim: VimState { pending: Pending { count: c, ..e.vim.pending }, ..e.vim }, ..e }
}

/// `e` with neither a pending count nor an operator count.
pub open spec fn without_counts(e: Editor) -> Editor {
    Editor { vim: VimState { pending: Pending { count: None, op_count: None, ..e.vim.pending }, ..e.vim }, ..e }
}

/// `e` with the register `r`.
pub open spec fn with_register(e: Editor, r: Register) -> Editor {
    Editor { vim: VimState { register: r, ..e.vim }, ..e }
}

/// `e` with the undo stack `u` and the redo stack `r`.
pub open spec fn with_history(e: Editor, u: Vec<Snapshot>, r: Vec<Snapshot>) -> Editor {
    Editor { undo_stack: u, redo_stack: r, ..e }
}

/// `e` with the lines `l`.
pub open spec fn with_lines(e: Editor, l: Vec<Vec<char>>) -> Editor {
    Editor { lines: l, ..e }
}

/// `e` with the status line `s`.
pub open spec fn with_status_of(e: Editor, s: Option<String>) -> Editor {
    Editor { vim: VimState { status: s, ..e.vim }, ..e }
}

/// `e` with nothing pending.
pub open spec fn without_pending(e: Editor) -> Editor {
    Editor { vim: VimState { pending: pending_none(), ..e.vim }, ..e }
}

/// `e` with its transient status line set to `msg`.
pub open spec fn with_status(e: Editor, msg: Seq<char>) -> bool {
    e.vim.status matches Some(s) && s@ == msg
}

/// The unnamed register of `n` holds `text`, line-wise or not.
pub open spec fn reg_is(n: Editor, text: Seq<char>, linewise: bool) -> bool {
    &&& n.vim.register.text@ == text
    &&& n.vim.register.linewise == linewise
    &&& n.vim.register.filled
}

/// `n` keeps the file flags, command line, last search and status of `o`.
pub open spec fn keeps_io(o: Editor, n: Editor) -> bool {
    &&& n.is_loading == o.is_loading
    &&& n.pending_quit == o.pending_quit
    &&& n.vim.command == o.vim.command
    &&& n.vim.last_search == o.vim.last_search
    &&& n.vim.status == o.vim.status
}

/// `n` keeps the undo and redo history of `o`.
pub open spec fn same_history(o: Editor, n: Editor) -> bool {
    n.undo_stack == o.undo_stack && n.redo_stack == o.redo_stack
}

/// `n`'s history is `o`'s with `o`'s snapshot pushed for undo (oldest
/// dropped beyond the limit), and nothing to redo.
pub open spec fn pushed_undo(o: Editor, n: Editor) -> bool {
    &&& stack_view(n.undo_stack@) == push_bounded(stack_view(o.undo_stack@), o.snapshot())
    &&& n.redo_stack@.len() == 0
}

impl Editor {
    /// The document and the cursor, as an undo snapshot records them.
    pub open spec fn snapshot(&self) -> (Seq<Seq<char>>, int, int) {
        (self.doc(), self.cursor_row(), self.cursor_col as int)
    }

    /// Clamp `col` so a Normal-mode cursor rests on a real character.
    pub fn rest_clamp(&self, row: usize, col: usize) -> (r: usize)
        requires
            row < self.doc().len(),
        ensures
            r == rest_col(self.doc()[row as int], col as int),
    {
        let n = self.lines[row].len();
        if n == 0 {
            0
        } else if col < n - 1 {
            col
        } else {
            n - 1
        }
    }

    /// Whether a numeric count is being typed.
    pub fn has_count(&self) -> (r: bool)
        ensures
            r == self.vim.pending.count is Some,
    {
        self.vim.pending.count.is_some()
    }

    /// Append the digit `c` to the pending count (capped at [`COUNT_LIMIT`]).
    pub fn push_count(&mut self, c: char)
        requires
            '0' <= c <= '9',
        ensures
            *final(self) == with_count(*old(self), Some(next_count(old(self).vim.pending.count, c))),
    {
        let digit = (c as u32 - '0' as u32) as usize;
        let current: usize = match self.vim.pending.count {
            Some(n) => if n < COUNT_LIMIT {
                n
            } else {
                COUNT_LIMIT
            },
            None => 0,
        };
        let ghost cur = match old(self).vim.pending.count {
            Some(n) => n as int,
            None => 0,
        };
        // A count never exceeds the limit, so the product fits.
        let next = if current * 10 + digit < COUNT_LIMIT {
            current * 10 + digit
        } else {
            COUNT_LIMIT
        };
        assert(cur > COUNT_LIMIT ==> next == COUNT_LIMIT);
        self.vim.pending.count = Some(next);
    }

    /// Take the pending count, defaulting to 1.
    pub fn count1(&mut self) -> (r: usize)
        ensures
            r == count_or_one(old(self).vim.pending.count),
            r >= 1,
            *final(self) == without_count(*old(self)),
    {
        match self.vim.pending.count.take() {
            Some(n) => if n >= 1 {
                n
            } else {
                1
            },
            None => 1,
        }
    }

    /// Take the operator count times the motion count (`2d3w` is 6 words),
    /// saturating at `usize::MAX`.
    pub fn combined_op_count(&mut self) -> (r: usize)
        ensures
            r == min_int(
                count_or_one(old(self).vim.pending.op_count) * count_or_one(old(self).vim.pending.count),
                usize::MAX as int,
            ),
            r >= 1,
            *final(self) == without_counts(*old(self)),
    {
        let op: usize = match self.vim.pending.op_count.take() {
            Some(n) => if n >= 1 {
                n
            } else {
                1
            },
            None => 1,
        };
        let motion: usize = match self.vim.pending.count.take() {
            Some(n) => if n >= 1 {
                n
            } else {
                1
            },
            None => 1,
        };
        proof {
            vstd::arithmetic::mul::lemma_mul_increases(op as int, motion as int);
        }
        match op.checked_mul(motion) {
            Some(p) => p,
            None => usize::MAX,
        }
    }

    /// Reset all pending command state.
    pub fn clear_pending(&mut self)
        ensures
            *final(self) == without_pending(*old(self)),
    {
        self.vim.pending = Pending::none();
    }

    /// Store `text` in the unnamed register.
    pub fn set_register(&mut self, text: Vec<char>, linewise: bool)
        ensures
            reg_is(*final(self), text@, linewise),
            *final(self) == with_register(*old(self), final(self).vim.register),
    {
        self.vim.register = Register { text, linewise, filled: true };
    }

    /// Push the current document and cursor onto the undo stack (dropping
    /// the oldest snapshot beyond [`UNDO_LIMIT`]) and clear the redo stack.
    pub fn push_undo(&mut self)
        requires
            old(self).wf(),
        ensures
            pushed_undo(*old(self), *final(self)),
            final(self).wf(),
            *final(self) == with_history(*old(self), final(self).undo_stack, final(self).redo_stack),
    {
        let (row, col) = self.doc_cursor_chars();
        let lines = copy_lines(&self.lines);
        let snap = Snapshot { lines, row, col };
        let ghost before = stack_view(self.undo_stack@);
        self.undo_stack.push(snap);
        assert(stack_view(self.undo_stack@) =~= before.push(old(self).snapshot()));
        if self.undo_stack.len() > UNDO_LIMIT {
            self.undo_stack.remove(0);
            assert(stack_view(self.undo_stack@) =~= before.push(old(self).snapshot()).drop_first());
        }
        self.redo_stack.clear();
        proof {
            let st = self.undo_stack@;
            assert forall|i: int| 0 <= i < st.len() implies crate::editor::snapshot_ok(#[trigger] st[i]) by {
                let ov = old(self).undo_stack@;
                if ov.len() + 1 > UNDO_LIMIT {
                    if i + 1 < ov.len() {
                        assert(st[i] == ov[i + 1]);
                    }
                } else if i < ov.len() {
                    assert(st[i] == ov[i]);
                }
            }
        }
    }
}

/// A copy of `lines`.
pub fn copy_lines(lines: &Vec<Vec<char>>) -> (r: Vec<Vec<char>>)
    ensures
        vec_views(r@) == vec_views(lines@),
{
    let mut out: Vec<Vec<char>> = Vec::new();
    let mut i: usize = 0;
    while i < lines.len()
        invariant
            i <= lines@.len(),
            vec_views(out@) == vec_views(lines@).take(i as int),
        decreases lines@.len() - i,
    {
        let n = lines[i].len();
        let copy = sub_chars(lines[i].as_slice(), 0, n);
        assert(lines@[i as int]@.subrange(0, n as int) =~= lines@[i as int]@);
        proof {
            crate::editor::lemma_views_push(out@, copy);
        }
        out.push(copy);
        assert(vec_views(out@) =~= vec_views(lines@).take(i + 1));
        i += 1;
    }
    assert(vec_views(lines@).take(lines@.len() as int) =~= vec_views(lines@));
    out
}


/// `line` with the chars `c0..c1` removed.
pub open spec fn cut(line: Seq<char>, c0: int, c1: int) -> Seq<char> {
    line.subrange(0, c0) + line.subrange(c1, line.len() as int)
}

/// `d` without the lines `r0..=r1`; a document never becomes empty, so one
/// empty line stays when every line goes.
pub open spec fn drop_lines(d: Seq<Seq<char>>, r0: int, r1: int) -> Seq<Seq<char>> {
    let rest = d.subrange(0, r0) + d.subrange(r1 + 1, d.len() as int);
    if rest.len() == 0 {
        seq![Seq::<char>::empty()]
    } else {
        rest
    }
}

/// `s` repeated `k` times.
pub open spec fn repeat<A>(s: Seq<A>, k: nat) -> Seq<A>
    decreases k,
{
    if k == 0 {
        Seq::empty()
    } else {
        repeat(s, (k - 1) as nat) + s
    }
}

/// The lines that replace `line` when `text` is inserted at char column `col`:
/// the text's first piece joins the part before `col`, its last piece the
/// part after.
pub open spec fn insert_lines(line: Seq<char>, col: int, text: Seq<char>) -> Seq<Seq<char>> {
    let ps = split_seq(text, '\n');
    let k = ps.len() as int;
    let head = line.subrange(0, col) + ps[0];
    let tail = line.subrange(col, line.len() as int);
    if k == 1 {
        seq![head + tail]
    } else {
        seq![head] + ps.subrange(1, k - 1) + seq![ps[k - 1] + tail]
    }
}

/// Where the cursor lands after inserting `text` at `(row, col)`: just past
/// the inserted text.
pub open spec fn insert_end(row: int, col: int, text: Seq<char>) -> (int, int) {
    let ps = split_seq(text, '\n');
    let k = ps.len() as int;
    if k == 1 {
        (row, col + ps[0].len())
    } else {
        (row + k - 1, ps[k - 1].len() as int)
    }
}

/// `d` with `text` inserted at `(row, col)`.
pub open spec fn insert_doc(d: Seq<Seq<char>>, row: int, col: int, text: Seq<char>) -> Seq<Seq<char>> {
    d.subrange(0, row) + insert_lines(d[row], col, text) + d.subrange(row + 1, d.len() as int)
}

/// `n` is `o` after the char-wise operator `op` over chars `c0..c1` of
/// line `row`: the chars go to the register; a delete or change removes
/// them (with an undo snapshot) and a change enters Insert mode.
pub open spec fn charwise_post(o: Editor, op: Operator, row: int, c0: int, c1: int, n: Editor) -> bool {
    let d = o.doc();
    let line2 = cut(d[row], c0, c1);
    let d2 = d.update(row, line2);
    &&& reg_is(n, d[row].subrange(c0, c1), false)
    &&& keeps_io(o, n)
    &&& n.vim.visual == o.vim.visual
    &&& n.vim.pending == o.vim.pending
    &&& match op {
        Operator::Yank => {
            &&& n.activated(d, row, rest_col(d[row], c0))
            &&& n.vim.mode == o.vim.mode
            &&& same_history(o, n)
            &&& n.is_dirty == o.is_dirty
        },
        Operator::Delete => {
            &&& n.activated(d2, row, rest_col(line2, c0))
            &&& n.vim.mode == o.vim.mode
            &&& pushed_undo(o, n)
            &&& n.is_dirty
        },
        Operator::Change => {
            &&& n.activated(d2, row, c0)
            &&& n.vim.mode == Mode::Insert
            &&& pushed_undo(o, n)
            &&& n.is_dirty
        },
    }
}

/// `n` is `o` after the line-wise operator `op` over lines `r0..=r1`
/// (clamped to the document): the lines go to the register; a delete
/// removes them, a change replaces them by one empty line in Insert mode.
pub open spec fn linewise_post(o: Editor, op: Operator, r0: int, r1: int, n: Editor) -> bool {
    let d = o.doc();
    let b = min_int(r1, d.len() - 1);
    let a = min_int(r0, b);
    let dd = drop_lines(d, a, b);
    let row = min_int(a, dd.len() - 1);
    let dc = d.subrange(0, a) + seq![Seq::<char>::empty()] + d.subrange(b + 1, d.len() as int);
    &&& reg_is(n, join_spec(d.subrange(a, b + 1)), true)
    &&& keeps_io(o, n)
    &&& n.vim.visual == crate::editor::fit_vim(o.vim, n.doc().len() as int).visual
    &&& n.vim.pending == o.vim.pending
    &&& match op {
        Operator::Yank => {
            &&& n.activated(d, a, rest_col(d[a], first_non_blank_spec(d[a])))
            &&& n.vim.mode == o.vim.mode
            &&& same_history(o, n)
            &&& n.is_dirty == o.is_dirty
        },
        Operator::Delete => {
            &&& n.activated(dd, row, rest_col(dd[row], first_non_blank_spec(dd[row])))
            &&& n.vim.mode == o.vim.mode
            &&& pushed_undo(o, n)
            &&& n.is_dirty
        },
        Operator::Change => {
            &&& n.activated(dc, a, 0)
            &&& n.vim.mode == Mode::Insert
            &&& pushed_undo(o, n)
            &&& n.is_dirty
        },
    }
}

/// `n` is `o` after an edit that changed only the document (to `d2`), the
/// cursor (to `(row, col)`), the history (an undo snapshot pushed) and the
/// modified flag.
pub open spec fn edited(o: Editor, n: Editor, d2: Seq<Seq<char>>, row: int, col: int) -> bool {
    &&& n.activated(d2, row, col)
    &&& pushed_undo(o, n)
    &&& n.is_dirty
    &&& n.vim == o.vim
    &&& n.is_loading == o.is_loading
    &&& n.pending_quit == o.pending_quit
}

/// `n` is `o` with the document restored from `snap` (cursor clamped to it).
pub open spec fn restored(n: Editor, snap: Snapshot) -> bool {
    let d2 = vec_views(snap.lines@);
    let row = min_int(snap.row as int, d2.len() - 1);
    n.activated(d2, row, rest_col(d2[row], snap.col as int))
}

/// `n` is `o` after `u`: the newest undo snapshot is restored and the
/// current state saved for redo; with nothing to undo, only a message.
pub open spec fn undo_post(o: Editor, n: Editor) -> bool {
    if o.undo_stack@.len() == 0 {
        &&& with_status(n, "Already at oldest change"@)
        &&& n == with_status_of(o, n.vim.status)
    } else {
        &&& restored(n, o.undo_stack@.last())
        &&& n.undo_stack@ == o.undo_stack@.drop_last()
        &&& stack_view(n.redo_stack@) == stack_view(o.redo_stack@).push(o.snapshot())
        &&& n.is_dirty
        &&& n.vim == crate::editor::fit_vim(o.vim, n.doc().len() as int)
        &&& n.is_loading == o.is_loading
        &&& n.pending_quit == o.pending_quit
    }
}

/// `n` is `o` after `Ctrl-r`: the newest redo snapshot is restored and the
/// current state saved for undo; with nothing to redo, only a message.
pub open spec fn redo_post(o: Editor, n: Editor) -> bool {
    if o.redo_stack@.len() == 0 {
        &&& with_status(n, "Already at newest change"@)
        &&& n == with_status_of(o, n.vim.status)
    } else {
        &&& restored(n, o.redo_stack@.last())
        &&& n.redo_stack@ == o.redo_stack@.drop_last()
        &&& stack_view(n.undo_stack@) == stack_view(o.undo_stack@).push(o.snapshot())
        &&& n.is_dirty
        &&& n.vim == crate::editor::fit_vim(o.vim, n.doc().len() as int)
        &&& n.is_loading == o.is_loading
        &&& n.pending_quit == o.pending_quit
    }
}

/// Newline-free line lists stay newline-free when concatenated.
pub proof fn lemma_nn_concat(a: Seq<Seq<char>>, b: Seq<Seq<char>>)
    requires
        no_newlines(a),
        no_newlines(b),
    ensures
        no_newlines(a + b),
{
    assert forall|i: int| 0 <= i < (a + b).len() implies !(#[trigger] (a + b)[i]).contains('\n') by {
        if i < a.len() {
            assert((a + b)[i] == a[i]);
        } else {
            assert((a + b)[i] == b[i - a.len()]);
        }
    }
}

/// Part of a newline-free line list is newline-free.
pub proof fn lemma_nn_sub(a: Seq<Seq<char>>, i: int, j: int)
    requires
        no_newlines(a),
        0 <= i <= j <= a.len(),
    ensures
        no_newlines(a.subrange(i, j)),
{
    assert forall|k: int| 0 <= k < j - i implies !(#[trigger] a.subrange(i, j)[k]).contains('\n') by {
        assert(a.subrange(i, j)[k] == a[i + k]);
    }
}

/// The pieces of a split on `\n` hold no `\n`.
pub proof fn lemma_nn_split(s: Seq<char>)
    ensures
        no_newlines(split_seq(s, '\n')),
{
    crate::editor::lemma_split_no_newlines(s);
}

/// `line` with `c0..c1` removed, as a new vector.
pub fn cut_chars(line: &[char], c0: usize, c1: usize) -> (r: Vec<char>)
    requires
        c0 <= c1 <= line@.len(),
    ensures
        r@ == cut(line@, c0 as int, c1 as int),
{
    let mut out = sub_chars(line, 0, c0);
    let mut rest = sub_chars(line, c1, line.len());
    out.append(&mut rest);
    out
}

/// `a` followed by `b`, as a new vector.
pub fn concat_chars(a: &[char], b: &[char]) -> (r: Vec<char>)
    ensures
        r@ == a@ + b@,
{
    let mut out = sub_chars(a, 0, a.len());
    let mut rest = sub_chars(b, 0, b.len());
    assert(a@.subrange(0, a@.len() as int) =~= a@);
    assert(b@.subrange(0, b@.len() as int) =~= b@);
    out.append(&mut rest);
    out
}

impl Editor {
    /// Replace the lines `start..end` by `parts`, keeping the document a
    /// non-empty list of newline-free lines.
    pub fn replace_lines(&mut self, start: usize, end: usize, parts: Vec<Vec<char>>)
        requires
            old(self).doc_ok(),
            start <= end <= old(self).doc().len(),
            no_newlines(vec_views(parts@)),
            parts@.len() + old(self).doc().len() - (end - start) >= 1,
        ensures
            final(self).doc() == old(self).doc().subrange(0, start as int) + vec_views(parts@)
                + old(self).doc().subrange(end as int, old(self).doc().len() as int),
            final(self).doc_ok(),
            *final(self) == with_lines(*old(self), final(self).lines),
    {
        let ghost d = self.doc();
        self.splice_lines(start, end, parts);
        proof {
            lemma_nn_sub(d, 0, start as int);
            lemma_nn_sub(d, end as int, d.len() as int);
            lemma_nn_concat(d.subrange(0, start as int), vec_views(parts@));
            lemma_nn_concat(d.subrange(0, start as int) + vec_views(parts@), d.subrange(end as int, d.len() as int));
        }
    }

    /// `u`: restore the newest undo snapshot, saving the current state for
    /// redo.
    pub fn vim_undo(&mut self)
        requires
            old(self).wf(),
        ensures
            final(self).wf(),
            undo_post(*old(self), *final(self)),
    {
        if self.undo_stack.len() == 0 {
            self.vim.status = Some("Already at oldest change".to_owned());
            return;
        }
        let ghost o = *self;
        let (row, col) = self.doc_cursor_chars();
        let cur = copy_lines(&self.lines);
        let snap = self.undo_stack.pop().unwrap();
        assert(snap == o.undo_stack@.last());
        assert(crate::editor::snapshot_ok(o.undo_stack@[o.undo_stack@.len() - 1]));
        let ghost before = stack_view(self.redo_stack@);
        self.redo_stack.push(Snapshot { lines: cur, row, col });
        assert(stack_view(self.redo_stack@) =~= before.push(o.snapshot()));
        self.lines = snap.lines;
        self.is_dirty = true;
        proof {
            assert forall|i: int| 0 <= i < self.undo_stack@.len() implies crate::editor::snapshot_ok(
                #[trigger] self.undo_stack@[i],
            ) by {
                assert(self.undo_stack@[i] == o.undo_stack@[i]);
            }
            assert forall|i: int| 0 <= i < self.redo_stack@.len() implies crate::editor::snapshot_ok(
                #[trigger] self.redo_stack@[i],
            ) by {
                if i < o.redo_stack@.len() {
                    assert(self.redo_stack@[i] == o.redo_stack@[i]);
                }
            }
        }
        self.fit_visual();
        let last = self.lines.len() - 1;
        let r = if snap.row < last {
            snap.row
        } else {
            last
        };
        let c = self.rest_clamp(r, snap.col);
        self.activate_char(r, c);
    }

    /// `Ctrl-r`: restore the newest redo snapshot, saving the current state
    /// for undo.
    pub fn vim_redo(&mut self)
        requires
            old(self).wf(),
        ensures
            final(self).wf(),
            redo_post(*old(self), *final(self)),
    {
        if self.redo_stack.len() == 0 {
            self.vim.status = Some("Already at newest change".to_owned());
            return;
        }
        let ghost o = *self;
        let (row, col) = self.doc_cursor_chars();
        let cur = copy_lines(&self.lines);
        let snap = self.redo_stack.pop().unwrap();
        assert(snap == o.redo_stack@.last());
        assert(crate::editor::snapshot_ok(o.redo_stack@[o.redo_stack@.len() - 1]));
        let ghost before = stack_view(self.undo_stack@);
        self.undo_stack.push(Snapshot { lines: cur, row, col });
        assert(stack_view(self.undo_stack@) =~= before.push(o.snapshot()));
        self.lines = snap.lines;
        self.is_dirty = true;
        proof {
            assert forall|i: int| 0 <= i < self.redo_stack@.len() implies crate::editor::snapshot_ok(
                #[trigger] self.redo_stack@[i],
            ) by {
                assert(self.redo_stack@[i] == o.redo_stack@[i]);
            }
            assert forall|i: int| 0 <= i < self.undo_stack@.len() implies crate::editor::snapshot_ok(
                #[trigger] self.undo_stack@[i],
            ) by {
                if i < o.undo_stack@.len() {
                    assert(self.undo_stack@[i] == o.undo_stack@[i]);
                }
            }
        }
        self.fit_visual();
        let last = self.lines.len() - 1;
        let r = if snap.row < last {
            snap.row
        } else {
            last
        };
        let c = self.rest_clamp(r, snap.col);
        self.activate_char(r, c);
    }
}


impl Editor {
    /// Apply the char-wise operator `op` over chars `c0..c1` of line `row`.
    pub fn apply_charwise(&mut self, op: Operator, row: usize, c0: usize, c1: usize)
        requires
            old(self).wf(),
            row < old(self).doc().len(),
            c0 <= c1 <= old(self).doc()[row as int].len(),
        ensures
            final(self).wf(),
            charwise_post(*old(self), op, row as int, c0 as int, c1 as int, *final(self)),
    {
        let ghost d = self.doc();
        let text = sub_chars(self.lines[row].as_slice(), c0, c1);
        match op {
            Operator::Yank => {
                self.set_register(text, false);
                let col = self.rest_clamp(row, c0);
                self.activate_char(row, col);
            },
            Operator::Delete | Operator::Change => {
                self.push_undo();
                self.set_register(text, false);
                let line2 = cut_chars(self.lines[row].as_slice(), c0, c1);
                proof {
                    let l = d[row as int];
                    assert(!l.contains('\n'));
                    lemma_sub_no_newline(l, 0, c0 as int);
                    lemma_sub_no_newline(l, c1 as int, l.len() as int);
                    lemma_concat_no_newline(l.subrange(0, c0 as int), l.subrange(c1 as int, l.len() as int));
                }
                let ghost l2 = line2@;
                let parts = vec![line2];
                assert(vec_views(parts@) =~= seq![l2]);
                assert(row < self.lines.len());
                self.replace_lines(row, row + 1, parts);
                assert(self.doc() =~= d.update(row as int, l2));
                self.is_dirty = true;
                if op == Operator::Delete {
                    let col = self.rest_clamp(row, c0);
                    self.activate_char(row, col);
                } else {
                    self.vim.mode = Mode::Insert;
                    self.activate_char(row, c0);
                }
            },
        }
    }

    /// Apply the line-wise operator `op` over lines `r0..=r1` (clamped to the
    /// document).
    #[verifier::rlimit(40)]
    pub fn apply_linewise(&mut self, op: Operator, r0: usize, r1: usize)
        requires
            old(self).wf(),
        ensures
            final(self).wf(),
            linewise_post(*old(self), op, r0 as int, r1 as int, *final(self)),
    {
        let ghost d = self.doc();
        let last = self.lines.len() - 1;
        let b = if r1 < last {
            r1
        } else {
            last
        };
        let a = if r0 < b {
            r0
        } else {
            b
        };
        let text = join_range(&self.lines, a, b + 1);
        match op {
            Operator::Yank => {
                self.set_register(text, true);
                let col = crate::motion::first_non_blank_chars(self.lines[a].as_slice());
                let col = self.rest_clamp(a, col);
                self.activate_char(a, col);
            },
            Operator::Delete => {
                self.push_undo();
                self.set_register(text, true);
                let keep_one = a == 0 && b + 1 == self.lines.len();
                let parts: Vec<Vec<char>> = if keep_one {
                    vec![Vec::new()]
                } else {
                    Vec::new()
                };
                proof {
                    assert(vec_views(parts@) =~= (if keep_one {
                        seq![Seq::<char>::empty()]
                    } else {
                        Seq::<Seq<char>>::empty()
                    }));
                }
                self.replace_lines(a, b + 1, parts);
                self.fit_visual();
                assert(self.doc() =~= drop_lines(d, a as int, b as int));
                self.is_dirty = true;
                let row = if a < self.lines.len() - 1 {
                    a
                } else {
                    self.lines.len() - 1
                };
                let col = crate::motion::first_non_blank_chars(self.lines[row].as_slice());
                let col = self.rest_clamp(row, col);
                self.activate_char(row, col);
            },
            Operator::Change => {
                self.push_undo();
                self.set_register(text, true);
                let parts: Vec<Vec<char>> = vec![Vec::new()];
                assert(vec_views(parts@) =~= seq![Seq::<char>::empty()]);
                self.replace_lines(a, b + 1, parts);
                self.fit_visual();
                self.is_dirty = true;
                self.vim.mode = Mode::Insert;
                self.activate_char(a, 0);
            },
        }
    }
}


/// `n` keeps `o`'s register, Visual selection, file flags, command line,
/// last search and status, and has the mode `mode` and pending state `p`.
pub open spec fn modal(o: Editor, n: Editor, mode: Mode, p: Pending) -> bool {
    &&& n.vim.mode == mode
    &&& n.vim.pending == p
    &&& n.vim.register == o.vim.register
    &&& n.vim.visual == o.vim.visual
    &&& keeps_io(o, n)
}

/// `n` is `o` after entering Insert mode at `(row, col)` (with an undo
/// snapshot, the count cleared).
pub open spec fn insert_at_post(o: Editor, row: int, col: int, n: Editor) -> bool {
    &&& n.activated(o.doc(), row, col)
    &&& pushed_undo(o, n)
    &&& n.is_dirty == o.is_dirty
    &&& modal(o, n, Mode::Insert, without_count(o).vim.pending)
}

/// `n` is `o` after leaving Insert mode: Normal mode, the cursor one column
/// left, resting on a char.
pub open spec fn leave_insert_post(o: Editor, n: Editor) -> bool {
    let d = o.doc();
    let row = o.cursor_row();
    &&& n.activated(d, row, rest_col(d[row], sat_sub(o.cursor_col as int, 1)))
    &&& same_history(o, n)
    &&& n.is_dirty == o.is_dirty
    &&& modal(o, n, Mode::Normal, o.vim.pending)
}

/// `n` is `o` after `x`: the count (taken) of chars from the cursor go to
/// the register and are removed; past the end of the line only the count is
/// taken.
pub open spec fn delete_char_post(o: Editor, n: Editor) -> bool {
    let d = o.doc();
    let row = o.cursor_row();
    let col = o.cursor_col as int;
    let line = d[row];
    if col >= line.len() {
        n == without_count(o)
    } else {
        let end = min_int(col + count_or_one(o.vim.pending.count), line.len() as int);
        let line2 = cut(line, col, end);
        &&& reg_is(n, line.subrange(col, end), false)
        &&& n.activated(d.update(row, line2), row, rest_col(line2, col))
        &&& pushed_undo(o, n)
        &&& n.is_dirty
        &&& keeps_io(o, n)
        &&& n.vim.mode == o.vim.mode
        &&& n.vim.visual == o.vim.visual
        &&& n.vim.pending == without_count(o).vim.pending
    }
}

/// `n` is `o` after `r{ch}`: the char under the cursor becomes `ch` (a line
/// break when `ch` is `\n`); nothing past the end of the line.
pub open spec fn replace_char_post(o: Editor, ch: char, n: Editor) -> bool {
    let d = o.doc();
    let row = o.cursor_row();
    let col = o.cursor_col as int;
    let line = d[row];
    if col >= line.len() {
        n == o
    } else {
        let d2 = d.subrange(0, row) + split_seq(line.update(col, ch), '\n') + d.subrange(row + 1, d.len() as int);
        edited(o, n, d2, row, col)
    }
}

/// `n` is `o` after `o`/`O`: an empty line opened below/above the cursor
/// line, in Insert mode.
pub open spec fn open_line_post(o: Editor, below: bool, n: Editor) -> bool {
    let row = o.cursor_row();
    let at = if below {
        row + 1
    } else {
        row
    };
    &&& n.activated(o.doc().insert(at, Seq::<char>::empty()), at, 0)
    &&& pushed_undo(o, n)
    &&& n.is_dirty
    &&& modal(o, n, Mode::Insert, without_count(o).vim.pending)
}

/// `n` is `o` after `p`/`P`: the register pasted count times after/before
/// the cursor (as whole lines below/above for a line-wise register); nothing
/// while the register was never filled.
pub open spec fn paste_post(o: Editor, after: bool, n: Editor) -> bool {
    let reg = o.vim.register;
    let d = o.doc();
    let row = o.cursor_row();
    let col = o.cursor_col as int;
    let len = d[row].len() as int;
    let cnt = count_or_one(o.vim.pending.count) as nat;
    if !reg.filled {
        n == o
    } else {
        &&& pushed_undo(o, n)
        &&& n.is_dirty
        &&& modal(o, n, o.vim.mode, without_count(o).vim.pending)
        &&& if reg.linewise {
            let at = if after {
                row + 1
            } else {
                row
            };
            let d2 = d.subrange(0, at) + repeat(split_seq(reg.text@, '\n'), cnt) + d.subrange(at, d.len() as int);
            n.activated(d2, at, rest_col(d2[at], first_non_blank_spec(d2[at])))
        } else {
            let ic = if len == 0 {
                0
            } else if after {
                min_int(col + 1, len)
            } else {
                col
            };
            let text = repeat(reg.text@, cnt);
            let d2 = insert_doc(d, row, ic, text);
            let end = insert_end(row, ic, text);
            n.activated(d2, end.0, rest_col(d2[end.0], sat_sub(end.1, 1)))
        }
    }
}

/// Repeating newline-free lines keeps them newline-free.
pub proof fn lemma_nn_repeat(s: Seq<Seq<char>>, k: nat)
    requires
        no_newlines(s),
    ensures
        no_newlines(repeat(s, k)),
    decreases k,
{
    if k > 0 {
        lemma_nn_repeat(s, (k - 1) as nat);
        lemma_nn_concat(repeat(s, (k - 1) as nat), s);
    }
}

/// Repeating a non-empty list gives a non-empty list.
pub proof fn lemma_repeat_len<A>(s: Seq<A>, k: nat)
    ensures
        repeat(s, k).len() == s.len() * k,
    decreases k,
{
    if k > 0 {
        lemma_repeat_len(s, (k - 1) as nat);
        let m = (k - 1) as nat;
        assert(s.len() * k == s.len() * m + s.len()) by (nonlinear_arith)
            requires
                k == m + 1,
        ;
        assert(repeat(s, k).len() == repeat(s, m).len() + s.len());
    } else {
        assert(s.len() * k == 0) by (nonlinear_arith)
            requires
                k == 0,
        ;
    }
}

/// `s` repeated `k` times.
pub fn repeat_chars(s: &[char], k: usize) -> (r: Vec<char>)
    ensures
        r@ == repeat(s@, k as nat),
{
    let mut out: Vec<char> = Vec::new();
    let mut i: usize = 0;
    while i < k
        invariant
            i <= k,
            out@ == repeat(s@, i as nat),
        decreases k - i,
    {
        let mut piece = sub_chars(s, 0, s.len());
        assert(s@.subrange(0, s@.len() as int) =~= s@);
        out.append(&mut piece);
        i += 1;
    }
    out
}

/// The lines `parts` repeated `k` times.
pub fn repeat_lines(parts: &Vec<Vec<char>>, k: usize) -> (r: Vec<Vec<char>>)
    ensures
        vec_views(r@) == repeat(vec_views(parts@), k as nat),
{
    let mut out: Vec<Vec<char>> = Vec::new();
    let mut i: usize = 0;
    while i < k
        invariant
            i <= k,
            vec_views(out@) == repeat(vec_views(parts@), i as nat),
        decreases k - i,
    {
        let mut piece = copy_lines(parts);
        let ghost before = vec_views(out@);
        out.append(&mut piece);
        assert(vec_views(out@) =~= before + vec_views(parts@));
        i += 1;
    }
    out
}

/// A vector of copies of the char vectors `parts@[from..to]`.
fn copy_range(parts: &Vec<Vec<char>>, from: usize, to: usize) -> (r: Vec<Vec<char>>)
    requires
        from <= to <= parts@.len(),
    ensures
        vec_views(r@) == vec_views(parts@).subrange(from as int, to as int),
{
    let mut out: Vec<Vec<char>> = Vec::new();
    let mut i = from;
    while i < to
        invariant
            from <= i <= to <= parts@.len(),
            vec_views(out@) == vec_views(parts@).subrange(from as int, i as int),
        decreases to - i,
    {
        let n = parts[i].len();
        let copy = sub_chars(parts[i].as_slice(), 0, n);
        assert(parts@[i as int]@.subrange(0, n as int) =~= parts@[i as int]@);
        proof {
            crate::editor::lemma_views_push(out@, copy);
        }
        out.push(copy);
        assert(vec_views(out@) =~= vec_views(parts@).subrange(from as int, i + 1));
        i += 1;
    }
    out
}

impl Editor {
    /// `x`: delete the count (taken) of chars from under the cursor.
    pub fn vim_delete_char(&mut self)
        requires
            old(self).wf(),
        ensures
            final(self).wf(),
            delete_char_post(*old(self), *final(self)),
    {
        let (row, col) = self.doc_cursor_chars();
        let count = self.count1();
        let n = self.lines[row].len();
        if n == 0 || col >= n {
            return;
        }
        let end = if count > n - col {
            n
        } else {
            col + count
        };
        self.push_undo();
        let text = sub_chars(self.lines[row].as_slice(), col, end);
        self.set_register(text, false);
        let line2 = cut_chars(self.lines[row].as_slice(), col, end);
        let ghost d = self.doc();
        proof {
            let l = d[row as int];
            assert(!l.contains('\n'));
            lemma_sub_no_newline(l, 0, col as int);
            lemma_sub_no_newline(l, end as int, l.len() as int);
            lemma_concat_no_newline(l.subrange(0, col as int), l.subrange(end as int, l.len() as int));
        }
        let ghost l2 = line2@;
        let parts = vec![line2];
        assert(vec_views(parts@) =~= seq![l2]);
        self.replace_lines(row, row + 1, parts);
        assert(self.doc() =~= d.update(row as int, l2));
        self.is_dirty = true;
        let c = self.rest_clamp(row, col);
        self.activate_char(row, c);
    }

    /// `r{ch}`: replace the char under the cursor by `ch`.
    pub fn vim_replace_char(&mut self, ch: char)
        requires
            old(self).wf(),
        ensures
            final(self).wf(),
            replace_char_post(*old(self), ch, *final(self)),
    {
        let (row, col) = self.doc_cursor_chars();
        let n = self.lines[row].len();
        if col >= n {
            return;
        }
        let ghost d = self.doc();
        self.push_undo();
        let mut replaced = sub_chars(self.lines[row].as_slice(), 0, n);
        assert(d[row as int].subrange(0, n as int) =~= d[row as int]);
        replaced.set(col, ch);
        let parts = split_chars(replaced.as_slice(), '\n');
        proof {
            assert(vec_views(parts@) =~= split_seq(replaced@, '\n'));
            lemma_nn_split(replaced@);
            crate::text::lemma_split_nonempty(replaced@, '\n');
        }
        self.replace_lines(row, row + 1, parts);
        self.is_dirty = true;
        self.activate_char(row, col);
    }

    /// `i`/`a`/`I`/`A`: snapshot for undo and enter Insert mode at `(row, col)`.
    pub fn enter_insert_at(&mut self, row: usize, col: usize)
        requires
            old(self).wf(),
            row < old(self).doc().len(),
        ensures
            final(self).wf(),
            insert_at_post(*old(self), row as int, col as int, *final(self)),
    {
        self.push_undo();
        self.vim.pending.count = None;
        self.vim.mode = Mode::Insert;
        self.activate_char(row, col);
    }

    /// `o`/`O`: open an empty line below/above the cursor and enter Insert
    /// mode on it.
    pub fn open_line(&mut self, below: bool)
        requires
            old(self).wf(),
        ensures
            final(self).wf(),
            open_line_post(*old(self), below, *final(self)),
    {
        self.push_undo();
        self.vim.pending.count = None;
        let (row, _) = self.doc_cursor_chars();
        let at = if below {
            row + 1
        } else {
            row
        };
        let ghost d = self.doc();
        let parts: Vec<Vec<char>> = vec![Vec::new()];
        assert(vec_views(parts@) =~= seq![Seq::<char>::empty()]);
        self.replace_lines(at, at, parts);
        assert(self.doc() =~= d.insert(at as int, Seq::<char>::empty()));
        self.is_dirty = true;
        self.vim.mode = Mode::Insert;
        self.activate_char(at, 0);
    }

    /// Leave Insert mode, stepping the cursor one column left.
    pub fn leave_insert(&mut self)
        requires
            old(self).wf(),
        ensures
            final(self).wf(),
            leave_insert_post(*old(self), *final(self)),
    {
        self.vim.mode = Mode::Normal;
        let (row, col) = self.doc_cursor_chars();
        let back = if col > 0 {
            col - 1
        } else {
            0
        };
        let c = self.rest_clamp(row, back);
        self.activate_char(row, c);
    }

    /// Insert `text` (which may hold newlines) at `(row, col)`; returns the
    /// position just past it.
    pub fn insert_text_at(&mut self, row: usize, col: usize, text: &[char]) -> (r: (usize, usize))
        requires
            old(self).doc_ok(),
            row < old(self).doc().len(),
            col <= old(self).doc()[row as int].len(),
        ensures
            final(self).doc() == insert_doc(old(self).doc(), row as int, col as int, text@),
            (r.0 as int, r.1 as int) == insert_end(row as int, col as int, text@),
            final(self).doc_ok(),
            *final(self) == with_lines(*old(self), final(self).lines),
    {
        let ghost d = self.doc();
        let line = &self.lines[row];
        let ghost l = line@;
        let n = line.len();
        let ps = split_chars(text, '\n');
        let ghost pv = split_seq(text@, '\n');
        proof {
            crate::text::lemma_split_nonempty(text@, '\n');
            lemma_nn_split(text@);
            assert(vec_views(ps@) =~= pv);
            assert(!l.contains('\n'));
            lemma_sub_no_newline(l, 0, col as int);
            lemma_sub_no_newline(l, col as int, n as int);
            assert(!pv[0].contains('\n'));
            assert(!pv[pv.len() - 1].contains('\n'));
            lemma_concat_no_newline(l.subrange(0, col as int), pv[0]);
        }
        let k = ps.len();
        let before = sub_chars(line.as_slice(), 0, col);
        let tail = sub_chars(line.as_slice(), col, n);
        let head = concat_chars(before.as_slice(), ps[0].as_slice());
        let mut block: Vec<Vec<char>> = Vec::new();
        let end_col: usize;
        if k == 1 {
            let whole = concat_chars(head.as_slice(), tail.as_slice());
            proof {
                lemma_concat_no_newline(head@, tail@);
            }
            let hl = head.len();
            block.push(whole);
            assert(vec_views(block@) =~= insert_lines(l, col as int, text@));
            assert(ps@[0]@ == pv[0]);
            end_col = hl;
        } else {
            block.push(head);
            let mut mid = copy_range(&ps, 1, k - 1);
            let ghost b0 = vec_views(block@);
            block.append(&mut mid);
            let last = concat_chars(ps[k - 1].as_slice(), tail.as_slice());
            proof {
                lemma_concat_no_newline(pv[pv.len() - 1], tail@);
            }
            let ll = ps[k - 1].len();
            let ghost b1 = vec_views(block@);
            proof {
                crate::editor::lemma_views_push(block@, last);
            }
            block.push(last);
            assert(vec_views(block@) =~= insert_lines(l, col as int, text@));
            end_col = ll;
            assert(end_col == pv[pv.len() - 1].len());
        }
        assert(k == pv.len());
        proof {
            let il = insert_lines(l, col as int, text@);
            if k != 1 {
                lemma_nn_sub(pv, 1, pv.len() - 1);
            }
            assert forall|i: int| 0 <= i < il.len() implies !(#[trigger] il[i]).contains('\n') by {
                if k != 1 && 0 < i < il.len() - 1 {
                    assert(il[i] == pv.subrange(1, pv.len() - 1)[i - 1]);
                }
            }
        }
        let ghost bl = block@.len();
        assert(row < self.lines.len());
        self.replace_lines(row, row + 1, block);
        assert(row + bl <= self.lines.len());
        if k == 1 {
            (row, end_col)
        } else {
            (row + (k - 1), end_col)
        }
    }

    /// `p`/`P`: paste the register the count (taken) of times after/before
    /// the cursor.
    pub fn vim_paste(&mut self, after: bool)
        requires
            old(self).wf(),
        ensures
            final(self).wf(),
            paste_post(*old(self), after, *final(self)),
    {
        if !self.vim.register.filled {
            return;
        }
        let count = self.count1();
        self.push_undo();
        let (row, col) = self.doc_cursor_chars();
        let ghost d = self.doc();
        if self.vim.register.linewise {
            let pieces = split_chars(self.vim.register.text.as_slice(), '\n');
            let ghost pv = split_seq(self.vim.register.text@, '\n');
            let parts = repeat_lines(&pieces, count);
            proof {
                assert(vec_views(pieces@) =~= pv);
                lemma_nn_split(self.vim.register.text@);
                crate::text::lemma_split_nonempty(self.vim.register.text@, '\n');
                lemma_nn_repeat(pv, count as nat);
                lemma_repeat_len(pv, count as nat);
                assert(pv.len() * count >= 1) by (nonlinear_arith)
                    requires
                        pv.len() >= 1,
                        count >= 1,
                ;
            }
            let at = if after {
                row + 1
            } else {
                row
            };
            self.replace_lines(at, at, parts);
            self.is_dirty = true;
            let c = crate::motion::first_non_blank_chars(self.lines[at].as_slice());
            let c = self.rest_clamp(at, c);
            self.activate_char(at, c);
        } else {
            let text = repeat_chars(self.vim.register.text.as_slice(), count);
            let n = self.lines[row].len();
            let insert_col = if n == 0 {
                0
            } else if after {
                if col < n {
                    col + 1
                } else {
                    n
                }
            } else {
                col
            };
            let (er, ec) = self.insert_text_at(row, insert_col, text.as_slice());
            self.is_dirty = true;
            let back = if ec > 0 {
                ec - 1
            } else {
                0
            };
            proof {
                crate::text::lemma_split_nonempty(text@, '\n');
            }
            let c = self.rest_clamp(er, back);
            self.activate_char(er, c);
        }
    }
}

} // verus!
