//! Vim motions in document coordinates, and the ranges that an operator
//! followed by a motion acts on.

use vstd::prelude::*;
use crate::editor::{min_int, Editor};
use crate::motion::{
    first_non_blank_chars, first_non_blank_spec, word_backward_chars, word_backward_spec, word_end_chars,
    word_end_spec, word_forward_chars, word_forward_spec,
};
use crate::text::{is_whitespace, is_ws};
use crate::vim::{linewise_spec, pending_none, Mode, Move, Operator, Pending, VimState};
use crate::vim_edit::{
    charwise_post, count_or_one, keeps_io, linewise_post, pushed_undo, rest_col, sat_sub, without_count,
    without_counts,
};

verus! {

/// The larger of two integers.
pub open spec fn max_int(a: int, b: int) -> int {
    if a >= b {
        a
    } else {
        b
    }
}

/// `e` with the pending state `p`.
pub open spec fn with_pending(e: Editor, p: Pending) -> Editor {
    Editor { vim: VimState { pending: p, ..e.vim }, ..e }
}

/// Where one motion `m` goes from `(row, col)` in `d`.
pub open spec fn moved_spec(d: Seq<Seq<char>>, m: Move, row: int, col: int) -> (int, int) {
    let last = d.len() - 1;
    let line = d[row];
    let n = line.len() as int;
    match m {
        Move::Left => (row, sat_sub(col, 1)),
        Move::Right => (row, if n == 0 {
            0
        } else {
            min_int(col + 1, n - 1)
        }),
        Move::Up => (sat_sub(row, 1), col),
        Move::Down => (min_int(row + 1, last), col),
        Move::WordFwd => (row, word_forward_spec(line, col)),
        Move::WordBack => (row, word_backward_spec(line, min_int(col, n))),
        Move::WordEnd => (row, word_end_spec(line, col)),
        Move::LineStart => (row, 0),
        Move::FirstNonBlank => (row, first_non_blank_spec(line)),
        Move::LineEnd => (row, if n == 0 {
            0
        } else {
            n - 1
        }),
        Move::DocStart => (0, first_non_blank_spec(d[0])),
        Move::DocEnd => (last, first_non_blank_spec(d[last])),
    }
}

/// Where `k` repetitions of the motion `m` go from `(row, col)`.
pub open spec fn moved_n(d: Seq<Seq<char>>, m: Move, row: int, col: int, k: nat) -> (int, int)
    decreases k,
{
    if k == 0 {
        (row, col)
    } else {
        let p = moved_n(d, m, row, col, (k - 1) as nat);
        moved_spec(d, m, p.0, p.1)
    }
}

/// `k` repetitions of `w` from `col` on `line`.
pub open spec fn word_forward_n(line: Seq<char>, col: int, k: nat) -> int
    decreases k,
{
    if k == 0 {
        col
    } else {
        word_forward_spec(line, word_forward_n(line, col, (k - 1) as nat))
    }
}

/// `k` repetitions of `b` from `col` on `line`.
pub open spec fn word_backward_n(line: Seq<char>, col: int, k: nat) -> int
    decreases k,
{
    if k == 0 {
        col
    } else {
        word_backward_spec(line, word_backward_n(line, col, (k - 1) as nat))
    }
}

/// `k` repetitions of `e` from `col` on `line`.
pub open spec fn word_end_n(line: Seq<char>, col: int, k: nat) -> int
    decreases k,
{
    if k == 0 {
        col
    } else {
        word_end_spec(line, word_end_n(line, col, (k - 1) as nat))
    }
}

/// The chars `(c0, c1)` of `line` that operator `op` with the char-wise
/// motion `m` repeated `k` times acts on, from the cursor column `col`.
/// `cw` on a non-blank acts like `ce`.
pub open spec fn char_range(line: Seq<char>, op: Operator, m: Move, col: int, k: nat) -> (int, int) {
    let n = line.len() as int;
    match m {
        Move::Right => (col, min_int(col + k, n)),
        Move::Left => (sat_sub(col, k as int), col),
        Move::LineEnd => (col, n),
        Move::LineStart => (0, col),
        Move::FirstNonBlank => {
            let f = first_non_blank_spec(line);
            (min_int(f, col), max_int(f, col))
        },
        Move::WordFwd => if op == Operator::Change && col < n && !is_ws(line[col]) {
            (col, min_int(word_end_n(line, col, k) + 1, n))
        } else {
            (col, min_int(word_forward_n(line, col, k), n))
        },
        Move::WordBack => (min_int(word_backward_n(line, col, k), col), col),
        Move::WordEnd => (col, min_int(word_end_n(line, col, k) + 1, n)),
        _ => (col, col),
    }
}

/// The lines `(r0, r1)` that the line-wise motion `m` repeated `k` times
/// spans from `row` in a document of `len` lines.
pub open spec fn line_range(m: Move, row: int, k: int, len: int) -> (int, int) {
    let last = len - 1;
    match m {
        Move::Down => (row, min_int(row + k, last)),
        Move::Up => (sat_sub(row, k), row),
        Move::DocEnd => (row, last),
        _ => (0, row),
    }
}

/// `n` is `o` after moving the cursor by `k` repetitions of `m`, resting on
/// a real char.
pub open spec fn move_post(o: Editor, m: Move, k: nat, n: Editor) -> bool {
    let d = o.doc();
    let p = moved_n(d, m, o.cursor_row(), o.cursor_col as int, k);
    &&& n.activated(d, p.0, rest_col(d[p.0], p.1))
    &&& n.same_state(&o)
}

/// `n` (pending state aside) is `o` after operator `op` over the motion `m`
/// repeated `k` times: line-wise motions act on whole lines, the others on
/// a char range of the cursor line; an empty range changes nothing, except
/// that a change still enters Insert mode.
pub open spec fn operator_motion_post(o: Editor, op: Operator, m: Move, k: nat, n: Editor) -> bool {
    let d = o.doc();
    let row = o.cursor_row();
    let col = o.cursor_col as int;
    if linewise_spec(m) {
        let r = line_range(m, row, k as int, d.len() as int);
        linewise_post(o, op, r.0, r.1, n)
    } else {
        let c = char_range(d[row], op, m, col, k);
        if c.1 > c.0 {
            charwise_post(o, op, row, c.0, c.1, n)
        } else if op == Operator::Change {
            &&& n.activated(d, row, col)
            &&& pushed_undo(o, n)
            &&& n.is_dirty == o.is_dirty
            &&& n.vim.mode == Mode::Insert
            &&& n.vim.register == o.vim.register
            &&& n.vim.visual == o.vim.visual
            &&& n.vim.pending == o.vim.pending
            &&& keeps_io(o, n)
        } else {
            n == o
        }
    }
}

/// `n` is `o` after a motion key `m`: with an operator pending, the
/// operator over the motion (counts multiplied) and nothing pending after;
/// `{count}G`/`{count}gg`, a jump to that line; else the cursor moves by
/// the count.
pub open spec fn apply_move_post(o: Editor, m: Move, n: Editor) -> bool {
    let d = o.doc();
    match o.vim.pending.operator {
        Some(op) => {
            let o2 = without_counts(o);
            let k = min_int(
                count_or_one(o.vim.pending.op_count) * count_or_one(o.vim.pending.count),
                usize::MAX as int,
            );
            &&& operator_motion_post(o2, op, m, k as nat, with_pending(n, o2.vim.pending))
            &&& n.vim.pending == pending_none()
        },
        None => if (m is DocStart || m is DocEnd) && o.vim.pending.count is Some {
            let row = min_int(sat_sub(o.vim.pending.count->0 as int, 1), d.len() - 1);
            &&& n.activated(d, row, rest_col(d[row], first_non_blank_spec(d[row])))
            &&& n.same_state(&without_count(o))
        } else {
            move_post(without_count(o), m, count_or_one(o.vim.pending.count) as nat, n)
        },
    }
}

/// `n` is `o` after the operator key `op`: the doubled operator (`dd`, `cc`,
/// `yy`) acts on count lines from the cursor and clears what is pending;
/// otherwise `op` waits for a motion, keeping the count typed so far as the
/// operator's count.
pub open spec fn operator_post(o: Editor, op: Operator, n: Editor) -> bool {
    let p = o.vim.pending;
    if p.operator == Some(op) {
        let o2 = without_count(o);
        let row = o.cursor_row();
        let r1 = min_int(row + count_or_one(p.count) - 1, o.doc().len() - 1);
        &&& linewise_post(o2, op, row, r1, with_pending(n, o2.vim.pending))
        &&& n.vim.pending == pending_none()
    } else {
        n == with_pending(o, Pending { operator: Some(op), op_count: p.count, count: None, ..p })
    }
}

/// A motion stays inside a non-empty document.
pub proof fn lemma_moved_row(d: Seq<Seq<char>>, m: Move, row: int, col: int)
    requires
        d.len() >= 1,
        0 <= row < d.len(),
        col >= 0,
    ensures
        0 <= moved_spec(d, m, row, col).0 < d.len(),
        moved_spec(d, m, row, col).1 >= 0,
{
    let line = d[row];
    crate::motion::lemma_first_non_blank_bounds(line);
    crate::motion::lemma_first_non_blank_bounds(d[0]);
    crate::motion::lemma_first_non_blank_bounds(d[d.len() - 1]);
    if m is WordFwd {
        crate::motion::lemma_word_forward_bounds(line, col);
    }
    if m is WordBack {
        crate::motion::lemma_word_backward_bounds(line, min_int(col, line.len() as int));
    }
    if m is WordEnd {
        crate::motion::lemma_word_end_bounds(line, col);
    }
}

impl Editor {
    /// The target of one motion `m` from `(row, col)`.
    pub fn moved(&self, m: Move, row: usize, col: usize) -> (r: (usize, usize))
        requires
            self.doc().len() >= 1,
            row < self.doc().len(),
        ensures
            (r.0 as int, r.1 as int) == moved_spec(self.doc(), m, row as int, col as int),
    {
        let last = self.lines.len() - 1;
        let line = self.lines[row].as_slice();
        let n = line.len();
        match m {
            Move::Left => (row, if col > 0 {
                col - 1
            } else {
                0
            }),
            Move::Right => (row, if n == 0 {
                0
            } else if col >= n - 1 {
                n - 1
            } else {
                col + 1
            }),
            Move::Up => (if row > 0 {
                row - 1
            } else {
                0
            }, col),
            Move::Down => (if row < last {
                row + 1
            } else {
                last
            }, col),
            Move::WordFwd => (row, word_forward_chars(line, col)),
            Move::WordBack => (row, word_backward_chars(line, if col < n {
                col
            } else {
                n
            })),
            Move::WordEnd => (row, word_end_chars(line, col)),
            Move::LineStart => (row, 0),
            Move::FirstNonBlank => (row, first_non_blank_chars(line)),
            Move::LineEnd => (row, if n == 0 {
                0
            } else {
                n - 1
            }),
            Move::DocStart => (0, first_non_blank_chars(self.lines[0].as_slice())),
            Move::DocEnd => (last, first_non_blank_chars(self.lines[last].as_slice())),
        }
    }

    /// The target of `count` repetitions of the motion `m` from `(row, col)`.
    pub fn moved_times(&self, m: Move, row: usize, col: usize, count: usize) -> (r: (usize, usize))
        requires
            self.doc().len() >= 1,
            row < self.doc().len(),
        ensures
            (r.0 as int, r.1 as int) == moved_n(self.doc(), m, row as int, col as int, count as nat),
            r.0 < self.doc().len(),
    {
        let mut r = row;
        let mut c = col;
        let mut i: usize = 0;
        while i < count
            invariant
                self.doc().len() >= 1,
                i <= count,
                r < self.doc().len(),
                (r as int, c as int) == moved_n(self.doc(), m, row as int, col as int, i as nat),
            decreases count - i,
        {
            proof {
                lemma_moved_row(self.doc(), m, r as int, c as int);
            }
            let (nr, nc) = self.moved(m, r, c);
            r = nr;
            c = nc;
            i += 1;
        }
        (r, c)
    }

    /// Move the cursor by `count` repetitions of `m`, resting on a real char.
    pub fn move_cursor(&mut self, m: Move, count: usize)
        requires
            old(self).wf(),
        ensures
            final(self).wf(),
            move_post(*old(self), m, count as nat, *final(self)),
    {
        let (row, col) = self.doc_cursor_chars();
        let (r, c) = self.moved_times(m, row, col, count);
        let c = self.rest_clamp(r, c);
        self.activate_char(r, c);
    }
}


/// `k` repetitions of `w` on `line` from `col`.
fn word_forward_times(line: &[char], col: usize, k: usize) -> (r: usize)
    ensures
        r == word_forward_n(line@, col as int, k as nat),
{
    let mut t = col;
    let mut i: usize = 0;
    while i < k
        invariant
            i <= k,
            t == word_forward_n(line@, col as int, i as nat),
        decreases k - i,
    {
        t = word_forward_chars(line, t);
        i += 1;
    }
    t
}

/// `k` repetitions of `b` on `line` from `col`.
fn word_backward_times(line: &[char], col: usize, k: usize) -> (r: usize)
    requires
        col <= line@.len(),
    ensures
        r == word_backward_n(line@, col as int, k as nat),
{
    let mut t = col;
    let mut i: usize = 0;
    while i < k
        invariant
            i <= k,
            t <= line@.len(),
            t == word_backward_n(line@, col as int, i as nat),
        decreases k - i,
    {
        t = word_backward_chars(line, t);
        i += 1;
    }
    t
}

/// `k` repetitions of `e` on `line` from `col`.
fn word_end_times(line: &[char], col: usize, k: usize) -> (r: usize)
    ensures
        r == word_end_n(line@, col as int, k as nat),
        r == col || r == 0 || r < line@.len(),
{
    let mut t = col;
    let mut i: usize = 0;
    while i < k
        invariant
            i <= k,
            t == word_end_n(line@, col as int, i as nat),
            t == col || t == 0 || t < line@.len(),
        decreases k - i,
    {
        t = word_end_chars(line, t);
        i += 1;
    }
    t
}

/// [`char_range`] on `line`, for a cursor column within the line.
fn char_range_exec(line: &[char], op: Operator, m: Move, col: usize, k: usize) -> (r: (usize, usize))
    requires
        col <= line@.len(),
    ensures
        (r.0 as int, r.1 as int) == char_range(line@, op, m, col as int, k as nat),
        r.1 <= line@.len(),
{
    let n = line.len();
    proof {
        crate::motion::lemma_first_non_blank_bounds(line@);
    }
    match m {
        Move::Right => (col, if k > n - col {
            n
        } else {
            col + k
        }),
        Move::Left => (if col > k {
            col - k
        } else {
            0
        }, col),
        Move::LineEnd => (col, n),
        Move::LineStart => (0, col),
        Move::FirstNonBlank => {
            let f = first_non_blank_chars(line);
            if f < col {
                (f, col)
            } else {
                (col, f)
            }
        },
        Move::WordFwd => {
            if op == Operator::Change && col < n && !is_whitespace(line[col]) {
                let t = word_end_times(line, col, k);
                (col, if t < n {
                    t + 1
                } else {
                    n
                })
            } else {
                let t = word_forward_times(line, col, k);
                (col, if t < n {
                    t
                } else {
                    n
                })
            }
        },
        Move::WordBack => {
            let t = word_backward_times(line, col, k);
            (if t < col {
                t
            } else {
                col
            }, col)
        },
        Move::WordEnd => {
            let t = word_end_times(line, col, k);
            (col, if t < n {
                t + 1
            } else {
                n
            })
        },
        _ => (col, col),
    }
}

impl Editor {
    /// Apply operator `op` over `count` repetitions of the motion `m`.
    pub fn apply_operator_motion(&mut self, op: Operator, m: Move, count: usize)
        requires
            old(self).wf(),
        ensures
            final(self).wf(),
            operator_motion_post(*old(self), op, m, count as nat, *final(self)),
    {
        let (row, col) = self.doc_cursor_chars();
        if m.linewise() {
            let last = self.lines.len() - 1;
            let (r0, r1) = match m {
                Move::Down => (row, if count > last - row {
                    last
                } else {
                    row + count
                }),
                Move::Up => (if row > count {
                    row - count
                } else {
                    0
                }, row),
                Move::DocEnd => (row, last),
                _ => (0, row),
            };
            self.apply_linewise(op, r0, r1);
            return;
        }
        let (c0, c1) = char_range_exec(self.lines[row].as_slice(), op, m, col, count);
        if c1 > c0 {
            self.apply_charwise(op, row, c0, c1);
        } else if op == Operator::Change {
            self.push_undo();
            self.vim.mode = Mode::Insert;
            self.activate_char(row, col);
        }
    }

    /// A motion key: operate over it when an operator is pending, jump to a
    /// counted line for `G`/`gg`, else move the cursor.
    pub fn apply_move(&mut self, m: Move)
        requires
            old(self).wf(),
        ensures
            final(self).wf(),
            apply_move_post(*old(self), m, *final(self)),
    {
        if let Some(op) = self.vim.pending.operator {
            let count = self.combined_op_count();
            let ghost o2 = *self;
            self.apply_operator_motion(op, m, count);
            let ghost mid = *self;
            self.clear_pending();
            assert(with_pending(*self, o2.vim.pending) == mid);
            return;
        }
        if (m == Move::DocStart || m == Move::DocEnd) && self.vim.pending.count.is_some() {
            let n = self.vim.pending.count.take().unwrap();
            let last = self.lines.len() - 1;
            let row = if n == 0 {
                0
            } else if n - 1 < last {
                n - 1
            } else {
                last
            };
            let col = first_non_blank_chars(self.lines[row].as_slice());
            let col = self.rest_clamp(row, col);
            self.activate_char(row, col);
            return;
        }
        let count = self.count1();
        self.move_cursor(m, count);
    }

    /// An operator key: a doubled operator acts on whole lines at once;
    /// otherwise it waits for a motion.
    #[verifier::spinoff_prover]
    #[verifier::rlimit(40)]
    pub fn operator(&mut self, op: Operator)
        requires
            old(self).wf(),
        ensures
            final(self).wf(),
            operator_post(*old(self), op, *final(self)),
    {
        if self.vim.pending.operator == Some(op) {
            let count = self.count1();
            let ghost o2 = *self;
            let (row, _) = self.doc_cursor_chars();
            let last = self.lines.len() - 1;
            let r1 = if count - 1 > last - row {
                last
            } else {
                row + (count - 1)
            };
            self.apply_linewise(op, row, r1);
            let ghost mid = *self;
            self.clear_pending();
            assert(with_pending(*self, o2.vim.pending) == mid);
            return;
        }
        let c = self.vim.pending.count.take();
        self.vim.pending.operator = Some(op);
        self.vim.pending.op_count = c;
    }
}

} // verus!
