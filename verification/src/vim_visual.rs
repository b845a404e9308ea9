//! Visual mode: the selection between an anchor and a head, how it is shown
//! as the raw region, and the operators applied to it.

use vstd::prelude::*;
use crate::editor::{min_int, Editor};
use crate::motion::{order_pos, pos_le};
use crate::text::{join_range, join_spec, no_newlines, sub_chars, vec_views};
use crate::vim::{Mode, Move, Operator, Visual, VimState};
use crate::vim_edit::{
    concat_chars, count_or_one, cut, keeps_io, lemma_nn_concat, lemma_nn_sub, linewise_post, pushed_undo,
    reg_is, rest_col, same_history, without_count,
};
use crate::vim_move::moved_n;

verus! {

/// The selection `v`: its start and end, in document order.
pub open spec fn ordered(v: Visual) -> ((usize, usize), (usize, usize)) {
    let a = v.anchor;
    let h = v.head;
    if pos_le(a, h) {
        (a, h)
    } else {
        (h, a)
    }
}

/// `e` with the Visual selection `v` and the mode `mode`.
pub open spec fn with_visual(e: Editor, v: Option<Visual>, mode: Mode) -> Editor {
    Editor { vim: VimState { visual: v, mode, ..e.vim }, ..e }
}

/// `n` is `o` with its raw region showing `o`'s Visual selection: the
/// region spans the selected lines, the cursor sits just past the head
/// (at the end of the last line when line-wise) and the selection's other
/// end at the anchor (the start of the first line when line-wise).
pub open spec fn sync_post(o: Editor, n: Editor) -> bool {
    match o.vim.visual {
        None => n == o,
        Some(v) => {
            let d = o.doc();
            let (a, b) = ordered(v);
            &&& n.lines == o.lines
            &&& n.same_state(&o)
            &&& n.active_start == a.0
            &&& n.active_end == b.0 + 1
            &&& n.cursor_line == b.0 - a.0
            &&& if v.linewise {
                &&& n.cursor_col == d[b.0 as int].len()
                &&& n.selection == Some((0usize, 0usize))
            } else {
                &&& n.cursor_col == min_int(b.1 + 1, d[b.0 as int].len() as int)
                &&& n.selection == Some((0usize, min_int(a.1 as int, d[a.0 as int].len() as int) as usize))
            }
        },
    }
}

/// The pieces of the char-wise span `(r0, c0)..(r1, c1)` of `d`, one per
/// line.
pub open spec fn span_lines(d: Seq<Seq<char>>, r0: int, c0: int, r1: int, c1: int) -> Seq<Seq<char>> {
    if r0 == r1 {
        seq![d[r0].subrange(c0, c1)]
    } else {
        seq![d[r0].subrange(c0, d[r0].len() as int)] + d.subrange(r0 + 1, r1) + seq![d[r1].subrange(0, c1)]
    }
}

/// `d` without the char-wise span `(r0, c0)..(r1, c1)`: what precedes it on
/// its first line joins what follows it on its last.
pub open spec fn drop_span(d: Seq<Seq<char>>, r0: int, c0: int, r1: int, c1: int) -> Seq<Seq<char>> {
    d.subrange(0, r0) + seq![d[r0].subrange(0, c0) + d[r1].subrange(c1, d[r1].len() as int)] + d.subrange(
        r1 + 1,
        d.len() as int,
    )
}

/// `n` is `o` after `v`/`V`: Visual mode, anchored and headed at the
/// cursor, shown as the raw region.
pub open spec fn enter_visual_post(o: Editor, linewise: bool, n: Editor) -> bool {
    let p = (o.cursor_row() as usize, o.cursor_col);
    let v = Visual { anchor: p, head: p, linewise };
    sync_post(with_visual(without_count(o), Some(v), Mode::Visual), n)
}

/// `n` is `o` after a Visual motion: the head moves by the count (taken)
/// of `m`.
pub open spec fn visual_move_post(o: Editor, m: Move, n: Editor) -> bool {
    let o2 = without_count(o);
    let k = count_or_one(o.vim.pending.count) as nat;
    match o.vim.visual {
        None => n == o2,
        Some(v) => {
            let h = v.head;
            let p = moved_n(o.doc(), m, h.0 as int, h.1 as int, k);
            let v2 = Visual { head: (p.0 as usize, p.1 as usize), ..v };
            sync_post(with_visual(o2, Some(v2), o.vim.mode), n)
        },
    }
}

/// `n` is `o` after leaving Visual mode: Normal mode, the cursor on the
/// head.
pub open spec fn exit_visual_post(o: Editor, n: Editor) -> bool {
    let o2 = with_visual(o, None, Mode::Normal);
    match o.vim.visual {
        None => n == o2,
        Some(v) => {
            let d = o.doc();
            let h = v.head;
            &&& n.activated(d, h.0 as int, rest_col(d[h.0 as int], h.1 as int))
            &&& n.same_state(&o2)
        },
    }
}

/// `n` is `o` after operator `op` on the Visual selection: back in Normal
/// mode (Insert for a change), the selected lines (line-wise) or chars from
/// the start through the head (char-wise) yanked, deleted or changed.
pub open spec fn visual_apply_post(o: Editor, op: Operator, n: Editor) -> bool {
    match o.vim.visual {
        None => n == o,
        Some(v) => {
            let o2 = with_visual(o, None, Mode::Normal);
            let d = o.doc();
            let (a, b) = ordered(v);
            let (r0, r1) = (a.0 as int, b.0 as int);
            if v.linewise {
                linewise_post(o2, op, r0, r1, n)
            } else {
                visual_chars_post(o2, op, a, b, n)
            }
        },
    }
}

/// `n` is `o` after operator `op` on the chars from `a` through `b` (the
/// head char included, columns clamped to their lines).
pub open spec fn visual_chars_post(o: Editor, op: Operator, a: (usize, usize), b: (usize, usize), n: Editor) -> bool {
    let d = o.doc();
    let (r0, r1) = (a.0 as int, b.0 as int);
    let c0 = min_int(a.1 as int, d[r0].len() as int);
    let c1 = min_int(b.1 + 1, d[r1].len() as int);
    let d2 = drop_span(d, r0, c0, r1, c1);
    &&& reg_is(n, join_spec(span_lines(d, r0, c0, r1, c1)), false)
    &&& keeps_io(o, n)
    &&& n.vim.visual == crate::editor::fit_vim(o.vim, n.doc().len() as int).visual
    &&& n.vim.pending == o.vim.pending
    &&& match op {
        Operator::Yank => {
            &&& n.activated(d, r0, rest_col(d[r0], a.1 as int))
            &&& n.vim.mode == o.vim.mode
            &&& same_history(o, n)
            &&& n.is_dirty == o.is_dirty
        },
        Operator::Delete => {
            &&& n.activated(d2, r0, rest_col(d2[r0], a.1 as int))
            &&& n.vim.mode == o.vim.mode
            &&& pushed_undo(o, n)
            &&& n.is_dirty
        },
        Operator::Change => {
            &&& n.activated(d2, r0, a.1 as int)
            &&& n.vim.mode == Mode::Insert
            &&& pushed_undo(o, n)
            &&& n.is_dirty
        },
    }
}

impl Editor {
    /// Show the Visual selection as the raw region: the region spans the
    /// selected lines, with the editor's selection over the selected text.
    pub fn sync_visual(&mut self)
        requires
            old(self).wf(),
        ensures
            final(self).wf(),
            sync_post(*old(self), *final(self)),
    {
        let v = match self.vim.visual {
            Some(v) => v,
            None => {
                return;
            },
        };
        let a0 = v.anchor;
        let h0 = v.head;
        let (a, b) = order_pos(a0, h0);
        assert(b.0 < self.lines.len());
        self.active_start = a.0;
        self.active_end = b.0 + 1;
        self.cursor_line = b.0 - a.0;
        if v.linewise {
            self.cursor_col = self.lines[b.0].len();
            self.selection = Some((0, 0));
        } else {
            let n = self.lines[b.0].len();
            self.cursor_col = if b.1 < n {
                b.1 + 1
            } else {
                n
            };
            let an = self.lines[a.0].len();
            self.selection = Some((0, if a.1 < an {
                a.1
            } else {
                an
            }));
        }
    }

    /// `v`/`V`: enter Visual (char-wise or line-wise) mode at the cursor.
    pub fn enter_visual(&mut self, linewise: bool)
        requires
            old(self).wf(),
        ensures
            final(self).wf(),
            enter_visual_post(*old(self), linewise, *final(self)),
    {
        self.vim.pending.count = None;
        let (row, col) = self.doc_cursor_chars();
        self.vim.visual = Some(Visual { anchor: (row, col), head: (row, col), linewise });
        self.vim.mode = Mode::Visual;
        self.sync_visual();
    }

    /// Move the Visual head by the count (taken) of `m`.
    pub fn visual_move(&mut self, m: Move)
        requires
            old(self).wf(),
        ensures
            final(self).wf(),
            visual_move_post(*old(self), m, *final(self)),
    {
        let count = self.count1();
        let mut v = match self.vim.visual {
            Some(v) => v,
            None => {
                return;
            },
        };
        let h = v.head;
        let (r, c) = self.moved_times(m, h.0, h.1, count);
        v.head = (r, c);
        self.vim.visual = Some(v);
        self.sync_visual();
    }

    /// Leave Visual mode, placing the cursor on the head.
    pub fn exit_visual(&mut self)
        requires
            old(self).wf(),
        ensures
            final(self).wf(),
            exit_visual_post(*old(self), *final(self)),
    {
        let taken = self.vim.visual.take();
        self.vim.mode = Mode::Normal;
        if let Some(v) = taken {
            let (r, c) = v.head;
            let c = self.rest_clamp(r, c);
            self.activate_char(r, c);
        }
    }

    /// The text of the span `(r0, c0)..(r1, c1)`, lines joined by `\n`.
    pub fn span_text(&self, r0: usize, c0: usize, r1: usize, c1: usize) -> (r: Vec<char>)
        requires
            r0 <= r1 < self.doc().len(),
            c0 <= self.doc()[r0 as int].len(),
            c1 <= self.doc()[r1 as int].len(),
            r0 == r1 ==> c0 <= c1,
        ensures
            r@ == join_spec(span_lines(self.doc(), r0 as int, c0 as int, r1 as int, c1 as int)),
    {
        let ghost d = self.doc();
        let mut pieces: Vec<Vec<char>> = Vec::new();
        if r0 == r1 {
            pieces.push(sub_chars(self.lines[r0].as_slice(), c0, c1));
        } else {
            let n0 = self.lines[r0].len();
            pieces.push(sub_chars(self.lines[r0].as_slice(), c0, n0));
            let mut i = r0 + 1;
            while i < r1
                invariant
                    d == self.doc(),
                    r0 < i <= r1 < d.len(),
                    c0 <= d[r0 as int].len(),
                    vec_views(pieces@) == seq![d[r0 as int].subrange(c0 as int, d[r0 as int].len() as int)]
                        + d.subrange(r0 + 1, i as int),
                decreases r1 - i,
            {
                let n = self.lines[i].len();
                let copy = sub_chars(self.lines[i].as_slice(), 0, n);
                assert(d[i as int].subrange(0, n as int) =~= d[i as int]);
                let ghost before = vec_views(pieces@);
                pieces.push(copy);
                assert(vec_views(pieces@) =~= before.push(d[i as int]));
                assert(d.subrange(r0 + 1, i + 1) =~= d.subrange(r0 + 1, i as int).push(d[i as int]));
                i += 1;
            }
            pieces.push(sub_chars(self.lines[r1].as_slice(), 0, c1));
        }
        assert(vec_views(pieces@) =~= span_lines(d, r0 as int, c0 as int, r1 as int, c1 as int));
        assert(vec_views(pieces@).subrange(0, pieces@.len() as int) =~= vec_views(pieces@));
        join_range(&pieces, 0, pieces.len())
    }

    /// Remove the span `(r0, c0)..(r1, c1)`.
    pub fn delete_span(&mut self, r0: usize, c0: usize, r1: usize, c1: usize)
        requires
            old(self).doc_ok(),
            r0 <= r1 < old(self).doc().len(),
            c0 <= old(self).doc()[r0 as int].len(),
            c1 <= old(self).doc()[r1 as int].len(),
        ensures
            final(self).doc() == drop_span(old(self).doc(), r0 as int, c0 as int, r1 as int, c1 as int),
            final(self).doc_ok(),
            *final(self) == crate::vim_edit::with_lines(*old(self), final(self).lines),
    {
        let ghost d = self.doc();
        let head = sub_chars(self.lines[r0].as_slice(), 0, c0);
        let n1 = self.lines[r1].len();
        let tail = sub_chars(self.lines[r1].as_slice(), c1, n1);
        let joined = concat_chars(head.as_slice(), tail.as_slice());
        proof {
            assert(!d[r0 as int].contains('\n'));
            assert(!d[r1 as int].contains('\n'));
            crate::editor::lemma_sub_no_newline(d[r0 as int], 0, c0 as int);
            crate::editor::lemma_sub_no_newline(d[r1 as int], c1 as int, n1 as int);
            crate::editor::lemma_concat_no_newline(head@, tail@);
        }
        let ghost j = joined@;
        let parts = vec![joined];
        assert(vec_views(parts@) =~= seq![j]);
        assert(r1 < self.lines.len());
        self.replace_lines(r0, r1 + 1, parts);
    }

    /// Apply operator `op` to the Visual selection and leave Visual mode
    /// (for Insert mode, on a change).
    pub fn visual_apply(&mut self, op: Operator)
        requires
            old(self).wf(),
        ensures
            final(self).wf(),
            visual_apply_post(*old(self), op, *final(self)),
    {
        let v = match self.vim.visual.take() {
            Some(v) => v,
            None => {
                return;
            },
        };
        self.vim.mode = Mode::Normal;
        let a0 = v.anchor;
        let h0 = v.head;
        let (a, b) = order_pos(a0, h0);
        if v.linewise {
            self.apply_linewise(op, a.0, b.0);
            return;
        }
        self.visual_chars(op, a, b);
    }

    /// Apply operator `op` to the chars from `a` through `b`.
    pub fn visual_chars(&mut self, op: Operator, a: (usize, usize), b: (usize, usize))
        requires
            old(self).wf(),
            a.0 <= b.0 < old(self).doc().len(),
            pos_le(a, b),
        ensures
            final(self).wf(),
            visual_chars_post(*old(self), op, a, b, *final(self)),
    {
        let n0 = self.lines[a.0].len();
        let n1 = self.lines[b.0].len();
        let c0 = if a.1 < n0 {
            a.1
        } else {
            n0
        };
        let c1 = if b.1 < n1 {
            b.1 + 1
        } else {
            n1
        };
        let text = self.span_text(a.0, c0, b.0, c1);
        match op {
            Operator::Yank => {
                self.set_register(text, false);
                let col = self.rest_clamp(a.0, a.1);
                self.activate_char(a.0, col);
            },
            Operator::Delete => {
                self.push_undo();
                self.set_register(text, false);
                self.delete_span(a.0, c0, b.0, c1);
                self.fit_visual();
                self.is_dirty = true;
                let col = self.rest_clamp(a.0, a.1);
                self.activate_char(a.0, col);
            },
            Operator::Change => {
                self.push_undo();
                self.set_register(text, false);
                self.delete_span(a.0, c0, b.0, c1);
                self.fit_visual();
                self.is_dirty = true;
                self.vim.mode = Mode::Insert;
                self.activate_char(a.0, a.1);
            },
        }
    }
}

} // verus!
