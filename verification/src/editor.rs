//! The document model of the inline editor: the document's lines, the raw
//! (active) region around the cursor, the cursor, and the state transitions
//! of editing, navigation and file handling.
//!
//! The document is rendered as Markdown in place, except the *active region*
//! `active_start..active_end`: normally the cursor's line, or a whole GFM
//! table when the cursor is inside one, since a table only renders while its
//! header, delimiter and body rows stay together.

use vstd::prelude::*;
use crate::table::{
    active_bounds_chars, active_bounds_spec, block_source_eq_chars, lemma_active_bounds,
    segments_chars, segments_from, source_matches, Segment,
};
use crate::text::{
    byte_offset, from_chars, is_snap, join_range, join_spec, no_newlines, offset_of,
    snap_to_char, split_chars, split_seq, sub_chars, to_chars, vec_views,
};
use crate::motion::string_views;
use crate::vim::{Mode, Snapshot, Visual, VimState};

verus! {

/// Number of lines moved by a page (`PgUp`/`PgDown`).
pub const PAGE_LINES: usize = 15;

/// The editor's document and editing state.
pub struct Editor {
    /// The document, split into logical lines (no newline characters).
    pub lines: Vec<Vec<char>>,
    /// First line (inclusive) of the contiguous range edited as raw source.
    pub active_start: usize,
    /// One past the last line of the raw range (exclusive).
    pub active_end: usize,
    /// Line of the cursor, relative to `active_start`.
    pub cursor_line: usize,
    /// Char column of the cursor on its line.
    pub cursor_col: usize,
    /// Other end of the selection (region line, char column), if any.
    pub selection: Option<(usize, usize)>,
    /// Whether the document has unsaved changes.
    pub is_dirty: bool,
    /// Whether a file operation is in progress.
    pub is_loading: bool,
    /// Set by `:wq`/`:x` so the editor quits once the save succeeds.
    pub pending_quit: bool,
    /// Vim modal-editing state.
    pub vim: VimState,
    /// Document snapshots for `u` (undo).
    pub undo_stack: Vec<Snapshot>,
    /// Document snapshots for `Ctrl-r` (redo).
    pub redo_stack: Vec<Snapshot>,
}

/// Every block segment from line `i` on lies within the document.
pub proof fn lemma_segments_bounds(d: Seq<Seq<char>>, a: int, b: int, i: int)
    requires
        0 <= i,
        d.len() <= usize::MAX,
    ensures
        forall|k: int| 0 <= k < segments_from(d, a, b, i).len() ==> (#[trigger] segments_from(d, a, b, i)[k] matches Segment::Block { start, end }
            ==> i <= start < end <= d.len()),
    decreases d.len() - i,
{
    if i < d.len() {
        let segs = segments_from(d, a, b, i);
        if i == a {
            let next = if b > d.len() {
                d.len() as int
            } else if b > i + 1 {
                b
            } else {
                i + 1
            };
            lemma_segments_bounds(d, a, b, next);
            let rest = segments_from(d, a, b, next);
            assert(segs == seq![Segment::Active] + rest);
            assert(segs[0] == Segment::Active);
            assert(i <= next);
            assert forall|k: int| 0 <= k < segs.len() implies (#[trigger] segs[k] matches Segment::Block { start, end }
                ==> i <= start < end <= d.len()) by {
                if k > 0 {
                    assert(segs[k] == rest[k - 1]);
                    if let Segment::Block { start, end } = rest[k - 1] {
                        assert(next <= start && start < end && end <= d.len());
                    }
                }
            }
        } else if crate::text::is_blank(d[i]) {
            lemma_segments_bounds(d, a, b, i + 1);
            let rest = segments_from(d, a, b, i + 1);
            assert forall|k: int| 0 <= k < segs.len() implies (#[trigger] segs[k] matches Segment::Block { start, end }
                ==> i <= start < end <= d.len()) by {
                if k > 0 {
                    assert(segs[k] == rest[k - 1]);
                }
            }
        } else {
            let e = crate::table::block_end(d, i + 1, a);
            crate::table::lemma_block_end_bounds(d, i + 1, a);
            lemma_segments_bounds(d, a, b, e);
            let rest = segments_from(d, a, b, e);
            assert(segs[0] == Segment::Block { start: i as usize, end: e as usize });
            assert forall|k: int| 0 <= k < segs.len() implies (#[trigger] segs[k] matches Segment::Block { start, end }
                ==> i <= start < end <= d.len()) by {
                if k > 0 {
                    assert(segs[k] == rest[k - 1]);
                }
            }
        }
    }
}

/// The block ranges of `segs` are ranges of its block segments.
pub proof fn lemma_block_ranges_from(segs: Seq<Segment>, n: int)
    requires
        forall|k: int| 0 <= k < segs.len() ==> (#[trigger] segs[k] matches Segment::Block { start, end }
            ==> 0 <= start < end <= n),
    ensures
        forall|j: int| 0 <= j < block_ranges_of(segs).len() ==> 0 <= (#[trigger] block_ranges_of(segs)[j]).0
            <= block_ranges_of(segs)[j].1 <= n,
    decreases segs.len(),
{
    if segs.len() > 0 {
        let tail = segs.drop_first();
        assert forall|k: int| 0 <= k < tail.len() implies (#[trigger] tail[k] matches Segment::Block { start, end }
            ==> 0 <= start < end <= n) by {
            assert(tail[k] == segs[k + 1]);
        }
        lemma_block_ranges_from(tail, n);
        let rest = block_ranges_of(tail);
        let all = block_ranges_of(segs);
        assert forall|j: int| 0 <= j < all.len() implies 0 <= (#[trigger] all[j]).0 <= all[j].1 <= n by {
            if segs[0] is Block {
                if j > 0 {
                    assert(all[j] == rest[j - 1]);
                }
            } else {
                assert(all[j] == rest[j]);
            }
        }
    }
}

/// Every rendered block range lies within the document.
pub proof fn lemma_block_ranges_bounds(d: Seq<Seq<char>>, a: int, b: int)
    requires
        d.len() <= usize::MAX,
    ensures
        forall|j: int| 0 <= j < block_ranges_of(segments_from(d, a, b, 0)).len() ==> 0 <= (#[trigger] block_ranges_of(
            segments_from(d, a, b, 0),
        )[j]).0 <= block_ranges_of(segments_from(d, a, b, 0))[j].1 <= d.len(),
{
    lemma_segments_bounds(d, a, b, 0);
    lemma_block_ranges_from(segments_from(d, a, b, 0), d.len() as int);
}

/// What to do for one block when the rendered blocks are rebuilt.
#[derive(Debug, Clone)]
pub enum BlockPlan {
    /// Keep the previously parsed block at this index (its text is unchanged).
    Reuse(usize),
    /// Parse this source text.
    Parse(String),
}

/// The line ranges of the block segments of `segs`, in order.
pub open spec fn block_ranges_of(segs: Seq<Segment>) -> Seq<(int, int)>
    decreases segs.len(),
{
    if segs.len() == 0 {
        Seq::empty()
    } else {
        let rest = block_ranges_of(segs.drop_first());
        match segs[0] {
            Segment::Block { start, end } => seq![(start as int, end as int)] + rest,
            _ => rest,
        }
    }
}

/// Number of leading blocks whose previous source is unchanged (the previous
/// and new lists compared position by position from the front).
pub open spec fn prefix_len(d: Seq<Seq<char>>, rs: Seq<(int, int)>, old: Seq<Seq<char>>, k: int) -> int
    decreases rs.len() - k,
{
    if k < 0 || k >= rs.len() || k >= old.len() || !source_matches(d, rs[k], old[k]) {
        k
    } else {
        prefix_len(d, rs, old, k + 1)
    }
}

/// Number of trailing blocks (before the first `p`) whose previous source is
/// unchanged (compared position by position from the back).
pub open spec fn suffix_len(d: Seq<Seq<char>>, rs: Seq<(int, int)>, old: Seq<Seq<char>>, p: int, k: int) -> int
    decreases rs.len() - k,
{
    if k < 0 || p < 0 || k >= rs.len() - p || k >= old.len() - p || !source_matches(
        d,
        rs[rs.len() - 1 - k],
        old[old.len() - 1 - k],
    ) {
        k
    } else {
        suffix_len(d, rs, old, p, k + 1)
    }
}

/// The plan for block `i` of the new blocks `rs`, given the previous sources
/// `old`: reuse the block at the same position from the front (within the
/// unchanged prefix) or from the back (within the unchanged suffix), else
/// parse the block's text afresh.
pub open spec fn plan_ok(d: Seq<Seq<char>>, rs: Seq<(int, int)>, old: Seq<Seq<char>>, i: int, p: BlockPlan) -> bool {
    let pre = prefix_len(d, rs, old, 0);
    let suf = suffix_len(d, rs, old, pre, 0);
    if i < pre {
        p == BlockPlan::Reuse(i as usize)
    } else if i >= rs.len() - suf {
        p == BlockPlan::Reuse((old.len() - rs.len() + i) as usize)
    } else {
        p matches BlockPlan::Parse(t) && t@ == join_spec(d.subrange(rs[i].0, rs[i].1))
    }
}

/// `n`'s document is `o`'s with the cursor line split at the cursor, and
/// the cursor at the start of the second half.
pub open spec fn split_post(o: Editor, n: Editor) -> bool {
    let d = o.doc();
    let r = o.active_start as int;
    let c = o.cursor_col as int;
    let d2 = d.update(r, d[r].subrange(0, c)).insert(r + 1, d[r].subrange(c, d[r].len() as int));
    n.activated(d2, r + 1, 0)
}

/// `n`'s document is `o`'s with the region's first line appended to the
/// line above, and the cursor at the join; `n` is modified.
pub open spec fn merge_previous_post(o: Editor, n: Editor) -> bool {
    let d = o.doc();
    let p = o.active_start - 1;
    let d2 = d.update(p, d[p] + d[p + 1]).remove(p + 1);
    &&& n.activated(d2, p, d[p].len() as int)
    &&& n.is_dirty
}

/// `p` with its row moved onto the last of `n` lines when it lies past it.
pub open spec fn fit_pos(p: (usize, usize), n: int) -> (usize, usize) {
    if p.0 < n {
        p
    } else {
        ((n - 1) as usize, p.1)
    }
}

/// The Vim state `v` with its Visual selection, if any, kept on a document
/// of `n` lines (anchor and head moved onto the last line when the document
/// shrank below them).
pub open spec fn fit_vim(v: VimState, n: int) -> VimState {
    VimState {
        visual: match v.visual {
            Some(s) => Some(Visual { anchor: fit_pos(s.anchor, n), head: fit_pos(s.head, n), ..s }),
            None => None,
        },
        ..v
    }
}

/// The Vim state `v` for a document that replaced the old one: no Visual
/// selection, and Normal mode if it was Visual mode.
pub open spec fn leave_visual(v: VimState) -> VimState {
    VimState {
        visual: None,
        mode: if v.mode is Visual {
            Mode::Normal
        } else {
            v.mode
        },
        ..v
    }
}

/// `e` with a file operation marked as running.
pub open spec fn loading(e: Editor) -> Editor {
    Editor { is_loading: true, ..e }
}

/// A snapshot is a non-empty document of newline-free lines.
pub open spec fn snapshot_ok(s: Snapshot) -> bool {
    vec_views(s.lines@).len() >= 1 && no_newlines(vec_views(s.lines@))
}

/// The smaller of two integers.
pub open spec fn min_int(a: int, b: int) -> int {
    if a <= b {
        a
    } else {
        b
    }
}

impl Editor {
    /// The document's lines.
    pub open spec fn doc(&self) -> Seq<Seq<char>> {
        vec_views(self.lines@)
    }

    /// Document row of the cursor.
    pub open spec fn cursor_row(&self) -> int {
        self.active_start + self.cursor_line
    }

    /// The editor's invariant: a non-empty document of newline-free lines, a
    /// non-empty active region inside it, and the cursor (and selection
    /// anchor) inside the region.
    pub open spec fn wf(&self) -> bool {
        let d = self.doc();
        &&& self.doc_ok()
        &&& self.active_start < self.active_end <= d.len()
        &&& self.cursor_line < self.active_end - self.active_start
        &&& self.cursor_col <= d[self.cursor_row()].len()
        &&& self.selection matches Some((l, c)) ==> l < self.active_end - self.active_start && c
            <= d[self.active_start + l].len()
        &&& self.visual_fits()
    }

    /// The Visual selection, if any, lies in the document: its anchor and
    /// head are on existing lines.
    pub open spec fn visual_fits(&self) -> bool {
        self.vim.visual matches Some(v) ==> v.anchor.0 < self.doc().len() && v.head.0 < self.doc().len()
    }

    /// The document is non-empty and newline-free, and so is every snapshot.
    pub open spec fn doc_ok(&self) -> bool {
        &&& self.doc().len() >= 1
        &&& no_newlines(self.doc())
        &&& forall|i: int| 0 <= i < self.undo_stack@.len() ==> snapshot_ok(#[trigger] self.undo_stack@[i])
        &&& forall|i: int| 0 <= i < self.redo_stack@.len() ==> snapshot_ok(#[trigger] self.redo_stack@[i])
    }

    /// The state after placing the cursor on document row `row`, char column
    /// `col` (clamped to the line), with the active region the table around
    /// `row` or `row` alone, and no selection; the document unchanged.
    pub open spec fn activated(&self, d: Seq<Seq<char>>, row: int, col: int) -> bool {
        let b = active_bounds_spec(d, row);
        &&& self.doc() == d
        &&& self.active_start == b.0
        &&& self.active_end == b.1
        &&& self.cursor_line == row - b.0
        &&& self.cursor_col == min_int(col, d[row].len() as int)
        &&& self.selection is None
    }

    /// Everything but the document, region, cursor and selection is as in
    /// `old`.
    pub open spec fn same_state(&self, old: &Editor) -> bool {
        &&& self.is_dirty == old.is_dirty
        &&& self.is_loading == old.is_loading
        &&& self.pending_quit == old.pending_quit
        &&& self.vim == old.vim
        &&& self.undo_stack == old.undo_stack
        &&& self.redo_stack == old.redo_stack
    }

    /// Byte offset of the cursor in its line.
    pub open spec fn cursor_byte(&self) -> int {
        byte_offset(self.doc()[self.cursor_row()], self.cursor_col as int) as int
    }

    /// Char column on `line` that byte offset `byte` snaps down to.
    pub open spec fn snap_col(line: Seq<char>, byte: int) -> int {
        choose|k: int| is_snap(line, byte, k)
    }

    /// Place the cursor on `row` at char column `col` (clamped), making the
    /// table around `row` (or `row` alone) the active region.
    pub fn activate_char(&mut self, row: usize, col: usize)
        requires
            row < old(self).doc().len(),
        ensures
            final(self).activated(old(self).doc(), row as int, col as int),
            old(self).doc_ok() && old(self).visual_fits() ==> final(self).wf(),
            final(self).same_state(old(self)),
    {
        let (start, end) = active_bounds_chars(&self.lines, row);
        proof {
            lemma_active_bounds(self.doc(), row as int);
        }
        self.active_start = start;
        self.active_end = end;
        self.cursor_line = row - start;
        let n = self.lines[row].len();
        self.cursor_col = if col < n {
            col
        } else {
            n
        };
        self.selection = None;
    }

    /// Place the cursor on `row` at the byte offset `byte`, snapped down to a
    /// char boundary (and to the end of the line).
    /// Keep the Visual selection on the document after it changed: an
    /// anchor or head past the last line moves onto it.
    pub fn fit_visual(&mut self)
        requires
            old(self).doc().len() >= 1,
        ensures
            *final(self) == (Editor { vim: fit_vim(old(self).vim, old(self).doc().len() as int), ..*old(self) }),
            final(self).visual_fits(),
    {
        let n = self.lines.len();
        if let Some(v) = self.vim.visual {
            let anchor = if v.anchor.0 < n {
                v.anchor
            } else {
                (n - 1, v.anchor.1)
            };
            let head = if v.head.0 < n {
                v.head
            } else {
                (n - 1, v.head.1)
            };
            self.vim.visual = Some(Visual { anchor, head, linewise: v.linewise });
        }
    }

    pub fn activate_byte(&mut self, row: usize, byte: u128)
        requires
            row < old(self).doc().len(),
        ensures
            final(self).activated(old(self).doc(), row as int, Self::snap_col(old(self).doc()[row as int], byte as int)),
            old(self).doc_ok() && old(self).visual_fits() ==> final(self).wf(),
            final(self).same_state(old(self)),
    {
        let k = snap_to_char(self.lines[row].as_slice(), byte);
        proof {
            let line = self.doc()[row as int];
            crate::text::lemma_snap_unique(line, byte as int, k as int, Self::snap_col(line, byte as int));
        }
        self.activate_char(row, k);
    }

    /// Byte offset of the cursor in its line.
    pub fn cursor_byte_exec(&self) -> (r: u128)
        requires
            self.wf(),
        ensures
            r == self.cursor_byte(),
    {
        offset_of(self.lines[self.active_start + self.cursor_line].as_slice(), self.cursor_col)
    }

    /// Create an editor on `text`, with the cursor at the start.
    pub fn new(text: &str) -> (r: Editor)
        ensures
            r.wf(),
            r.activated(split_seq(text@, '\n'), 0, 0),
            !r.is_dirty,
            !r.is_loading,
            !r.pending_quit,
            r.vim.mode == Mode::Normal,
            r.undo_stack@.len() == 0,
            r.redo_stack@.len() == 0,
    {
        let lines = split_text(text);
        let mut editor = Editor {
            lines,
            active_start: 0,
            active_end: 1,
            cursor_line: 0,
            cursor_col: 0,
            selection: None,
            is_dirty: false,
            is_loading: false,
            pending_quit: false,
            vim: VimState::new(),
            undo_stack: Vec::new(),
            redo_stack: Vec::new(),
        };
        editor.activate_char(0, 0);
        editor
    }

    /// Replace the whole document with `text`, resetting the active region.
    pub fn load_document(&mut self, text: &str)
        requires
            old(self).wf(),
        ensures
            final(self).wf(),
            final(self).activated(split_seq(text@, '\n'), 0, 0),
            final(self).is_dirty == old(self).is_dirty,
            final(self).is_loading == old(self).is_loading,
            final(self).pending_quit == old(self).pending_quit,
            final(self).vim == leave_visual(old(self).vim),
            final(self).undo_stack == old(self).undo_stack,
            final(self).redo_stack == old(self).redo_stack,
    {
        self.lines = split_text(text);
        self.vim.visual = None;
        if self.vim.mode == Mode::Visual {
            self.vim.mode = Mode::Normal;
        }
        self.activate_char(0, 0);
    }

    /// The whole document text (lines joined by `\n`).
    pub fn document_text(&self) -> (r: String)
        ensures
            r@ == join_spec(self.doc()),
    {
        let chars = join_range(&self.lines, 0, self.lines.len());
        assert(self.doc().subrange(0, self.doc().len() as int) =~= self.doc());
        from_chars(chars.as_slice())
    }

    /// The text of the active region (its lines joined by `\n`).
    pub fn active_text(&self) -> (r: String)
        requires
            self.wf(),
        ensures
            r@ == join_spec(self.doc().subrange(self.active_start as int, self.active_end as int)),
    {
        let chars = join_range(&self.lines, self.active_start, self.active_end);
        from_chars(chars.as_slice())
    }

    /// The document's lines as strings.
    pub fn lines_text(&self) -> (r: Vec<String>)
        ensures
            r@.len() == self.doc().len(),
            forall|i: int| 0 <= i < r@.len() ==> #[trigger] r@[i]@ == self.doc()[i],
    {
        let mut out: Vec<String> = Vec::new();
        let mut i: usize = 0;
        while i < self.lines.len()
            invariant
                i <= self.lines@.len(),
                out@.len() == i,
                forall|j: int| 0 <= j < i ==> #[trigger] out@[j]@ == self.doc()[j],
            decreases self.lines@.len() - i,
        {
            out.push(from_chars(self.lines[i].as_slice()));
            i += 1;
        }
        out
    }

    /// Split the (single-line) active region at the cursor into two lines and
    /// move to the start of the second (Enter on a standalone line).
    pub fn split_line(&mut self)
        requires
            old(self).wf(),
            old(self).active_end == old(self).active_start + 1,
        ensures
            final(self).wf(),
            split_post(*old(self), *final(self)),
            final(self).is_dirty,
            final(self).is_loading == old(self).is_loading,
            final(self).pending_quit == old(self).pending_quit,
            final(self).vim == old(self).vim,
            final(self).undo_stack == old(self).undo_stack,
            final(self).redo_stack == old(self).redo_stack,
    {
        let r = self.active_start;
        let c = self.cursor_col;
        let n = self.lines[r].len();
        let left = sub_chars(self.lines[r].as_slice(), 0, c);
        let right = sub_chars(self.lines[r].as_slice(), c, n);
        proof {
            let d = self.doc();
            lemma_sub_no_newline(d[r as int], 0, c as int);
            lemma_sub_no_newline(d[r as int], c as int, n as int);
            lemma_views_update(self.lines@, r as int, left);
        }
        self.lines.set(r, left);
        proof {
            lemma_views_insert(self.lines@, r + 1, right);
        }
        self.lines.insert(r + 1, right);
        self.is_dirty = true;
        proof {
            let d2 = self.doc();
            assert forall|i: int| 0 <= i < d2.len() implies !(#[trigger] d2[i]).contains('\n') by {
                let d = old(self).doc();
                if i < r {
                    assert(d2[i] == d[i]);
                } else if i > r + 1 {
                    assert(d2[i] == d[i - 1]);
                }
            }
        }
        self.activate_char(r + 1, 0);
    }

    /// Merge the first line of the active region into the previous line
    /// (Backspace at column 0); nothing at the top of the document.
    pub fn merge_with_previous(&mut self)
        requires
            old(self).wf(),
        ensures
            final(self).wf(),
            old(self).active_start == 0 ==> *final(self) == *old(self),
            old(self).active_start > 0 ==> merge_previous_post(*old(self), *final(self)),
            final(self).is_loading == old(self).is_loading,
            final(self).pending_quit == old(self).pending_quit,
            final(self).vim == fit_vim(old(self).vim, final(self).doc().len() as int),
            final(self).undo_stack == old(self).undo_stack,
            final(self).redo_stack == old(self).redo_stack,
    {
        if self.active_start == 0 {
            return;
        }
        let p = self.active_start - 1;
        let join_col = self.lines[p].len();
        self.join_lines(p);
        self.fit_visual();
        self.is_dirty = true;
        self.activate_char(p, join_col);
    }

    /// Merge the line after the active region into the region's last line
    /// (Delete at the end of the region); nothing at the end of the document.
    pub fn merge_with_next(&mut self)
        requires
            old(self).wf(),
        ensures
            final(self).wf(),
            old(self).active_end >= old(self).doc().len() ==> *final(self) == *old(self),
            old(self).active_end < old(self).doc().len() ==> ({
                let d = old(self).doc();
                let p = old(self).active_end - 1;
                let d2 = d.update(p, d[p] + d[p + 1]).remove(p + 1);
                &&& final(self).activated(d2, p, d[p].len() as int)
                &&& final(self).is_dirty
            }),
            final(self).is_loading == old(self).is_loading,
            final(self).pending_quit == old(self).pending_quit,
            final(self).vim == fit_vim(old(self).vim, final(self).doc().len() as int),
            final(self).undo_stack == old(self).undo_stack,
            final(self).redo_stack == old(self).redo_stack,
    {
        if self.active_end >= self.lines.len() {
            return;
        }
        let p = self.active_end - 1;
        let join_col = self.lines[p].len();
        self.join_lines(p);
        self.fit_visual();
        self.is_dirty = true;
        self.activate_char(p, join_col);
    }

    /// Append line `p + 1` to line `p` and remove it.
    fn join_lines(&mut self, p: usize)
        requires
            old(self).doc_ok(),
            p + 1 < old(self).doc().len(),
        ensures
            final(self).doc() == old(self).doc().update(p as int, old(self).doc()[p as int] + old(self).doc()[p + 1]).remove(p + 1),
            final(self).doc_ok(),
            final(self).undo_stack == old(self).undo_stack,
            final(self).redo_stack == old(self).redo_stack,
            final(self).vim == old(self).vim,
            final(self).is_dirty == old(self).is_dirty,
            final(self).is_loading == old(self).is_loading,
            final(self).pending_quit == old(self).pending_quit,
            final(self).active_start == old(self).active_start,
            final(self).active_end == old(self).active_end,
    {
        let ghost d = self.doc();
        assert(p + 1 < self.lines.len());
        let mut next = self.lines.remove(p + 1);
        proof {
            lemma_views_remove(old(self).lines@, p + 1);
        }
        let mut cur: Vec<char> = Vec::new();
        self.lines.set_and_swap(p, &mut cur);
        cur.append(&mut next);
        proof {
            lemma_views_update(self.lines@, p as int, cur);
        }
        self.lines.set(p, cur);
        proof {
            assert(!d[p as int].contains('\n'));
            assert(!d[p + 1].contains('\n'));
            lemma_concat_no_newline(d[p as int], d[p + 1]);
            let d2 = self.doc();
            assert(d2 =~= d.update(p as int, d[p as int] + d[p + 1]).remove(p + 1));
            assert forall|i: int| 0 <= i < d2.len() implies !(#[trigger] d2[i]).contains('\n') by {
                if i < p {
                    assert(d2[i] == d[i]);
                } else if i > p {
                    assert(d2[i] == d[i + 1]);
                }
            }
        }
    }

    /// Move the cursor up out of the active region to the previous line,
    /// keeping its byte column; nothing at the top of the document.
    pub fn move_up(&mut self)
        requires
            old(self).wf(),
        ensures
            final(self).wf(),
            final(self).same_state(old(self)),
            old(self).active_start == 0 ==> *final(self) == *old(self),
            old(self).active_start > 0 ==> final(self).activated(
                old(self).doc(),
                old(self).active_start - 1,
                Self::snap_col(old(self).doc()[old(self).active_start - 1], old(self).cursor_byte()),
            ),
    {
        if self.active_start == 0 {
            return;
        }
        let byte = self.cursor_byte_exec();
        self.activate_byte(self.active_start - 1, byte);
    }

    /// Move the cursor down out of the active region to the next line,
    /// keeping its byte column; nothing at the end of the document.
    pub fn move_down(&mut self)
        requires
            old(self).wf(),
        ensures
            final(self).wf(),
            final(self).same_state(old(self)),
            old(self).active_end >= old(self).doc().len() ==> *final(self) == *old(self),
            old(self).active_end < old(self).doc().len() ==> final(self).activated(
                old(self).doc(),
                old(self).active_end as int,
                Self::snap_col(old(self).doc()[old(self).active_end as int], old(self).cursor_byte()),
            ),
    {
        if self.active_end >= self.lines.len() {
            return;
        }
        let byte = self.cursor_byte_exec();
        self.activate_byte(self.active_end, byte);
    }

    /// Move the active line up by one page (`PgUp`), keeping the byte column;
    /// nothing at the top of the document.
    pub fn page_up(&mut self)
        requires
            old(self).wf(),
        ensures
            final(self).wf(),
            final(self).same_state(old(self)),
            old(self).active_start == 0 ==> *final(self) == *old(self),
            old(self).active_start > 0 ==> ({
                let target = if old(self).active_start >= PAGE_LINES {
                    old(self).active_start - PAGE_LINES
                } else {
                    0
                };
                final(self).activated(
                    old(self).doc(),
                    target,
                    Self::snap_col(old(self).doc()[target], old(self).cursor_byte()),
                )
            }),
    {
        if self.active_start == 0 {
            return;
        }
        let byte = self.cursor_byte_exec();
        let target = if self.active_start >= PAGE_LINES {
            self.active_start - PAGE_LINES
        } else {
            0
        };
        self.activate_byte(target, byte);
    }

    /// Move the active line down by one page (`PgDown`), keeping the byte
    /// column, stopping at the last line; nothing when the region already
    /// ends the document.
    pub fn page_down(&mut self)
        requires
            old(self).wf(),
        ensures
            final(self).wf(),
            final(self).same_state(old(self)),
            old(self).active_end >= old(self).doc().len() ==> *final(self) == *old(self),
            old(self).active_end < old(self).doc().len() ==> ({
                let last = old(self).doc().len() - 1;
                let target = min_int(old(self).active_start + PAGE_LINES, last);
                final(self).activated(
                    old(self).doc(),
                    target,
                    Self::snap_col(old(self).doc()[target], old(self).cursor_byte()),
                )
            }),
    {
        let last = self.lines.len() - 1;
        if self.active_end > last {
            return;
        }
        let byte = self.cursor_byte_exec();
        let target = if last >= PAGE_LINES && self.active_start < last - PAGE_LINES {
            self.active_start + PAGE_LINES
        } else {
            last
        };
        self.activate_byte(target, byte);
    }

    /// Jump to the very start of the document (`Ctrl+Home`).
    pub fn jump_to_start(&mut self)
        requires
            old(self).wf(),
        ensures
            final(self).wf(),
            final(self).same_state(old(self)),
            final(self).activated(old(self).doc(), 0, 0),
    {
        self.activate_char(0, 0);
    }

    /// Jump to the very end of the document (`Ctrl+End`).
    pub fn jump_to_end(&mut self)
        requires
            old(self).wf(),
        ensures
            final(self).wf(),
            final(self).same_state(old(self)),
            ({
                let last = old(self).doc().len() - 1;
                final(self).activated(old(self).doc(), last, old(self).doc()[last].len() as int)
            }),
    {
        let last = self.lines.len() - 1;
        let n = self.lines[last].len();
        self.activate_char(last, n);
    }

    /// A click on line `index` outside the active region makes it the active
    /// line (cursor at its start); other indices change nothing.
    pub fn activate(&mut self, index: usize)
        requires
            old(self).wf(),
        ensures
            final(self).wf(),
            final(self).same_state(old(self)),
            ({
                let o = old(self);
                if index < o.doc().len() && (index < o.active_start || index >= o.active_end) {
                    final(self).activated(o.doc(), index as int, 0)
                } else {
                    *final(self) == *o
                }
            }),
    {
        if index < self.lines.len() && (index < self.active_start || index >= self.active_end) {
            self.activate_char(index, 0);
        }
    }

    /// Replace lines `start..end` with `parts`.
    pub fn splice_lines(&mut self, start: usize, end: usize, parts: Vec<Vec<char>>)
        requires
            start <= end <= old(self).doc().len(),
        ensures
            final(self).doc() == old(self).doc().subrange(0, start as int) + vec_views(parts@)
                + old(self).doc().subrange(end as int, old(self).doc().len() as int),
            final(self).active_start == old(self).active_start,
            final(self).active_end == old(self).active_end,
            final(self).cursor_line == old(self).cursor_line,
            final(self).cursor_col == old(self).cursor_col,
            final(self).selection == old(self).selection,
            final(self).same_state(old(self)),
    {
        let ghost d = self.doc();
        let mut out: Vec<Vec<char>> = Vec::new();
        let mut i: usize = 0;
        while i < start
            invariant
                d == vec_views(self.lines@),
                start <= end <= d.len(),
                i <= start,
                vec_views(out@) == d.subrange(0, i as int),
            decreases start - i,
        {
            let n = self.lines[i].len();
            let copy = sub_chars(self.lines[i].as_slice(), 0, n);
            assert(self.lines@[i as int]@.subrange(0, n as int) =~= self.lines@[i as int]@);
            proof {
                lemma_views_push(out@, copy);
            }
            out.push(copy);
            assert(vec_views(out@) =~= d.subrange(0, i + 1));
            i += 1;
        }
        let mut k: usize = 0;
        let ghost base = vec_views(out@);
        while k < parts.len()
            invariant
                k <= parts@.len(),
                vec_views(out@) == base + vec_views(parts@).subrange(0, k as int),
            decreases parts@.len() - k,
        {
            let n = parts[k].len();
            let copy = sub_chars(parts[k].as_slice(), 0, n);
            assert(parts@[k as int]@.subrange(0, n as int) =~= parts@[k as int]@);
            proof {
                lemma_views_push(out@, copy);
            }
            out.push(copy);
            assert(vec_views(out@) =~= base + vec_views(parts@).subrange(0, k + 1));
            k += 1;
        }
        assert(vec_views(parts@).subrange(0, parts@.len() as int) =~= vec_views(parts@));
        let ghost mid = vec_views(out@);
        let mut j = end;
        while j < self.lines.len()
            invariant
                d == vec_views(self.lines@),
                end <= j <= d.len(),
                vec_views(out@) == mid + d.subrange(end as int, j as int),
            decreases d.len() - j,
        {
            let n = self.lines[j].len();
            let copy = sub_chars(self.lines[j].as_slice(), 0, n);
            assert(self.lines@[j as int]@.subrange(0, n as int) =~= self.lines@[j as int]@);
            proof {
                lemma_views_push(out@, copy);
            }
            out.push(copy);
            assert(vec_views(out@) =~= mid + d.subrange(end as int, j + 1));
            j += 1;
        }
        self.lines = out;
    }

    /// Take the state of the raw editor after it handled an action: when the
    /// action edited the text, `text` (the region's new text) is written back
    /// over the region, which then spans its lines, and the document is
    /// marked modified; the cursor goes to region line `line` (clamped) at
    /// byte `byte` (snapped down to a char boundary).
    pub fn editor_action(&mut self, is_edit: bool, text: &str, line: usize, byte: usize)
        requires
            old(self).wf(),
        ensures
            final(self).wf(),
            ({
                let o = old(self);
                let parts = split_seq(text@, '\n');
                let d = o.doc();
                let d2 = if is_edit {
                    d.subrange(0, o.active_start as int) + parts + d.subrange(o.active_end as int, d.len() as int)
                } else {
                    d
                };
                let end2 = if is_edit {
                    o.active_start + parts.len()
                } else {
                    o.active_end as int
                };
                let l2 = min_int(line as int, end2 - o.active_start - 1);
                &&& final(self).doc() == d2
                &&& final(self).active_start == o.active_start
                &&& final(self).active_end == end2
                &&& final(self).cursor_line == l2
                &&& final(self).cursor_col == Self::snap_col(d2[o.active_start + l2], byte as int)
                &&& final(self).selection is None
                &&& final(self).is_dirty == (o.is_dirty || is_edit)
            }),
            final(self).is_loading == old(self).is_loading,
            final(self).pending_quit == old(self).pending_quit,
            final(self).vim == fit_vim(old(self).vim, final(self).doc().len() as int),
            final(self).undo_stack == old(self).undo_stack,
            final(self).redo_stack == old(self).redo_stack,
    {
        if is_edit {
            self.is_dirty = true;
            self.commit_text(text);
            self.fit_visual();
        }
        let size = self.active_end - self.active_start;
        let l = if line < size {
            line
        } else {
            size - 1
        };
        let row = self.active_start + l;
        let k = snap_to_char(self.lines[row].as_slice(), byte as u128);
        proof {
            let ln = self.doc()[row as int];
            crate::text::lemma_snap_unique(ln, byte as int, k as int, Self::snap_col(ln, byte as int));
        }
        self.cursor_line = l;
        self.cursor_col = k;
        self.selection = None;
    }

    /// Write `text` back over the active region (split on newlines), making
    /// the region span the new lines.
    pub fn commit_text(&mut self, text: &str)
        requires
            old(self).wf(),
        ensures
            ({
                let o = old(self);
                let parts = split_seq(text@, '\n');
                let d = o.doc();
                &&& final(self).doc() == d.subrange(0, o.active_start as int) + parts + d.subrange(o.active_end as int, d.len() as int)
                &&& final(self).active_end == o.active_start + parts.len()
            }),
            final(self).doc_ok(),
            final(self).active_start == old(self).active_start,
            final(self).active_start < final(self).active_end <= final(self).doc().len(),
            final(self).same_state(old(self)),
    {
        let parts = split_text(text);
        let count = parts.len();
        let ghost d = self.doc();
        let ghost pv = vec_views(parts@);
        self.splice_lines(self.active_start, self.active_end, parts);
        proof {
            let d2 = self.doc();
            let s0 = self.active_start as int;
            let e0 = old(self).active_end as int;
            assert forall|i: int| 0 <= i < d2.len() implies !(#[trigger] d2[i]).contains('\n') by {
                if i < s0 {
                    assert(d2[i] == d[i]);
                } else if i < s0 + pv.len() {
                    assert(d2[i] == pv[i - s0]);
                } else {
                    assert(d2[i] == d[i - s0 - pv.len() + e0]);
                }
            }
        }
        let total = self.lines.len();
        assert(self.active_start + count <= total);
        self.active_end = self.active_start + count;
    }

    /// Start opening a file: `false` (nothing to do) while a file operation
    /// is in progress, else marks one in progress.
    pub fn begin_open(&mut self) -> (r: bool)
        ensures
            r == !old(self).is_loading,
            final(self).is_loading,
            final(self).doc() == old(self).doc(),
            final(self).active_start == old(self).active_start,
            final(self).active_end == old(self).active_end,
            final(self).cursor_line == old(self).cursor_line,
            final(self).cursor_col == old(self).cursor_col,
            final(self).selection == old(self).selection,
            final(self).is_dirty == old(self).is_dirty,
            final(self).pending_quit == old(self).pending_quit,
            final(self).vim == old(self).vim,
            final(self).undo_stack == old(self).undo_stack,
            final(self).redo_stack == old(self).redo_stack,
    {
        if self.is_loading {
            return false;
        }
        self.is_loading = true;
        true
    }

    /// A file load finished: with `Some(contents)` the document becomes those
    /// contents (cursor at the start); either way the operation is over and
    /// the document counts as saved.
    pub fn file_opened(&mut self, contents: Option<&str>)
        requires
            old(self).wf(),
        ensures
            final(self).wf(),
            !final(self).is_loading,
            !final(self).is_dirty,
            match contents {
                Some(c) => final(self).activated(split_seq(c@, '\n'), 0, 0),
                None => final(self).doc() == old(self).doc() && final(self).active_start == old(self).active_start
                    && final(self).active_end == old(self).active_end && final(self).cursor_line == old(self).cursor_line
                    && final(self).cursor_col == old(self).cursor_col && final(self).selection == old(self).selection,
            },
            final(self).pending_quit == old(self).pending_quit,
            final(self).vim == match contents {
                Some(_) => leave_visual(old(self).vim),
                None => old(self).vim,
            },
            final(self).undo_stack == old(self).undo_stack,
            final(self).redo_stack == old(self).redo_stack,
    {
        self.is_loading = false;
        self.is_dirty = false;
        if let Some(c) = contents {
            self.load_document(c);
        }
    }

    /// Start a new, empty document (`:e`, the New button): `false` (nothing
    /// done) while a file operation is in progress.
    pub fn new_file(&mut self) -> (r: bool)
        requires
            old(self).wf(),
        ensures
            final(self).wf(),
            r == !old(self).is_loading,
            r ==> final(self).activated(seq![Seq::<char>::empty()], 0, 0) && !final(self).is_dirty,
            !r ==> *final(self) == *old(self),
            final(self).is_loading == old(self).is_loading,
            final(self).pending_quit == old(self).pending_quit,
            r ==> final(self).vim == leave_visual(old(self).vim),
            final(self).undo_stack == old(self).undo_stack,
            final(self).redo_stack == old(self).redo_stack,
    {
        if self.is_loading {
            return false;
        }
        self.load_document("");
        proof {
            reveal_strlit("");
            assert(split_seq(""@, '\n') =~= seq![Seq::<char>::empty()]);
        }
        self.is_dirty = false;
        true
    }

    /// Start saving: `None` (nothing to do) while a file operation is in
    /// progress, else marks one in progress and returns the text to write.
    pub fn begin_save(&mut self) -> (r: Option<String>)
        ensures
            match r {
                None => old(self).is_loading && *final(self) == *old(self),
                Some(t) => !old(self).is_loading && t@ == join_spec(old(self).doc()) && *final(self)
                    == loading(*old(self)),
            },
    {
        if self.is_loading {
            return None;
        }
        self.is_loading = true;
        Some(self.document_text())
    }

    /// A save finished (`ok`: it succeeded). Returns whether to quit now (a
    /// `:wq` was waiting for it); a failed or cancelled save cancels that
    /// quit so no unsaved work is lost.
    pub fn file_saved(&mut self, ok: bool) -> (quit: bool)
        ensures
            quit == (ok && old(self).pending_quit),
            !final(self).is_loading,
            !final(self).pending_quit,
            final(self).is_dirty == (old(self).is_dirty && !ok),
            final(self).doc() == old(self).doc(),
            final(self).active_start == old(self).active_start,
            final(self).active_end == old(self).active_end,
            final(self).cursor_line == old(self).cursor_line,
            final(self).cursor_col == old(self).cursor_col,
            final(self).selection == old(self).selection,
            final(self).vim == old(self).vim,
            final(self).undo_stack == old(self).undo_stack,
            final(self).redo_stack == old(self).redo_stack,
    {
        self.is_loading = false;
        if ok {
            self.is_dirty = false;
            if self.pending_quit {
                self.pending_quit = false;
                return true;
            }
        } else {
            self.pending_quit = false;
        }
        false
    }

    /// Insert or Visual mode: the modes that show the cursor line as raw
    /// source.
    pub open spec fn edit_mode(&self) -> bool {
        self.vim.mode is Insert || self.vim.mode is Visual
    }

    /// Whether Insert or Visual mode is active.
    pub fn vim_is_edit_mode(&self) -> (r: bool)
        ensures
            r == self.edit_mode(),
    {
        match self.vim.mode {
            Mode::Insert | Mode::Visual => true,
            Mode::Normal => false,
        }
    }

    /// The line range split out as the raw editor when the document is
    /// segmented for rendering: the active region in Insert/Visual mode;
    /// nothing (a range at the end of the document) in Normal mode, where the
    /// cursor line renders inside its block.
    pub open spec fn render_split_spec(&self) -> (int, int) {
        if self.edit_mode() {
            (self.active_start as int, self.active_end as int)
        } else {
            (self.doc().len() as int, self.doc().len() as int)
        }
    }

    /// The line range split out as the raw editor when rendering.
    pub fn render_split(&self) -> (r: (usize, usize))
        ensures
            (r.0 as int, r.1 as int) == self.render_split_spec(),
    {
        if self.vim_is_edit_mode() {
            (self.active_start, self.active_end)
        } else {
            (self.lines.len(), self.lines.len())
        }
    }

    /// The segments the document renders as.
    pub open spec fn segments_spec(&self) -> Seq<Segment> {
        segments_from(self.doc(), self.render_split_spec().0, self.render_split_spec().1, 0)
    }

    /// The segments the document renders as.
    pub fn render_segments(&self) -> (r: Vec<Segment>)
        ensures
            r@ == self.segments_spec(),
    {
        let (a, b) = self.render_split();
        segments_chars(&self.lines, a, b)
    }

    /// The line ranges of the rendered Markdown blocks, in order.
    pub fn block_ranges(&self) -> (r: Vec<(usize, usize)>)
        ensures
            r@.len() == block_ranges_of(self.segments_spec()).len(),
            forall|i: int| 0 <= i < r@.len() ==> (#[trigger] r@[i]).0 as int == block_ranges_of(self.segments_spec())[i].0
                && r@[i].1 as int == block_ranges_of(self.segments_spec())[i].1,
    {
        let segs = self.render_segments();
        let ghost all = block_ranges_of(segs@);
        let mut out: Vec<(usize, usize)> = Vec::new();
        let mut i = segs.len();
        let ghost mut acc: Seq<(int, int)> = Seq::empty();
        // Walk from the back so the collected ranges are a suffix of `all`.
        let mut rev: Vec<(usize, usize)> = Vec::new();
        while i > 0
            invariant
                i <= segs@.len(),
                rev@.len() == block_ranges_of(segs@.subrange(i as int, segs@.len() as int)).len(),
                forall|j: int| 0 <= j < rev@.len() ==> ({
                    let want = block_ranges_of(segs@.subrange(i as int, segs@.len() as int));
                    (#[trigger] rev@[j]).0 as int == want[want.len() - 1 - j].0
                        && rev@[j].1 as int == want[want.len() - 1 - j].1
                }),
            decreases i,
        {
            i -= 1;
            let ghost tail = segs@.subrange(i as int, segs@.len() as int);
            assert(tail.drop_first() =~= segs@.subrange(i + 1, segs@.len() as int));
            match segs[i] {
                Segment::Block { start, end } => {
                    rev.push((start, end));
                },
                _ => {},
            }
        }
        assert(segs@.subrange(0, segs@.len() as int) =~= segs@);
        let mut k = rev.len();
        while k > 0
            invariant
                k <= rev@.len(),
                rev@.len() == all.len(),
                all == block_ranges_of(segs@),
                forall|j: int| 0 <= j < rev@.len() ==> (#[trigger] rev@[j]).0 as int == all[all.len() - 1 - j].0
                    && rev@[j].1 as int == all[all.len() - 1 - j].1,
                out@.len() == rev@.len() - k,
                forall|j: int| 0 <= j < out@.len() ==> (#[trigger] out@[j]).0 as int == all[j].0 && out@[j].1 as int == all[j].1,
            decreases k,
        {
            k -= 1;
            out.push(rev[k]);
        }
        out
    }

    /// Plan the rebuild of the rendered blocks from the previous blocks'
    /// source texts `old_sources`: reuse the previously parsed blocks whose
    /// text is unchanged at the front and at the back of the block list, and
    /// parse the rest.
    pub fn rebuild_plan(&self, old_sources: &Vec<String>) -> (r: Vec<BlockPlan>)
        requires
            self.wf(),
        ensures
            r@.len() == block_ranges_of(self.segments_spec()).len(),
            forall|i: int| 0 <= i < r@.len() ==> plan_ok(
                self.doc(),
                block_ranges_of(self.segments_spec()),
                string_views(old_sources@),
                i,
                #[trigger] r@[i],
            ),
            forall|i: int| 0 <= i < r@.len() ==> (#[trigger] r@[i] matches BlockPlan::Reuse(k) ==> k < old_sources@.len()),
            forall|i: int, j: int|
                0 <= i < j < r@.len() && #[trigger] r@[i] is Reuse && #[trigger] r@[j] is Reuse ==> r@[i]->Reuse_0 != r@[j]->Reuse_0,
    {
        let ranges = self.block_ranges();
        let ghost rs = block_ranges_of(self.segments_spec());
        let ghost old = string_views(old_sources@);
        let ghost d = self.doc();
        let new_len = ranges.len();
        let old_len = old_sources.len();
        proof {
            assert(d.len() == self.lines.len());
            lemma_block_ranges_bounds(d, self.render_split_spec().0, self.render_split_spec().1);
        }
        let mut prefix: usize = 0;
        while prefix < new_len && prefix < old_len && self.range_matches(ranges[prefix], &old_sources[prefix])
            invariant
                self.wf(),
                d == self.doc(),
                ranges@.len() == rs.len(),
                forall|j: int| 0 <= j < ranges@.len() ==> (#[trigger] ranges@[j]).0 as int == rs[j].0 && ranges@[j].1 as int == rs[j].1,
                forall|j: int| 0 <= j < rs.len() ==> 0 <= (#[trigger] rs[j]).0 <= rs[j].1 <= d.len(),
                old == string_views(old_sources@),
                prefix <= new_len,
                prefix <= old_len,
                new_len == rs.len(),
                old_len == old.len(),
                prefix_len(d, rs, old, prefix as int) == prefix_len(d, rs, old, 0),
            decreases new_len - prefix,
        {
            prefix += 1;
        }
        assert(prefix_len(d, rs, old, prefix as int) == prefix as int);
        let mut suffix: usize = 0;
        while suffix < new_len - prefix && suffix < old_len - prefix && self.range_matches(
            ranges[new_len - 1 - suffix],
            &old_sources[old_len - 1 - suffix],
        )
            invariant
                self.wf(),
                d == self.doc(),
                ranges@.len() == rs.len(),
                forall|j: int| 0 <= j < ranges@.len() ==> (#[trigger] ranges@[j]).0 as int == rs[j].0 && ranges@[j].1 as int == rs[j].1,
                forall|j: int| 0 <= j < rs.len() ==> 0 <= (#[trigger] rs[j]).0 <= rs[j].1 <= d.len(),
                old == string_views(old_sources@),
                prefix <= new_len,
                prefix <= old_len,
                suffix <= new_len - prefix,
                suffix <= old_len - prefix,
                new_len == rs.len(),
                old_len == old.len(),
                prefix as int == prefix_len(d, rs, old, 0),
                suffix_len(d, rs, old, prefix as int, suffix as int) == suffix_len(d, rs, old, prefix as int, 0),
            decreases new_len - suffix,
        {
            suffix += 1;
        }
        assert(suffix_len(d, rs, old, prefix as int, suffix as int) == suffix as int);
        let middle_end = new_len - suffix;
        let mut out: Vec<BlockPlan> = Vec::new();
        let mut i: usize = 0;
        while i < new_len
            invariant
                self.wf(),
                d == self.doc(),
                ranges@.len() == rs.len(),
                forall|j: int| 0 <= j < ranges@.len() ==> (#[trigger] ranges@[j]).0 as int == rs[j].0 && ranges@[j].1 as int == rs[j].1,
                forall|j: int| 0 <= j < rs.len() ==> 0 <= (#[trigger] rs[j]).0 <= rs[j].1 <= d.len(),
                old == string_views(old_sources@),
                new_len == rs.len(),
                old_len == old.len(),
                prefix as int == prefix_len(d, rs, old, 0),
                suffix as int == suffix_len(d, rs, old, prefix as int, 0),
                prefix <= new_len,
                prefix <= old_len,
                suffix <= new_len - prefix,
                suffix <= old_len - prefix,
                middle_end == new_len - suffix,
                i <= new_len,
                out@.len() == i,
                forall|j: int| 0 <= j < i ==> plan_ok(d, rs, old, j, #[trigger] out@[j]),
            decreases new_len - i,
        {
            if i < prefix {
                out.push(BlockPlan::Reuse(i));
            } else if i >= middle_end {
                out.push(BlockPlan::Reuse(old_len - (new_len - i)));
            } else {
                let (a, b) = ranges[i];
                let text = join_range(&self.lines, a, b);
                out.push(BlockPlan::Parse(from_chars(text.as_slice())));
            }
            i += 1;
        }
        proof {
            assert forall|j: int| 0 <= j < out@.len() implies (#[trigger] out@[j] matches BlockPlan::Reuse(k) ==> (j
                < prefix && k == j) || (j >= middle_end && k == old_len - new_len + j && prefix <= k < old_len)) by {
                assert(plan_ok(d, rs, old, j, out@[j]));
            }
            assert forall|a: int, b: int|
                0 <= a < b < out@.len() && #[trigger] out@[a] is Reuse && #[trigger] out@[b] is Reuse implies out@[a]->Reuse_0
                    != out@[b]->Reuse_0 by {
                match (out@[a], out@[b]) {
                    (BlockPlan::Reuse(x), BlockPlan::Reuse(y)) => {
                        assert((a < prefix && x == a) || (a >= middle_end && x == old_len - new_len + a && prefix <= x));
                        assert((b < prefix && y == b) || (b >= middle_end && y == old_len - new_len + b && prefix <= y));
                        assert(x != y);
                    },
                    _ => {},
                }
            }
        }
        out
    }

    /// Whether the lines `range` are the `\n`-separated pieces of `source`.
    fn range_matches(&self, range: (usize, usize), source: &String) -> (r: bool)
        requires
            range.0 <= range.1 <= self.doc().len(),
        ensures
            r == source_matches(self.doc(), (range.0 as int, range.1 as int), source@),
    {
        let src = to_chars(source.as_str());
        block_source_eq_chars(&self.lines, range, src.as_slice())
    }

    /// The cursor in document `(row, col)` char coordinates.
    pub fn doc_cursor_chars(&self) -> (r: (usize, usize))
        requires
            self.wf(),
        ensures
            r.0 == self.cursor_row(),
            r.1 == self.cursor_col,
    {
        (self.active_start + self.cursor_line, self.cursor_col)
    }
}

pub proof fn lemma_views_update(s: Seq<Vec<char>>, i: int, v: Vec<char>)
    requires
        0 <= i < s.len(),
    ensures
        vec_views(s.update(i, v)) =~= vec_views(s).update(i, v@),
{
}

pub proof fn lemma_views_push(s: Seq<Vec<char>>, v: Vec<char>)
    ensures
        vec_views(s.push(v)) =~= vec_views(s).push(v@),
{
}

pub proof fn lemma_views_insert(s: Seq<Vec<char>>, i: int, v: Vec<char>)
    requires
        0 <= i <= s.len(),
    ensures
        vec_views(s.insert(i, v)) =~= vec_views(s).insert(i, v@),
{
}

pub proof fn lemma_views_remove(s: Seq<Vec<char>>, i: int)
    requires
        0 <= i < s.len(),
    ensures
        vec_views(s.remove(i)) =~= vec_views(s).remove(i),
{
}

/// `a` and `b` contain no newline, nor does their concatenation.
pub proof fn lemma_concat_no_newline(a: Seq<char>, b: Seq<char>)
    requires
        !a.contains('\n'),
        !b.contains('\n'),
    ensures
        !(a + b).contains('\n'),
{
    if (a + b).contains('\n') {
        let i = choose|i: int| 0 <= i < (a + b).len() && (a + b)[i] == '\n';
        if i < a.len() {
            assert(a[i] == '\n');
        } else {
            assert(b[i - a.len()] == '\n');
        }
    }
}

/// A part of a newline-free line is newline-free.
pub proof fn lemma_sub_no_newline(a: Seq<char>, i: int, j: int)
    requires
        !a.contains('\n'),
        0 <= i <= j <= a.len(),
    ensures
        !a.subrange(i, j).contains('\n'),
{
    if a.subrange(i, j).contains('\n') {
        let k = choose|k: int| 0 <= k < j - i && a.subrange(i, j)[k] == '\n';
        assert(a[i + k] == '\n');
    }
}

/// The lines of `text` (split on `\n`).
pub fn split_text(text: &str) -> (r: Vec<Vec<char>>)
    ensures
        vec_views(r@) == split_seq(text@, '\n'),
        vec_views(r@).len() >= 1,
        no_newlines(vec_views(r@)),
{
    let chars = to_chars(text);
    let parts = split_chars(chars.as_slice(), '\n');
    proof {
        crate::text::lemma_split_nonempty(text@, '\n');
        lemma_split_no_newlines(text@);
    }
    assert(vec_views(parts@) =~= split_seq(text@, '\n'));
    parts
}

/// The pieces of a split on `\n` contain no `\n`.
pub proof fn lemma_split_no_newlines(s: Seq<char>)
    ensures
        no_newlines(split_seq(s, '\n')),
    decreases s.len(),
{
    crate::text::lemma_split_nonempty(s, '\n');
    if s.len() > 0 {
        let rest = split_seq(s.drop_first(), '\n');
        lemma_split_no_newlines(s.drop_first());
        crate::text::lemma_split_nonempty(s.drop_first(), '\n');
        if s[0] != '\n' {
            let first = seq![s[0]] + rest[0];
            assert(!first.contains('\n')) by {
                if first.contains('\n') {
                    let i = choose|i: int| 0 <= i < first.len() && first[i] == '\n';
                    if i > 0 {
                        assert(rest[0][i - 1] == '\n');
                        assert(rest[0].contains('\n'));
                    }
                }
            }
        }
        let r = split_seq(s, '\n');
        assert forall|i: int| 0 <= i < r.len() implies !(#[trigger] r[i]).contains('\n') by {
            if s[0] == '\n' {
                if i > 0 {
                    assert(r[i] == rest[i - 1]);
                } else {
                    assert(r[i] =~= Seq::<char>::empty());
                }
            } else if i > 0 {
                assert(r[i] == rest[i]);
            }
        }
    }
}

} // verus!
